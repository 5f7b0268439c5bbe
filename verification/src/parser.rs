//! The recursive-descent parser. `sp_read_line` and its companions define
//! the grammar mathematically over token sequences; the executable reader
//! returns exactly the tree they name, or an error exactly when they name
//! none.
use vstd::prelude::*;

use crate::ast::{BinaryExpr, DoUntilExpr, Error, Expr, ForExpr, FunctionExpr, IfExpr, RepeatExpr,
    SpecExpr, SwitchExpr, UnaryExpr, VarExpr, WhileExpr, WithExpr, exprs_view};
use crate::token::{Keyword, Operator, Separator, SpecToken, Token, spec_op_precedence, toks_view};

verus! {

/// The token stream under parse, with the line each token starts on.
pub struct Parser {
    pub toks: Vec<Token>,
    pub lines: Vec<usize>,
}

impl View for Parser {
    type V = Seq<SpecToken>;

    open spec fn view(&self) -> Seq<SpecToken> {
        toks_view(self.toks@)
    }
}

impl Parser {
    pub open spec fn wf(&self) -> bool {
        self.toks@.len() == self.lines@.len()
    }

    /// Line number used for a diagnostic at token position `pos`.
    fn line_at(&self, pos: usize) -> usize
        requires
            self.wf(),
    {
        if pos < self.lines.len() {
            self.lines[pos]
        } else if self.lines.len() > 0 {
            self.lines[self.lines.len() - 1]
        } else {
            1
        }
    }
}

/// Ranked precedence of a binary operator, `None` for the rest.
fn op_precedence(op: Operator) -> (r: Option<u8>)
    ensures
        r == spec_op_precedence(op),
{
    match op {
        Operator::And => Some(0),
        Operator::Or => Some(0),
        Operator::Xor => Some(0),
        Operator::LessThan => Some(1),
        Operator::GreaterThan => Some(1),
        Operator::Equal => Some(1),
        Operator::NotEqual => Some(1),
        Operator::LessThanOrEqual => Some(1),
        Operator::GreaterThanOrEqual => Some(1),
        Operator::BinaryAnd => Some(2),
        Operator::BinaryOr => Some(2),
        Operator::BinaryXor => Some(2),
        Operator::BinaryShiftLeft => Some(3),
        Operator::BinaryShiftRight => Some(3),
        Operator::Add => Some(4),
        Operator::Subtract => Some(4),
        Operator::Multiply => Some(5),
        Operator::Divide => Some(5),
        Operator::IntDivide => Some(5),
        Operator::Modulo => Some(5),
        _ => None,
    }
}

/// Position of the first token at or after `pos` that is not a semicolon.
pub open spec fn sp_skip_semis(ts: Seq<SpecToken>, pos: int) -> int
    decreases ts.len() - pos,
{
    if 0 <= pos < ts.len() && ts[pos] == SpecToken::Separator(Separator::Semicolon) {
        sp_skip_semis(ts, pos + 1)
    } else {
        pos
    }
}

/// The identifiers of a `var` statement after its first name, and the
/// position just past what the statement consumed.
pub open spec fn sp_read_vars(ts: Seq<SpecToken>, pos: int, acc: Seq<Seq<char>>) -> (Seq<Seq<
    char,
>>, int)
    decreases ts.len() - pos,
{
    if 0 <= pos < ts.len() && ts[pos] == SpecToken::Separator(Separator::Comma) {
        if pos + 1 < ts.len() && (ts[pos + 1] matches SpecToken::Identifier(_)) {
            let id = ts[pos + 1]->Identifier_0;
            sp_read_vars(ts, pos + 2, acc.push(id))
        } else {
            (acc, pos + 1)
        }
    } else {
        (acc, pos)
    }
}

impl Parser {
    fn skip_semis(&self, pos: usize) -> (r: usize)
        requires
            self.wf(),
            pos <= self@.len(),
        ensures
            r == sp_skip_semis(self@, pos as int),
            pos <= r <= self@.len(),
    {
        let mut i = pos;
        while i < self.toks.len() && matches!(&self.toks[i], Token::Separator(Separator::Semicolon))
            invariant
                pos <= i <= self@.len(),
                self@.len() == self.toks@.len(),
                sp_skip_semis(self@, pos as int) == sp_skip_semis(self@, i as int),
            decreases self@.len() - i,
        {
            proof {
                assert(self@[i as int] == self.toks@[i as int]@);
            }
            i = i + 1;
        }
        proof {
            if i < self.toks@.len() {
                assert(self@[i as int] == self.toks@[i as int]@);
            }
        }
        i
    }
}


/// The expression layer: a primary with its postfix chain, then ranked
/// operators folded left-associatively by precedence climbing.
///
/// Each function returns the tree it built and the position just past what
/// it consumed; `None` stands for a fault. `sp_read_binary_tree` returns a
/// third component: an operator it declined to consume because its
/// precedence fell below the caller's threshold.
pub open spec fn sp_read_btree_expression(ts: Seq<SpecToken>, pos: int) -> Option<(SpecExpr, int)>
    decreases ts.len() - pos, 0int,
{
    if pos < 0 || pos >= ts.len() {
        None
    } else {
        match ts[pos] {
            SpecToken::Separator(Separator::ParenLeft) => {
                match sp_read_binary_tree(ts, pos + 1, false, 0) {
                    None => None,
                    Some((e, p, trailing)) => {
                        if p < ts.len() && ts[p] == SpecToken::Separator(Separator::ParenRight) {
                            if trailing is Some {
                                None
                            } else if p + 1 > pos && p + 1 <= ts.len() {
                                sp_postfix(ts, p + 1, e)
                            } else {
                                None
                            }
                        } else {
                            None
                        }
                    },
                }
            },
            SpecToken::Operator(op) => {
                if op == Operator::Add || op == Operator::Subtract || op == Operator::Not || op
                    == Operator::Complement {
                    match sp_read_btree_expression(ts, pos + 1) {
                        None => None,
                        Some((child, p)) => {
                            let node = SpecExpr::Unary(op, Box::new(child));
                            if p > pos && p <= ts.len() {
                                sp_postfix(ts, p, node)
                            } else {
                                None
                            }
                        },
                    }
                } else {
                    None
                }
            },
            SpecToken::Identifier(id) => {
                if pos + 1 < ts.len() && ts[pos + 1] == SpecToken::Separator(Separator::ParenLeft) {
                    match sp_read_function_call(ts, pos + 1, id) {
                        None => None,
                        Some((e, p)) => {
                            if p > pos && p <= ts.len() {
                                sp_postfix(ts, p, e)
                            } else {
                                None
                            }
                        },
                    }
                } else {
                    sp_postfix(ts, pos + 1, SpecExpr::LiteralIdentifier(id))
                }
            },
            SpecToken::Real(t) => sp_postfix(ts, pos + 1, SpecExpr::LiteralReal(t)),
            SpecToken::Str(t) => sp_postfix(ts, pos + 1, SpecExpr::LiteralString(t)),
            _ => None,
        }
    }
}

/// Attaches `[...]` index groups and `.name` accesses to a just-built atom.
pub open spec fn sp_postfix(ts: Seq<SpecToken>, pos: int, lhs: SpecExpr) -> Option<(SpecExpr, int)>
    decreases ts.len() - pos, 0int,
{
    if pos < 0 {
        None
    } else if pos >= ts.len() {
        Some((lhs, pos))
    } else if ts[pos] == SpecToken::Separator(Separator::BracketLeft) {
        if pos + 1 < ts.len() && ts[pos + 1] == SpecToken::Separator(Separator::BracketRight) {
            let node = SpecExpr::Binary(
                Operator::Index,
                Box::new(lhs),
                Box::new(SpecExpr::Group(Seq::empty())),
            );
            sp_postfix(ts, pos + 2, node)
        } else {
            match sp_read_dims(ts, pos + 1, Seq::empty()) {
                None => None,
                Some((ds, p)) => {
                    let node = SpecExpr::Binary(
                        Operator::Index,
                        Box::new(lhs),
                        Box::new(SpecExpr::Group(ds)),
                    );
                    if p > pos && p <= ts.len() {
                        sp_postfix(ts, p, node)
                    } else {
                        None
                    }
                },
            }
        }
    } else if ts[pos] == SpecToken::Separator(Separator::Period) {
        if pos + 1 < ts.len() && (ts[pos + 1] matches SpecToken::Identifier(_)) {
            let node = SpecExpr::Binary(
                Operator::Deref,
                Box::new(lhs),
                Box::new(SpecExpr::LiteralIdentifier(ts[pos + 1]->Identifier_0)),
            );
            sp_postfix(ts, pos + 2, node)
        } else {
            None
        }
    } else {
        Some((lhs, pos))
    }
}

/// The comma-separated dimension expressions of an index group, a trailing
/// comma permitted. The list is not bounded: the reader accepts any number
/// of dimensions (and `[]` gives zero), although only one- and
/// two-dimensional accesses are meaningful downstream.
pub open spec fn sp_read_dims(ts: Seq<SpecToken>, pos: int, acc: Seq<SpecExpr>) -> Option<(Seq<
    SpecExpr,
>, int)>
    decreases ts.len() - pos, 2int,
{
    match sp_read_binary_tree(ts, pos, false, 0) {
        None => None,
        Some((d, p, trailing)) => {
            if trailing is Some {
                None
            } else {
                let acc2 = acc.push(d);
                if 0 <= p < ts.len() {
                    if ts[p] == SpecToken::Separator(Separator::BracketRight) {
                        Some((acc2, p + 1))
                    } else if ts[p] == SpecToken::Separator(Separator::Comma) {
                        if p + 1 < ts.len() && ts[p + 1] == SpecToken::Separator(
                            Separator::BracketRight,
                        ) {
                            Some((acc2, p + 2))
                        } else if p + 1 > pos {
                            sp_read_dims(ts, p + 1, acc2)
                        } else {
                            None
                        }
                    } else {
                        None
                    }
                } else {
                    None
                }
            }
        },
    }
}

/// A call's parameter list after the opening parenthesis, a trailing comma
/// permitted.
pub open spec fn sp_read_params(ts: Seq<SpecToken>, pos: int, acc: Seq<SpecExpr>) -> Option<(Seq<
    SpecExpr,
>, int)>
    decreases ts.len() - pos, 2int,
{
    match sp_read_binary_tree(ts, pos, false, 0) {
        None => None,
        Some((d, p, trailing)) => {
            if trailing is Some {
                None
            } else {
                let acc2 = acc.push(d);
                if 0 <= p < ts.len() {
                    if ts[p] == SpecToken::Separator(Separator::ParenRight) {
                        Some((acc2, p + 1))
                    } else if ts[p] == SpecToken::Separator(Separator::Comma) {
                        if p + 1 < ts.len() && ts[p + 1] == SpecToken::Separator(
                            Separator::ParenRight,
                        ) {
                            Some((acc2, p + 2))
                        } else if p + 1 > pos {
                            sp_read_params(ts, p + 1, acc2)
                        } else {
                            None
                        }
                    } else {
                        None
                    }
                } else {
                    None
                }
            }
        },
    }
}

/// A function call: `pos` stands on the opening parenthesis.
pub open spec fn sp_read_function_call(ts: Seq<SpecToken>, pos: int, name: Seq<char>) -> Option<(
    SpecExpr,
    int,
)>
    decreases ts.len() - pos, 0int,
{
    if 0 <= pos < ts.len() && ts[pos] == SpecToken::Separator(Separator::ParenLeft) {
        if pos + 1 < ts.len() && ts[pos + 1] == SpecToken::Separator(Separator::ParenRight) {
            Some((SpecExpr::Function(name, Seq::empty()), pos + 2))
        } else {
            match sp_read_params(ts, pos + 1, Seq::empty()) {
                None => None,
                Some((ps, p)) => Some((SpecExpr::Function(name, ps), p)),
            }
        }
    } else {
        None
    }
}

/// A full expression: a primary, then ranked operators folded while their
/// precedence stays at or above `lowest_prec`. With `expect_assignment` the
/// one operator read must be an assignment; without it a bare `=` is read
/// as equality.
pub open spec fn sp_read_binary_tree(
    ts: Seq<SpecToken>,
    pos: int,
    expect_assignment: bool,
    lowest_prec: u8,
) -> Option<(SpecExpr, int, Option<Operator>)>
    decreases ts.len() - pos, 1int,
{
    match sp_read_btree_expression(ts, pos) {
        None => None,
        Some((lhs, p)) => {
            if p < ts.len() && (ts[p] matches SpecToken::Operator(_)) {
                let op0 = ts[p]->Operator_0;
                let op = if op0 == Operator::Assign && !expect_assignment {
                    Operator::Equal
                } else {
                    op0
                };
                if p + 1 > pos && p + 1 <= ts.len() {
                    sp_fold(ts, p + 1, lhs, op, expect_assignment, lowest_prec)
                } else {
                    None
                }
            } else {
                if expect_assignment {
                    None
                } else {
                    Some((lhs, p, None))
                }
            }
        },
    }
}

/// The operator-folding loop of precedence climbing, one recursive step per
/// consumed operator. `pos` stands just past `op`.
pub open spec fn sp_fold(
    ts: Seq<SpecToken>,
    pos: int,
    lhs: SpecExpr,
    op: Operator,
    expect_assignment: bool,
    lowest_prec: u8,
) -> Option<(SpecExpr, int, Option<Operator>)>
    decreases ts.len() - pos, 2int,
{
    match spec_op_precedence(op) {
        Some(prec) => {
            if expect_assignment {
                None
            } else if prec < lowest_prec {
                Some((lhs, pos, Some(op)))
            } else {
                match sp_read_binary_tree(ts, pos, false, (prec + 1) as u8) {
                    None => None,
                    Some((rhs, p, Some(next_op))) => {
                        let node = SpecExpr::Binary(op, Box::new(lhs), Box::new(rhs));
                        match spec_op_precedence(next_op) {
                            Some(next_prec) => {
                                if next_prec < lowest_prec {
                                    Some((node, p, Some(next_op)))
                                } else if p > pos && p <= ts.len() {
                                    sp_fold(ts, p, node, next_op, false, lowest_prec)
                                } else {
                                    None
                                }
                            },
                            None => None,
                        }
                    },
                    Some((rhs, p, None)) => Some(
                        (SpecExpr::Binary(op, Box::new(lhs), Box::new(rhs)), p, None),
                    ),
                }
            }
        },
        None => {
            if !expect_assignment || op == Operator::Not || op == Operator::Complement {
                None
            } else {
                match sp_read_binary_tree(ts, pos, false, lowest_prec) {
                    None => None,
                    Some((rhs, p, Some(_))) => None,
                    Some((rhs, p, None)) => Some(
                        (SpecExpr::Binary(op, Box::new(lhs), Box::new(rhs)), p, None),
                    ),
                }
            }
        },
    }
}


impl Parser {
    /// One atom with its postfix chain.
    fn read_btree_expression(&self, pos: usize) -> (r: Result<(Expr, usize), Error>)
        requires
            self.wf(),
            pos <= self@.len(),
        ensures
            match sp_read_btree_expression(self@, pos as int) {
                Some((e, p)) => r matches Ok(x) && x.0@ == e && x.1 == p && pos < p <= self@.len(),
                None => r is Err,
            },
        decreases self@.len() - pos, 0int,
    {
        proof {
            assert(self@.len() == self.toks@.len());
        }
        if pos >= self.toks.len() {
            return Err(err_line("unexpected end of input in an expression", self.line_at(pos)));
        }
        proof {
            assert(self@[pos as int] == self.toks@[pos as int]@);
        }
        let first: (Expr, usize) = match &self.toks[pos] {
            Token::Separator(Separator::ParenLeft) => {
                match self.read_binary_tree(pos + 1, false, 0) {
                    Err(e) => {
                        return Err(e);
                    },
                    Ok((e, p, trailing)) => {
                        proof {
                            if p < self.toks@.len() {
                                assert(self@[p as int] == self.toks@[p as int]@);
                            }
                        }
                        if p < self.toks.len() && matches!(&self.toks[p], Token::Separator(
                            Separator::ParenRight,
                        )) {
                            if trailing.is_some() {
                                return Err(err_line(
                                    "stray operator in expression",
                                    self.line_at(p),
                                ));
                            }
                            (e, p + 1)
                        } else {
                            return Err(err_line(
                                "unclosed parenthesis in expression",
                                self.line_at(p),
                            ));
                        }
                    },
                }
            },
            Token::Operator(o) => {
                let op = *o;
                if op == Operator::Add || op == Operator::Subtract || op == Operator::Not || op
                    == Operator::Complement {
                    match self.read_btree_expression(pos + 1) {
                        Err(e) => {
                            return Err(e);
                        },
                        Ok((child, p)) => {
                            (Expr::Unary(Box::new(UnaryExpr { op, child })), p)
                        },
                    }
                } else {
                    return Err(err_line("invalid unary operator in expression", self.line_at(pos)));
                }
            },
            Token::Identifier(id) => {
                let name = String::from_str(id.as_str());
                proof {
                    if pos + 1 < self.toks@.len() {
                        assert(self@[pos as int + 1] == self.toks@[pos as int + 1]@);
                    }
                }
                if pos + 1 < self.toks.len() && matches!(&self.toks[pos + 1], Token::Separator(
                    Separator::ParenLeft,
                )) {
                    match self.read_function_call(pos + 1, name) {
                        Err(e) => {
                            return Err(e);
                        },
                        Ok((e, p)) => (e, p),
                    }
                } else {
                    (Expr::LiteralIdentifier(name), pos + 1)
                }
            },
            Token::Real(t) => (Expr::LiteralReal(String::from_str(t.as_str())), pos + 1),
            Token::Str(t) => (Expr::LiteralString(String::from_str(t.as_str())), pos + 1),
            _ => {
                return Err(err_line(
                    "invalid token while scanning an expression",
                    self.line_at(pos),
                ));
            },
        };
        let (lhs, cur) = first;
        self.postfix(cur, lhs)
    }

    /// The postfix loop: attaches index groups and member accesses.
    #[verifier::rlimit(60)]
    fn postfix(&self, pos: usize, lhs: Expr) -> (r: Result<(Expr, usize), Error>)
        requires
            self.wf(),
            pos <= self@.len(),
        ensures
            match sp_postfix(self@, pos as int, lhs@) {
                Some((e, p)) => r matches Ok(x) && x.0@ == e && x.1 == p && pos <= p <= self@.len(),
                None => r is Err,
            },
        decreases self@.len() - pos, 0int,
    {
        proof {
            assert(self@.len() == self.toks@.len());
            if pos < self.toks@.len() {
                assert(self@[pos as int] == self.toks@[pos as int]@);
            }
            if pos + 1 < self.toks@.len() {
                assert(self@[pos as int + 1] == self.toks@[pos as int + 1]@);
            }
        }
        if pos >= self.toks.len() {
            return Ok((lhs, pos));
        }
        if matches!(&self.toks[pos], Token::Separator(Separator::BracketLeft)) {
            if pos + 1 < self.toks.len() && matches!(&self.toks[pos + 1], Token::Separator(
                Separator::BracketRight,
            )) {
                let empty_group = Expr::Group(Vec::new());
                proof {
                    assert(exprs_view(Seq::<Expr>::empty()) =~= Seq::<SpecExpr>::empty());
                    assert(empty_group@ == SpecExpr::Group(Seq::empty()));
                }
                let node = Expr::Binary(Box::new(BinaryExpr {
                    op: Operator::Index,
                    left: lhs,
                    right: empty_group,
                }));
                self.postfix(pos + 2, node)
            } else {
                match self.read_dims(pos + 1, Vec::new()) {
                    Err(e) => Err(e),
                    Ok((ds, p)) => {
                        proof {
                            assert(exprs_view(Seq::<Expr>::empty()) =~= Seq::<SpecExpr>::empty());
                        }
                        let group = Expr::Group(ds);
                        proof {
                            assert(group@ == SpecExpr::Group(exprs_view(group->Group_0@)));
                        }
                        let node = Expr::Binary(Box::new(BinaryExpr {
                            op: Operator::Index,
                            left: lhs,
                            right: group,
                        }));
                        self.postfix(p, node)
                    },
                }
            }
        } else if matches!(&self.toks[pos], Token::Separator(Separator::Period)) {
            if pos + 1 < self.toks.len() {
                match &self.toks[pos + 1] {
                    Token::Identifier(id) => {
                        let right = Expr::LiteralIdentifier(String::from_str(id.as_str()));
                        proof {
                            assert(right@ == SpecExpr::LiteralIdentifier(
                                self@[pos as int + 1]->Identifier_0,
                            ));
                        }
                        let node = Expr::Binary(Box::new(BinaryExpr {
                            op: Operator::Deref,
                            left: lhs,
                            right,
                        }));
                        self.postfix(pos + 2, node)
                    },
                    _ => Err(err_line(
                        "expected an identifier after the member access",
                        self.line_at(pos + 1),
                    )),
                }
            } else {
                Err(err_line("unexpected end of input after the member access", self.line_at(pos)))
            }
        } else {
            Ok((lhs, pos))
        }
    }

    /// The dimension list of an index group.
    fn read_dims(&self, pos: usize, acc: Vec<Expr>) -> (r: Result<(Vec<Expr>, usize), Error>)
        requires
            self.wf(),
            pos <= self@.len(),
        ensures
            match sp_read_dims(self@, pos as int, exprs_view(acc@)) {
                Some((ds, p)) => r matches Ok(x) && exprs_view(x.0@) == ds && x.1 == p && pos < p
                    <= self@.len(),
                None => r is Err,
            },
        decreases self@.len() - pos, 2int,
    {
        proof {
            assert(self@.len() == self.toks@.len());
        }
        match self.read_binary_tree(pos, false, 0) {
            Err(e) => Err(e),
            Ok((d, p, trailing)) => {
                if trailing.is_some() {
                    return Err(err_line("stray operator in an index group", self.line_at(p)));
                }
                let ghost old_acc = acc@;
                let mut acc2 = acc;
                acc2.push(d);
                proof {
                    assert(old_acc.push(d) =~= acc2@);
                    assert(acc2@.drop_last() =~= old_acc);
                    assert(exprs_view(acc2@) == exprs_view(old_acc).push(d@));
                }
                proof {
                    if p < self.toks@.len() {
                        assert(self@[p as int] == self.toks@[p as int]@);
                    }
                    if p + 1 < self.toks@.len() {
                        assert(self@[p as int + 1] == self.toks@[p as int + 1]@);
                    }
                }
                if p >= self.toks.len() {
                    return Err(err_line(
                        "unexpected end of input in an index group",
                        self.line_at(p),
                    ));
                }
                if matches!(&self.toks[p], Token::Separator(Separator::BracketRight)) {
                    Ok((acc2, p + 1))
                } else if matches!(&self.toks[p], Token::Separator(Separator::Comma)) {
                    if p + 1 < self.toks.len() && matches!(&self.toks[p + 1], Token::Separator(
                        Separator::BracketRight,
                    )) {
                        Ok((acc2, p + 2))
                    } else {
                        self.read_dims(p + 1, acc2)
                    }
                } else {
                    Err(err_line("invalid token in an index group", self.line_at(p)))
                }
            },
        }
    }

    /// The parameter list of a call.
    fn read_params(&self, pos: usize, acc: Vec<Expr>) -> (r: Result<(Vec<Expr>, usize), Error>)
        requires
            self.wf(),
            pos <= self@.len(),
        ensures
            match sp_read_params(self@, pos as int, exprs_view(acc@)) {
                Some((ds, p)) => r matches Ok(x) && exprs_view(x.0@) == ds && x.1 == p && pos < p
                    <= self@.len(),
                None => r is Err,
            },
        decreases self@.len() - pos, 2int,
    {
        proof {
            assert(self@.len() == self.toks@.len());
        }
        match self.read_binary_tree(pos, false, 0) {
            Err(e) => Err(e),
            Ok((d, p, trailing)) => {
                if trailing.is_some() {
                    return Err(err_line("stray operator in a parameter list", self.line_at(p)));
                }
                let ghost old_acc = acc@;
                let mut acc2 = acc;
                acc2.push(d);
                proof {
                    assert(old_acc.push(d) =~= acc2@);
                    assert(acc2@.drop_last() =~= old_acc);
                    assert(exprs_view(acc2@) == exprs_view(old_acc).push(d@));
                }
                proof {
                    if p < self.toks@.len() {
                        assert(self@[p as int] == self.toks@[p as int]@);
                    }
                    if p + 1 < self.toks@.len() {
                        assert(self@[p as int + 1] == self.toks@[p as int + 1]@);
                    }
                }
                if p >= self.toks.len() {
                    return Err(err_line(
                        "unexpected end of input in a parameter list",
                        self.line_at(p),
                    ));
                }
                if matches!(&self.toks[p], Token::Separator(Separator::ParenRight)) {
                    Ok((acc2, p + 1))
                } else if matches!(&self.toks[p], Token::Separator(Separator::Comma)) {
                    if p + 1 < self.toks.len() && matches!(&self.toks[p + 1], Token::Separator(
                        Separator::ParenRight,
                    )) {
                        Ok((acc2, p + 2))
                    } else {
                        self.read_params(p + 1, acc2)
                    }
                } else {
                    Err(err_line("invalid token in a parameter list", self.line_at(p)))
                }
            },
        }
    }

    /// A call of `name`; `pos` stands on the opening parenthesis.
    fn read_function_call(&self, pos: usize, name: String) -> (r: Result<(Expr, usize), Error>)
        requires
            self.wf(),
            pos <= self@.len(),
        ensures
            match sp_read_function_call(self@, pos as int, name@) {
                Some((e, p)) => r matches Ok(x) && x.0@ == e && x.1 == p && pos < p <= self@.len(),
                None => r is Err,
            },
        decreases self@.len() - pos, 0int,
    {
        proof {
            assert(self@.len() == self.toks@.len());
            if pos < self.toks@.len() {
                assert(self@[pos as int] == self.toks@[pos as int]@);
            }
            if pos + 1 < self.toks@.len() {
                assert(self@[pos as int + 1] == self.toks@[pos as int + 1]@);
            }
        }
        if pos >= self.toks.len() || !matches!(&self.toks[pos], Token::Separator(
            Separator::ParenLeft,
        )) {
            return Err(err_line("expected an opening parenthesis", self.line_at(pos)));
        }
        if pos + 1 < self.toks.len() && matches!(&self.toks[pos + 1], Token::Separator(
            Separator::ParenRight,
        )) {
            proof {
                assert(exprs_view(Seq::<Expr>::empty()) =~= Seq::<SpecExpr>::empty());
            }
            Ok((Expr::Function(Box::new(FunctionExpr { name, params: Vec::new() })), pos + 2))
        } else {
            proof {
                assert(exprs_view(Seq::<Expr>::empty()) =~= Seq::<SpecExpr>::empty());
            }
            match self.read_params(pos + 1, Vec::new()) {
                Err(e) => Err(e),
                Ok((ps, p)) => Ok(
                    (Expr::Function(Box::new(FunctionExpr { name, params: ps })), p),
                ),
            }
        }
    }

    /// A full expression by precedence climbing.
    fn read_binary_tree(&self, pos: usize, expect_assignment: bool, lowest_prec: u8) -> (r: Result<
        (Expr, usize, Option<Operator>),
        Error,
    >)
        requires
            self.wf(),
            pos <= self@.len(),
        ensures
            match sp_read_binary_tree(self@, pos as int, expect_assignment, lowest_prec) {
                Some((e, p, t)) => r matches Ok(x) && x.0@ == e && x.1 == p && x.2 == t && pos < p
                    <= self@.len(),
                None => r is Err,
            },
        decreases self@.len() - pos, 1int,
    {
        proof {
            assert(self@.len() == self.toks@.len());
        }
        let (lhs, p) = match self.read_btree_expression(pos) {
            Err(e) => {
                return Err(e);
            },
            Ok(x) => x,
        };
        proof {
            if p < self.toks@.len() {
                assert(self@[p as int] == self.toks@[p as int]@);
            }
        }
        if p >= self.toks.len() {
            if expect_assignment {
                return Err(err_line("expected an assignment operator", self.line_at(p)));
            }
            return Ok((lhs, p, None));
        }
        match &self.toks[p] {
            Token::Operator(o) => {
                let op0 = *o;
                let op = if op0 == Operator::Assign && !expect_assignment {
                    Operator::Equal
                } else {
                    op0
                };
                self.fold_ops(p + 1, lhs, op, expect_assignment, lowest_prec)
            },
            _ => {
                if expect_assignment {
                    Err(err_line("expected an assignment operator", self.line_at(p)))
                } else {
                    Ok((lhs, p, None))
                }
            },
        }
    }

    /// The operator-folding loop; `pos` stands just past `op`.
    fn fold_ops(
        &self,
        pos: usize,
        lhs: Expr,
        op: Operator,
        expect_assignment: bool,
        lowest_prec: u8,
    ) -> (r: Result<(Expr, usize, Option<Operator>), Error>)
        requires
            self.wf(),
            pos <= self@.len(),
        ensures
            match sp_fold(self@, pos as int, lhs@, op, expect_assignment, lowest_prec) {
                Some((e, p, t)) => r matches Ok(x) && x.0@ == e && x.1 == p && x.2 == t && pos <= p
                    <= self@.len(),
                None => r is Err,
            },
        decreases self@.len() - pos, 2int,
    {
        proof {
            assert(self@.len() == self.toks@.len());
        }
        match op_precedence(op) {
            Some(prec) => {
                if expect_assignment {
                    return Err(err_line(
                        "found a ranked operator where an assignment was required",
                        self.line_at(pos),
                    ));
                }
                if prec < lowest_prec {
                    return Ok((lhs, pos, Some(op)));
                }
                match self.read_binary_tree(pos, false, prec + 1) {
                    Err(e) => Err(e),
                    Ok((rhs, p, tr)) => match tr {
                        Some(next_op) => match op_precedence(next_op) {
                            Some(next_prec) => {
                                let node = Expr::Binary(Box::new(BinaryExpr {
                                    op,
                                    left: lhs,
                                    right: rhs,
                                }));
                                if next_prec < lowest_prec {
                                    Ok((node, p, Some(next_op)))
                                } else {
                                    self.fold_ops(p, node, next_op, false, lowest_prec)
                                }
                            },
                            None => Err(err_line("stray operator in expression", self.line_at(p))),
                        },
                        None => Ok(
                            (
                                Expr::Binary(Box::new(BinaryExpr { op, left: lhs, right: rhs })),
                                p,
                                None,
                            ),
                        ),
                    },
                }
            },
            None => {
                if !expect_assignment || op == Operator::Not || op == Operator::Complement {
                    Err(err_line("invalid operator in expression", self.line_at(pos)))
                } else {
                    match self.read_binary_tree(pos, false, lowest_prec) {
                        Err(e) => Err(e),
                        Ok((rhs, p, tr)) => {
                            if tr.is_some() {
                                Err(err_line("stray operator in expression", self.line_at(p)))
                            } else {
                                Ok(
                                    (
                                        Expr::Binary(
                                            Box::new(BinaryExpr { op, left: lhs, right: rhs }),
                                        ),
                                        p,
                                        None,
                                    ),
                                )
                            }
                        },
                    }
                }
            },
        }
    }
}


/// The statement layer. `pos` stands just past the statement's leading
/// keyword in each `sp_stmt_*` function.
pub open spec fn sp_stmt_do(ts: Seq<SpecToken>, pos: int) -> Option<(SpecExpr, int)>
    decreases ts.len() - pos, 4int,
{
    match sp_read_line(ts, pos) {
        None => None,
        Some((body, p)) => {
            if p < ts.len() && ts[p] == SpecToken::Keyword(Keyword::Until) {
                if p + 1 > pos && p + 1 <= ts.len() {
                    match sp_read_binary_tree(ts, p + 1, false, 0) {
                        None => None,
                        Some((cond, q, Some(_))) => None,
                        Some((cond, q, None)) => Some(
                            (SpecExpr::DoUntil(Box::new(cond), Box::new(body)), q),
                        ),
                    }
                } else {
                    None
                }
            } else {
                None
            }
        },
    }
}

pub open spec fn sp_stmt_if(ts: Seq<SpecToken>, pos: int) -> Option<(SpecExpr, int)>
    decreases ts.len() - pos, 4int,
{
    match sp_read_binary_tree(ts, pos, false, 0) {
        None => None,
        Some((cond, p0, Some(_))) => None,
        Some((cond, p0, None)) => {
            let p1 = if p0 < ts.len() && ts[p0] == SpecToken::Separator(Separator::Then) {
                p0 + 1
            } else {
                p0
            };
            if pos <= p1 <= ts.len() {
                match sp_read_line(ts, p1) {
                    None => None,
                    Some((body, p2)) => {
                        if p2 < ts.len() && ts[p2] == SpecToken::Keyword(Keyword::Else) {
                            if pos <= p2 + 1 <= ts.len() {
                                match sp_read_line(ts, p2 + 1) {
                                    None => None,
                                    Some((eb, p3)) => Some(
                                        (
                                            SpecExpr::If(
                                                Box::new(cond),
                                                Box::new(body),
                                                Some(Box::new(eb)),
                                            ),
                                            p3,
                                        ),
                                    ),
                                }
                            } else {
                                None
                            }
                        } else {
                            Some((SpecExpr::If(Box::new(cond), Box::new(body), None), p2))
                        }
                    },
                }
            } else {
                None
            }
        },
    }
}

pub open spec fn sp_stmt_for(ts: Seq<SpecToken>, pos: int) -> Option<(SpecExpr, int)>
    decreases ts.len() - pos, 4int,
{
    if 0 <= pos < ts.len() && ts[pos] == SpecToken::Separator(Separator::ParenLeft) {
        match sp_read_line(ts, pos + 1) {
            None => None,
            Some((start, p0)) => {
                let p1 = if p0 < ts.len() && ts[p0] == SpecToken::Separator(Separator::Semicolon) {
                    p0 + 1
                } else {
                    p0
                };
                if pos <= p1 <= ts.len() {
                    match sp_read_binary_tree(ts, p1, false, 0) {
                        None => None,
                        Some((cond, p2, Some(_))) => None,
                        Some((cond, p2, None)) => {
                            let p3 = if p2 < ts.len() && ts[p2] == SpecToken::Separator(
                                Separator::Semicolon,
                            ) {
                                p2 + 1
                            } else {
                                p2
                            };
                            if pos <= p3 <= ts.len() {
                                match sp_read_line(ts, p3) {
                                    None => None,
                                    Some((step, p4)) => {
                                        let p5 = sp_skip_semis(ts, p4);
                                        if p5 < ts.len() && ts[p5] == SpecToken::Separator(
                                            Separator::ParenRight,
                                        ) {
                                            if pos <= p5 + 1 <= ts.len() {
                                                match sp_read_line(ts, p5 + 1) {
                                                    None => None,
                                                    Some((body, p6)) => Some(
                                                        (
                                                            SpecExpr::For(
                                                                Box::new(start),
                                                                Box::new(cond),
                                                                Box::new(step),
                                                                Box::new(body),
                                                            ),
                                                            p6,
                                                        ),
                                                    ),
                                                }
                                            } else {
                                                None
                                            }
                                        } else {
                                            None
                                        }
                                    },
                                }
                            } else {
                                None
                            }
                        },
                    }
                } else {
                    None
                }
            },
        }
    } else {
        None
    }
}

/// `repeat`, `switch`, `with` and `while`: one expression, then one body.
pub open spec fn sp_stmt_headed(ts: Seq<SpecToken>, pos: int, kw: Keyword) -> Option<(
    SpecExpr,
    int,
)>
    decreases ts.len() - pos, 4int,
{
    match sp_read_binary_tree(ts, pos, false, 0) {
        None => None,
        Some((e, p, Some(_))) => None,
        Some((e, p, None)) => {
            if pos <= p <= ts.len() {
                match sp_read_line(ts, p) {
                    None => None,
                    Some((body, q)) => {
                        let node = match kw {
                            Keyword::Repeat => SpecExpr::Repeat(Box::new(e), Box::new(body)),
                            Keyword::Switch => SpecExpr::Switch(Box::new(e), Box::new(body)),
                            Keyword::With => SpecExpr::With(Box::new(e), Box::new(body)),
                            _ => SpecExpr::While(Box::new(e), Box::new(body)),
                        };
                        Some((node, q))
                    },
                }
            } else {
                None
            }
        },
    }
}

pub open spec fn sp_stmt_case(ts: Seq<SpecToken>, pos: int) -> Option<(SpecExpr, int)>
    decreases ts.len() - pos, 4int,
{
    match sp_read_binary_tree(ts, pos, false, 0) {
        None => None,
        Some((e, p, Some(_))) => None,
        Some((e, p, None)) => {
            if p < ts.len() && ts[p] == SpecToken::Separator(Separator::Colon) {
                Some((SpecExpr::Case(Box::new(e)), p + 1))
            } else {
                None
            }
        },
    }
}

pub open spec fn sp_stmt_return(ts: Seq<SpecToken>, pos: int) -> Option<(SpecExpr, int)>
    decreases ts.len() - pos, 4int,
{
    match sp_read_binary_tree(ts, pos, false, 0) {
        None => None,
        Some((e, p, Some(_))) => None,
        Some((e, p, None)) => Some((SpecExpr::Return(Box::new(e)), p)),
    }
}

/// One full statement starting at `pos`; `None` at the end of input and on
/// every fault.
pub open spec fn sp_read_line(ts: Seq<SpecToken>, pos: int) -> Option<(SpecExpr, int)>
    decreases ts.len() - pos, 3int,
{
    if pos < 0 || pos >= ts.len() {
        None
    } else {
        match ts[pos] {
            SpecToken::Keyword(k) => match k {
                Keyword::Var => {
                    if pos + 1 < ts.len() && (ts[pos + 1] matches SpecToken::Identifier(_)) {
                        let first = ts[pos + 1]->Identifier_0;
                        let r = sp_read_vars(ts, pos + 2, seq![first]);
                        Some((SpecExpr::Var(r.0), r.1))
                    } else {
                        Some((SpecExpr::Var(Seq::empty()), pos + 1))
                    }
                },
                Keyword::Do => sp_stmt_do(ts, pos + 1),
                Keyword::If => sp_stmt_if(ts, pos + 1),
                Keyword::For => sp_stmt_for(ts, pos + 1),
                Keyword::Repeat => sp_stmt_headed(ts, pos + 1, k),
                Keyword::Switch => sp_stmt_headed(ts, pos + 1, k),
                Keyword::With => sp_stmt_headed(ts, pos + 1, k),
                Keyword::While => sp_stmt_headed(ts, pos + 1, k),
                Keyword::Case => sp_stmt_case(ts, pos + 1),
                Keyword::Default => {
                    if pos + 1 < ts.len() && ts[pos + 1] == SpecToken::Separator(Separator::Colon) {
                        Some((SpecExpr::Default, pos + 2))
                    } else {
                        None
                    }
                },
                Keyword::Break => Some((SpecExpr::Break, pos + 1)),
                Keyword::Continue => Some((SpecExpr::Continue, pos + 1)),
                Keyword::Exit => Some((SpecExpr::Exit, pos + 1)),
                Keyword::Return => sp_stmt_return(ts, pos + 1),
                _ => None,
            },
            SpecToken::Identifier(id) => {
                if pos + 1 >= ts.len() {
                    None
                } else if ts[pos + 1] == SpecToken::Separator(Separator::ParenLeft) {
                    sp_read_function_call(ts, pos + 1, id)
                } else {
                    match sp_read_binary_tree(ts, pos, true, 0) {
                        None => None,
                        Some((e, p, Some(_))) => None,
                        Some((e, p, None)) => Some((e, p)),
                    }
                }
            },
            SpecToken::Separator(Separator::BraceLeft) => sp_read_group(ts, pos + 1, Seq::empty()),
            SpecToken::Separator(Separator::ParenLeft) => {
                match sp_read_binary_tree(ts, pos, true, 0) {
                    None => None,
                    Some((e, p, Some(_))) => None,
                    Some((e, p, None)) => Some((e, p)),
                }
            },
            SpecToken::Separator(Separator::Semicolon) => Some((SpecExpr::Nop, pos + 1)),
            _ => None,
        }
    }
}

/// A brace group: statements until the closing brace, empty statements
/// discarded.
pub open spec fn sp_read_group(ts: Seq<SpecToken>, pos: int, acc: Seq<SpecExpr>) -> Option<(
    SpecExpr,
    int,
)>
    decreases ts.len() - pos, 5int,
{
    if pos < 0 || pos >= ts.len() {
        None
    } else if ts[pos] == SpecToken::Separator(Separator::BraceRight) {
        Some((SpecExpr::Group(acc), pos + 1))
    } else {
        match sp_read_line(ts, pos) {
            None => None,
            Some((e, p)) => {
                if p > pos && p <= ts.len() {
                    if e == SpecExpr::Nop {
                        sp_read_group(ts, p, acc)
                    } else {
                        sp_read_group(ts, p, acc.push(e))
                    }
                } else {
                    None
                }
            },
        }
    }
}

/// The whole program: statements to the end of input, empty statements
/// discarded.
pub open spec fn sp_program(ts: Seq<SpecToken>, pos: int) -> Option<Seq<SpecExpr>>
    decreases ts.len() - pos, 5int,
{
    if pos >= ts.len() {
        Some(Seq::empty())
    } else {
        match sp_read_line(ts, pos) {
            None => None,
            Some((e, p)) => {
                if p > pos && p <= ts.len() {
                    match sp_program(ts, p) {
                        None => None,
                        Some(rest) => if e == SpecExpr::Nop {
                            Some(rest)
                        } else {
                            Some(seq![e] + rest)
                        },
                    }
                } else {
                    None
                }
            },
        }
    }
}

/// What parsing a source string yields: the token stream's program, or
/// nothing on any lexical or syntactic fault.
pub open spec fn sp_parse(s: Seq<char>) -> Option<Seq<SpecExpr>> {
    match crate::lexer::sp_lex_from(s, 0) {
        Some(tv) => sp_program(tv, 0),
        None => None,
    }
}


impl Parser {
    /// Whether the token at `p` is the separator `sep`.
    fn sep_at(&self, p: usize, sep: Separator) -> (b: bool)
        requires
            self.wf(),
        ensures
            b <==> (p < self@.len() && self@[p as int] == SpecToken::Separator(sep)),
    {
        if p < self.toks.len() {
            proof {
                assert(self@[p as int] == self.toks@[p as int]@);
            }
            match &self.toks[p] {
                Token::Separator(s) => *s == sep,
                _ => false,
            }
        } else {
            false
        }
    }

    /// Whether the token at `p` is the keyword `kw`.
    fn kw_at(&self, p: usize, kw: Keyword) -> (b: bool)
        requires
            self.wf(),
        ensures
            b <==> (p < self@.len() && self@[p as int] == SpecToken::Keyword(kw)),
    {
        if p < self.toks.len() {
            proof {
                assert(self@[p as int] == self.toks@[p as int]@);
            }
            match &self.toks[p] {
                Token::Keyword(k) => *k == kw,
                _ => false,
            }
        } else {
            false
        }
    }

    /// The identifiers after the first name of a `var` statement.
    fn read_vars(&self, pos: usize, acc: Vec<String>) -> (r: (Vec<String>, usize))
        requires
            self.wf(),
            pos <= self@.len(),
        ensures
            ({
                let (names, p) = sp_read_vars(self@, pos as int, acc@.map_values(|t: String| t@));
                r.0@.map_values(|t: String| t@) == names && r.1 == p && pos <= p <= self@.len()
            }),
        decreases self@.len() - pos,
    {
        let n = self.toks.len();
        proof {
            assert(self@.len() == n);
        }
        if !self.sep_at(pos, Separator::Comma) {
            return (acc, pos);
        }
        proof {
            if pos + 1 < self.toks@.len() {
                assert(self@[pos as int + 1] == self.toks@[pos as int + 1]@);
            }
        }
        if pos + 1 < self.toks.len() {
            match &self.toks[pos + 1] {
                Token::Identifier(id) => {
                    let ghost old_acc = acc@;
                    let mut acc2 = acc;
                    acc2.push(String::from_str(id.as_str()));
                    proof {
                        assert(acc2@.map_values(|t: String| t@) =~= old_acc.map_values(
                            |t: String| t@,
                        ).push(id@));
                    }
                    self.read_vars(pos + 2, acc2)
                },
                _ => (acc, pos + 1),
            }
        } else {
            (acc, pos + 1)
        }
    }

    /// The tail of a `do` statement.
    fn stmt_do(&self, pos: usize) -> (r: Result<(Expr, usize), Error>)
        requires
            self.wf(),
            pos <= self@.len(),
        ensures
            match sp_stmt_do(self@, pos as int) {
                Some((e, p)) => r matches Ok(x) && x.0@ == e && x.1 == p && pos <= p <= self@.len(),
                None => r is Err,
            },
        decreases self@.len() - pos, 4int,
    {
        let n = self.toks.len();
        proof {
            assert(self@.len() == n);
        }
        let (body, p) = match self.read_line(pos) {
            Err(e) => {
                return Err(e);
            },
            Ok(x) => x,
        };
        if !self.kw_at(p, Keyword::Until) {
            return Err(err_line("expected the loop closer after the body", self.line_at(p)));
        }
        match self.read_binary_tree(p + 1, false, 0) {
            Err(e) => Err(e),
            Ok((cond, q, tr)) => {
                if tr.is_some() {
                    return Err(err_line("stray operator in expression", self.line_at(q)));
                }
                Ok((Expr::DoUntil(Box::new(DoUntilExpr { cond, body })), q))
            },
        }
    }

    /// The tail of an `if` statement.
    fn stmt_if(&self, pos: usize) -> (r: Result<(Expr, usize), Error>)
        requires
            self.wf(),
            pos <= self@.len(),
        ensures
            match sp_stmt_if(self@, pos as int) {
                Some((e, p)) => r matches Ok(x) && x.0@ == e && x.1 == p && pos <= p <= self@.len(),
                None => r is Err,
            },
        decreases self@.len() - pos, 4int,
    {
        let n = self.toks.len();
        proof {
            assert(self@.len() == n);
        }
        let (cond, p0, tr) = match self.read_binary_tree(pos, false, 0) {
            Err(e) => {
                return Err(e);
            },
            Ok(x) => x,
        };
        if tr.is_some() {
            return Err(err_line("stray operator in expression", self.line_at(p0)));
        }
        let p1 = if self.sep_at(p0, Separator::Then) {
            p0 + 1
        } else {
            p0
        };
        let (body, p2) = match self.read_line(p1) {
            Err(e) => {
                return Err(e);
            },
            Ok(x) => x,
        };
        if self.kw_at(p2, Keyword::Else) {
            match self.read_line(p2 + 1) {
                Err(e) => Err(e),
                Ok((eb, p3)) => Ok(
                    (Expr::If(Box::new(IfExpr { cond, body, else_body: Some(eb) })), p3),
                ),
            }
        } else {
            Ok((Expr::If(Box::new(IfExpr { cond, body, else_body: None })), p2))
        }
    }

    /// The tail of a `for` statement.
    fn stmt_for(&self, pos: usize) -> (r: Result<(Expr, usize), Error>)
        requires
            self.wf(),
            pos <= self@.len(),
        ensures
            match sp_stmt_for(self@, pos as int) {
                Some((e, p)) => r matches Ok(x) && x.0@ == e && x.1 == p && pos <= p <= self@.len(),
                None => r is Err,
            },
        decreases self@.len() - pos, 4int,
    {
        let n = self.toks.len();
        proof {
            assert(self@.len() == n);
        }
        if !self.sep_at(pos, Separator::ParenLeft) {
            return Err(err_line("expected a parenthesis after the loop keyword", self.line_at(pos)));
        }
        let (start, p0) = match self.read_line(pos + 1) {
            Err(e) => {
                return Err(e);
            },
            Ok(x) => x,
        };
        let p1 = if self.sep_at(p0, Separator::Semicolon) {
            p0 + 1
        } else {
            p0
        };
        let (cond, p2, tr) = match self.read_binary_tree(p1, false, 0) {
            Err(e) => {
                return Err(e);
            },
            Ok(x) => x,
        };
        if tr.is_some() {
            return Err(err_line("stray operator in expression", self.line_at(p2)));
        }
        let p3 = if self.sep_at(p2, Separator::Semicolon) {
            p2 + 1
        } else {
            p2
        };
        let (step, p4) = match self.read_line(p3) {
            Err(e) => {
                return Err(e);
            },
            Ok(x) => x,
        };
        let p5 = self.skip_semis(p4);
        if !self.sep_at(p5, Separator::ParenRight) {
            return Err(err_line("expected a closing parenthesis after the loop header", self.line_at(p5)));
        }
        match self.read_line(p5 + 1) {
            Err(e) => Err(e),
            Ok((body, p6)) => Ok(
                (Expr::For(Box::new(ForExpr { start, cond, step, body })), p6),
            ),
        }
    }

    /// The tail of a `repeat`, `switch`, `with` or `while` statement.
    fn stmt_headed(&self, pos: usize, kw: Keyword) -> (r: Result<(Expr, usize), Error>)
        requires
            self.wf(),
            pos <= self@.len(),
        ensures
            match sp_stmt_headed(self@, pos as int, kw) {
                Some((e, p)) => r matches Ok(x) && x.0@ == e && x.1 == p && pos <= p <= self@.len(),
                None => r is Err,
            },
        decreases self@.len() - pos, 4int,
    {
        let n = self.toks.len();
        proof {
            assert(self@.len() == n);
        }
        let (e, p, tr) = match self.read_binary_tree(pos, false, 0) {
            Err(er) => {
                return Err(er);
            },
            Ok(x) => x,
        };
        if tr.is_some() {
            return Err(err_line("stray operator in expression", self.line_at(p)));
        }
        match self.read_line(p) {
            Err(er) => Err(er),
            Ok((body, q)) => {
                let node = match kw {
                    Keyword::Repeat => Expr::Repeat(Box::new(RepeatExpr { count: e, body })),
                    Keyword::Switch => Expr::Switch(Box::new(SwitchExpr { input: e, body })),
                    Keyword::With => Expr::With(Box::new(WithExpr { target: e, body })),
                    _ => Expr::While(Box::new(WhileExpr { cond: e, body })),
                };
                Ok((node, q))
            },
        }
    }

    /// The tail of a `case` label.
    fn stmt_case(&self, pos: usize) -> (r: Result<(Expr, usize), Error>)
        requires
            self.wf(),
            pos <= self@.len(),
        ensures
            match sp_stmt_case(self@, pos as int) {
                Some((e, p)) => r matches Ok(x) && x.0@ == e && x.1 == p && pos <= p <= self@.len(),
                None => r is Err,
            },
        decreases self@.len() - pos, 4int,
    {
        let n = self.toks.len();
        proof {
            assert(self@.len() == n);
        }
        let (e, p, tr) = match self.read_binary_tree(pos, false, 0) {
            Err(er) => {
                return Err(er);
            },
            Ok(x) => x,
        };
        if tr.is_some() {
            return Err(err_line("stray operator in expression", self.line_at(p)));
        }
        if self.sep_at(p, Separator::Colon) {
            Ok((Expr::Case(Box::new(e)), p + 1))
        } else {
            Err(err_line("expected a colon after the label", self.line_at(p)))
        }
    }

    /// The tail of a `return` statement.
    fn stmt_return(&self, pos: usize) -> (r: Result<(Expr, usize), Error>)
        requires
            self.wf(),
            pos <= self@.len(),
        ensures
            match sp_stmt_return(self@, pos as int) {
                Some((e, p)) => r matches Ok(x) && x.0@ == e && x.1 == p && pos <= p <= self@.len(),
                None => r is Err,
            },
        decreases self@.len() - pos, 4int,
    {
        let n = self.toks.len();
        proof {
            assert(self@.len() == n);
        }
        let (e, p, tr) = match self.read_binary_tree(pos, false, 0) {
            Err(er) => {
                return Err(er);
            },
            Ok(x) => x,
        };
        if tr.is_some() {
            return Err(err_line("stray operator in expression", self.line_at(p)));
        }
        Ok((Expr::Return(Box::new(e)), p))
    }

    /// One full statement.
    fn read_line(&self, pos: usize) -> (r: Result<(Expr, usize), Error>)
        requires
            self.wf(),
            pos <= self@.len(),
        ensures
            match sp_read_line(self@, pos as int) {
                Some((e, p)) => r matches Ok(x) && x.0@ == e && x.1 == p && pos < p <= self@.len(),
                None => r is Err,
            },
        decreases self@.len() - pos, 3int,
    {
        proof {
            assert(self@.len() == self.toks@.len());
        }
        if pos >= self.toks.len() {
            return Err(err_line("unexpected end of input at a statement", self.line_at(pos)));
        }
        proof {
            assert(self@[pos as int] == self.toks@[pos as int]@);
            if pos + 1 < self.toks@.len() {
                assert(self@[pos as int + 1] == self.toks@[pos as int + 1]@);
            }
        }
        match &self.toks[pos] {
            Token::Keyword(k) => {
                match *k {
                    Keyword::Var => {
                        if pos + 1 < self.toks.len() {
                            match &self.toks[pos + 1] {
                                Token::Identifier(id) => {
                                    let mut names: Vec<String> = Vec::new();
                                    names.push(String::from_str(id.as_str()));
                                    proof {
                                        assert(names@.map_values(|t: String| t@) =~= seq![id@]);
                                    }
                                    let (names2, p) = self.read_vars(pos + 2, names);
                                    Ok((Expr::Var(Box::new(VarExpr { vars: names2 })), p))
                                },
                                _ => {
                                    let names: Vec<String> = Vec::new();
                                    proof {
                                        assert(names@.map_values(|t: String| t@) =~= Seq::<Seq<
                                            char,
                                        >>::empty());
                                    }
                                    Ok((Expr::Var(Box::new(VarExpr { vars: names })), pos + 1))
                                },
                            }
                        } else {
                            let names: Vec<String> = Vec::new();
                            proof {
                                assert(names@.map_values(|t: String| t@) =~= Seq::<
                                    Seq<char>,
                                >::empty());
                            }
                            Ok((Expr::Var(Box::new(VarExpr { vars: names })), pos + 1))
                        }
                    },
                    Keyword::Do => self.stmt_do(pos + 1),
                    Keyword::If => self.stmt_if(pos + 1),
                    Keyword::For => self.stmt_for(pos + 1),
                    Keyword::Repeat => self.stmt_headed(pos + 1, Keyword::Repeat),
                    Keyword::Switch => self.stmt_headed(pos + 1, Keyword::Switch),
                    Keyword::With => self.stmt_headed(pos + 1, Keyword::With),
                    Keyword::While => self.stmt_headed(pos + 1, Keyword::While),
                    Keyword::Case => self.stmt_case(pos + 1),
                    Keyword::Default => {
                        if self.sep_at(pos + 1, Separator::Colon) {
                            Ok((Expr::Default, pos + 2))
                        } else {
                            Err(err_line("expected a colon after the label", self.line_at(pos + 1)))
                        }
                    },
                    Keyword::Break => Ok((Expr::Break, pos + 1)),
                    Keyword::Continue => Ok((Expr::Continue, pos + 1)),
                    Keyword::Exit => Ok((Expr::Exit, pos + 1)),
                    Keyword::Return => self.stmt_return(pos + 1),
                    _ => Err(err_line(
                        "invalid keyword at the beginning of a statement",
                        self.line_at(pos),
                    )),
                }
            },
            Token::Identifier(id) => {
                if pos + 1 >= self.toks.len() {
                    return Err(err_line("stray identifier at end of input", self.line_at(pos)));
                }
                if self.sep_at(pos + 1, Separator::ParenLeft) {
                    let name = String::from_str(id.as_str());
                    self.read_function_call(pos + 1, name)
                } else {
                    match self.read_binary_tree(pos, true, 0) {
                        Err(e) => Err(e),
                        Ok((e, p, tr)) => {
                            if tr.is_some() {
                                Err(err_line("stray operator in expression", self.line_at(p)))
                            } else {
                                Ok((e, p))
                            }
                        },
                    }
                }
            },
            Token::Separator(Separator::BraceLeft) => {
                proof {
                    assert(exprs_view(Seq::<Expr>::empty()) =~= Seq::<SpecExpr>::empty());
                }
                self.read_group(pos + 1, Vec::new())
            },
            Token::Separator(Separator::ParenLeft) => {
                match self.read_binary_tree(pos, true, 0) {
                    Err(e) => Err(e),
                    Ok((e, p, tr)) => {
                        if tr.is_some() {
                            Err(err_line("stray operator in expression", self.line_at(p)))
                        } else {
                            Ok((e, p))
                        }
                    },
                }
            },
            Token::Separator(Separator::Semicolon) => Ok((Expr::Nop, pos + 1)),
            _ => Err(err_line(
                "invalid token at the beginning of a statement",
                self.line_at(pos),
            )),
        }
    }

    /// A brace group after its opening brace.
    fn read_group(&self, pos: usize, acc: Vec<Expr>) -> (r: Result<(Expr, usize), Error>)
        requires
            self.wf(),
            pos <= self@.len(),
        ensures
            match sp_read_group(self@, pos as int, exprs_view(acc@)) {
                Some((e, p)) => r matches Ok(x) && x.0@ == e && x.1 == p && pos <= p <= self@.len(),
                None => r is Err,
            },
        decreases self@.len() - pos, 5int,
    {
        proof {
            assert(self@.len() == self.toks@.len());
        }
        if pos >= self.toks.len() {
            return Err(err_line("unclosed brace at end of input", self.line_at(pos)));
        }
        if self.sep_at(pos, Separator::BraceRight) {
            let node = Expr::Group(acc);
            proof {
                assert(node@ == SpecExpr::Group(exprs_view(node->Group_0@)));
            }
            return Ok((node, pos + 1));
        }
        match self.read_line(pos) {
            Err(e) => Err(e),
            Ok((e, p)) => {
                let is_nop = matches!(&e, Expr::Nop);
                proof {
                    assert(is_nop <==> e@ == SpecExpr::Nop);
                }
                if is_nop {
                    self.read_group(p, acc)
                } else {
                    let ghost old_acc = acc@;
                    let mut acc2 = acc;
                    acc2.push(e);
                    proof {
                        assert(acc2@.drop_last() =~= old_acc);
                        assert(exprs_view(acc2@) == exprs_view(old_acc).push(acc2@.last()@));
                    }
                    self.read_group(p, acc2)
                }
            },
        }
    }
}

impl crate::ast::AST {
    /// Parses a source string into its program: the tree `sp_parse` names,
    /// or an error exactly when it names none.
    pub fn new(source: &str) -> (r: Result<crate::ast::AST, Error>)
        ensures
            match sp_parse(source@) {
                Some(es) => r matches Ok(a) && a@ == es,
                None => r is Err,
            },
    {
        let (toks, lines) = match crate::lexer::lex(source) {
            Err(e) => {
                return Err(e);
            },
            Ok(x) => x,
        };
        let parser = Parser { toks, lines };
        let mut exprs: Vec<Expr> = Vec::new();
        let mut pos: usize = 0;
        proof {
            assert(exprs_view(Seq::<Expr>::empty()) =~= Seq::<SpecExpr>::empty());
        }
        loop
            invariant
                parser.wf(),
                pos <= parser@.len(),
                crate::lexer::sp_lex_from(source@, 0) == Some(parser@),
                match sp_program(parser@, pos as int) {
                    Some(rest) => sp_program(parser@, 0) == Some(exprs_view(exprs@) + rest),
                    None => sp_program(parser@, 0) is None,
                },
            decreases parser@.len() - pos,
        {
            proof {
                assert(parser@.len() == parser.toks@.len());
            }
            if pos >= parser.toks.len() {
                proof {
                    assert(exprs_view(exprs@) + Seq::<SpecExpr>::empty() =~= exprs_view(exprs@));
                }
                return Ok(crate::ast::AST { expressions: exprs });
            }
            match parser.read_line(pos) {
                Err(e) => {
                    return Err(e);
                },
                Ok((e, p)) => {
                    let is_nop = matches!(&e, Expr::Nop);
                    proof {
                        assert(is_nop <==> e@ == SpecExpr::Nop);
                    }
                    let ghost old_exprs = exprs@;
                    let ghost ev = e@;
                    if !is_nop {
                        exprs.push(e);
                        proof {
                            assert(exprs@.drop_last() =~= old_exprs);
                            assert(exprs_view(exprs@) == exprs_view(old_exprs).push(ev));
                        }
                    }
                    proof {
                        match sp_program(parser@, p as int) {
                            Some(rest2) => {
                                if !is_nop {
                                    assert(exprs_view(old_exprs) + (seq![ev] + rest2)
                                        =~= exprs_view(old_exprs).push(ev) + rest2);
                                }
                            },
                            None => {},
                        }
                    }
                    pos = p;
                },
            }
        }
    }
}

fn digit_str(d: usize) -> &'static str
    requires
        d < 10,
{
    if d == 0 {
        "0"
    } else if d == 1 {
        "1"
    } else if d == 2 {
        "2"
    } else if d == 3 {
        "3"
    } else if d == 4 {
        "4"
    } else if d == 5 {
        "5"
    } else if d == 6 {
        "6"
    } else if d == 7 {
        "7"
    } else if d == 8 {
        "8"
    } else {
        "9"
    }
}

fn usize_digits(n: usize) -> String
    decreases n,
{
    let d = n % 10;
    let r = n / 10;
    proof {
        assert(r < n || n == 0) by (nonlinear_arith)
            requires
                r == n / 10,
        ;
    }
    let mut s = if r == 0 {
        String::from_str("")
    } else {
        usize_digits(r)
    };
    s.append(digit_str(d));
    s
}

/// Builds a diagnostic carrying the line it arose on.
pub(crate) fn err_line(msg: &str, line: usize) -> Error {
    let mut m = String::from_str(msg);
    m.append(" (line ");
    m.append(usize_digits(line).as_str());
    m.append(")");
    Error::new(m)
}

} // verus!
