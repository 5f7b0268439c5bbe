//! Grammar laws, proved against the spec-level parser that the executable
//! reader is verified to implement.
use vstd::prelude::*;

use crate::ast::SpecExpr;
use crate::lexer::{sp_digit_end, sp_find_quote, sp_ident_end, sp_lex_from, sp_token_at};
use crate::parser::{sp_fold, sp_postfix, sp_program, sp_read_binary_tree,
    sp_read_btree_expression, sp_read_dims, sp_read_function_call, sp_read_group, sp_read_line,
    sp_read_params, sp_read_vars, sp_skip_semis, sp_stmt_do, sp_stmt_for, sp_stmt_headed, sp_stmt_if};
use crate::token::{Keyword, Operator, Separator, SpecToken, spec_op_precedence};

verus! {

/// `w` is a contiguous slice of the source `s`.
pub open spec fn is_source_slice(w: Seq<char>, s: Seq<char>) -> bool {
    exists|i: int, j: int| 0 <= i <= j <= s.len() && w == s.subrange(i, j)
}

/// The payload a token carries, if any, is a slice of the source.
pub open spec fn token_payload_is_slice(t: SpecToken, s: Seq<char>) -> bool {
    match t {
        SpecToken::Identifier(w) => is_source_slice(w, s),
        SpecToken::Real(w) => is_source_slice(w, s),
        SpecToken::Str(w) => is_source_slice(w, s),
        _ => true,
    }
}

proof fn lemma_ident_end_bounds(s: Seq<char>, i: int)
    requires
        0 <= i <= s.len(),
    ensures
        i <= sp_ident_end(s, i) <= s.len(),
    decreases s.len() - i,
{
    if i < s.len() && crate::lexer::is_ident_char(s[i]) {
        lemma_ident_end_bounds(s, i + 1);
    }
}

proof fn lemma_digit_end_bounds(s: Seq<char>, i: int)
    requires
        0 <= i <= s.len(),
    ensures
        i <= sp_digit_end(s, i) <= s.len(),
    decreases s.len() - i,
{
    if i < s.len() && crate::lexer::is_digit(s[i]) {
        lemma_digit_end_bounds(s, i + 1);
    }
}

proof fn lemma_find_quote_bounds(s: Seq<char>, i: int, q: char)
    requires
        0 <= i <= s.len(),
    ensures
        match sp_find_quote(s, i, q) {
            Some(j) => i <= j < s.len(),
            None => true,
        },
    decreases s.len() - i,
{
    if i < s.len() && s[i] != q {
        lemma_find_quote_bounds(s, i + 1, q);
    }
}

proof fn lemma_token_at_payload(s: Seq<char>, j: int)
    requires
        0 <= j < s.len(),
    ensures
        match sp_token_at(s, j) {
            Some((t, k)) => token_payload_is_slice(t, s),
            None => true,
        },
{
    match sp_token_at(s, j) {
        Some((t, k)) => {
            let c = s[j];
            if crate::lexer::is_ident_start(c) {
                lemma_ident_end_bounds(s, j + 1);
                let e = sp_ident_end(s, j + 1);
                assert(is_source_slice(s.subrange(j, e), s));
            } else if crate::lexer::is_digit(c) {
                lemma_digit_end_bounds(s, j + 1);
                let e = sp_digit_end(s, j + 1);
                if e < s.len() && s[e] == '.' && e + 1 < s.len() && crate::lexer::is_digit(
                    s[e + 1],
                ) {
                    lemma_digit_end_bounds(s, e + 2);
                }
            } else if c == '.' && j + 1 < s.len() && crate::lexer::is_digit(s[j + 1]) {
                lemma_digit_end_bounds(s, j + 2);
            } else if c == '"' || c == '\'' {
                lemma_find_quote_bounds(s, j + 1, c);
            }
        },
        None => {},
    }
}

/// Lifetime discipline at the lexical level: every identifier, number and
/// string payload in the token stream is a slice of the source text.
pub proof fn lemma_lex_payloads_are_slices(s: Seq<char>, i: int)
    requires
        0 <= i,
    ensures
        match sp_lex_from(s, i) {
            Some(tv) => forall|k: int|
                0 <= k < tv.len() ==> #[trigger] token_payload_is_slice(tv[k], s),
            None => true,
        },
    decreases s.len() - i,
{
    let j = crate::lexer::sp_skip_trivia(s, i);
    if j >= s.len() || j < i {
    } else {
        match sp_token_at(s, j) {
            Some((t, k)) => {
                if k > j && k <= s.len() {
                    lemma_token_at_payload(s, j);
                    lemma_lex_payloads_are_slices(s, k);
                    match sp_lex_from(s, k) {
                        Some(rest) => {
                            let tv = seq![t] + rest;
                            assert forall|m: int| 0 <= m < tv.len() implies #[trigger]
                                token_payload_is_slice(tv[m], s) by {
                                if m == 0 {
                                    assert(tv[0] == t);
                                } else {
                                    assert(tv[m] == rest[m - 1]);
                                }
                            }
                        },
                        None => {},
                    }
                }
            },
            None => {},
        }
    }
}

/// An operator the grammar accepts at the top of an assignment statement.
pub open spec fn is_assignment_op(op: Operator) -> bool {
    op == Operator::Assign || op == Operator::AssignAdd || op == Operator::AssignSubtract || op
        == Operator::AssignMultiply || op == Operator::AssignDivide || op
        == Operator::AssignBinaryAnd || op == Operator::AssignBinaryOr || op
        == Operator::AssignBinaryXor || op == Operator::Deref || op == Operator::Index
}

/// Disambiguation of `=`: a statement that starts with an identifier not
/// followed by a parenthesis parses, when it parses at all, to a tree whose
/// outermost node is an assignment-class binary operator, and no assignment
/// operator stands anywhere below that root: every inner `=` was read as
/// `Equal`. In particular `lhs = rhs` has `Assign` at the root and none in
/// `rhs`. (`Deref` and `Index` are listed as assignment-class only because
/// the token model admits them; the lexer never yields them.)
pub proof fn lemma_statement_assignment_root(ts: Seq<SpecToken>, pos: int)
    requires
        0 <= pos < ts.len(),
        ts[pos] matches SpecToken::Identifier(_),
        pos + 1 < ts.len(),
        ts[pos + 1] != SpecToken::Separator(Separator::ParenLeft),
    ensures
        match sp_read_line(ts, pos) {
            Some((e, p)) => e matches SpecExpr::Binary(op, l, r) && is_assignment_op(e->Binary_0)
                && sp_assign_free(*e->Binary_1) && sp_assign_free(*e->Binary_2),
            None => true,
        },
{
    match sp_read_line(ts, pos) {
        Some((e, p)) => {
            match sp_read_binary_tree(ts, pos, true, 0) {
                Some((e2, p2, tr)) => {
                    af_btree(ts, pos);
                    match sp_read_btree_expression(ts, pos) {
                        Some((lhs, q)) => {
                            assert(ts[q] matches SpecToken::Operator(_));
                            let op0 = ts[q]->Operator_0;
                            assert(spec_op_precedence(op0) is None);
                            assert(op0 != Operator::Not && op0 != Operator::Complement);
                            assert(is_assignment_op(op0));
                            af_rbt(ts, q + 1, false, 0);
                            match sp_fold(ts, q + 1, lhs, op0, true, 0) {
                                Some((fe, fp, ftr)) => {
                                    assert(fe matches SpecExpr::Binary(op, l, r));
                                    assert(fe->Binary_0 == op0);
                                    assert(sp_assign_free(*fe->Binary_1));
                                    assert(sp_assign_free(*fe->Binary_2));
                                    assert(e == fe);
                                },
                                None => {
                                    assert(false);
                                },
                            }
                        },
                        None => {
                            assert(false);
                        },
                    }
                },
                None => {
                    assert(false);
                },
            }
        },
        None => {},
    }
}

/// Precedence and associativity: in `a op1 b op2 c` with ranked operators,
/// `op2` binds tighter exactly when its precedence is higher, and equal or
/// lower precedence associates to the left.
pub proof fn lemma_precedence_associativity(
    a: Seq<char>,
    b: Seq<char>,
    c: Seq<char>,
    op1: Operator,
    op2: Operator,
    p1: u8,
    p2: u8,
)
    requires
        spec_op_precedence(op1) == Some(p1),
        spec_op_precedence(op2) == Some(p2),
    ensures
        ({
            let ts = seq![
                SpecToken::Identifier(a),
                SpecToken::Operator(op1),
                SpecToken::Identifier(b),
                SpecToken::Operator(op2),
                SpecToken::Identifier(c),
            ];
            let ea = SpecExpr::LiteralIdentifier(a);
            let eb = SpecExpr::LiteralIdentifier(b);
            let ec = SpecExpr::LiteralIdentifier(c);
            sp_read_binary_tree(ts, 0, false, 0) == Some(
                (
                    if p2 > p1 {
                        SpecExpr::Binary(
                            op1,
                            Box::new(ea),
                            Box::new(SpecExpr::Binary(op2, Box::new(eb), Box::new(ec))),
                        )
                    } else {
                        SpecExpr::Binary(
                            op2,
                            Box::new(SpecExpr::Binary(op1, Box::new(ea), Box::new(eb))),
                            Box::new(ec),
                        )
                    },
                    5int,
                    None::<Operator>,
                ),
            )
        }),
{
    let ts = seq![
        SpecToken::Identifier(a),
        SpecToken::Operator(op1),
        SpecToken::Identifier(b),
        SpecToken::Operator(op2),
        SpecToken::Identifier(c),
    ];
    let ea = SpecExpr::LiteralIdentifier(a);
    let eb = SpecExpr::LiteralIdentifier(b);
    let ec = SpecExpr::LiteralIdentifier(c);
    assert(ts.len() == 5);
    assert(sp_postfix(ts, 1, ea) == Some((ea, 1int)));
    assert(sp_read_btree_expression(ts, 0) == Some((ea, 1int)));
    assert(sp_postfix(ts, 3, eb) == Some((eb, 3int)));
    assert(sp_read_btree_expression(ts, 2) == Some((eb, 3int)));
    assert(sp_postfix(ts, 5, ec) == Some((ec, 5int)));
    assert(sp_read_btree_expression(ts, 4) == Some((ec, 5int)));
    assert(op1 != Operator::Assign && op2 != Operator::Assign);
    assert(sp_read_binary_tree(ts, 4, false, (p2 + 1) as u8) == Some(
        (ec, 5int, None::<Operator>),
    ));
    if p2 > p1 {
        assert(sp_fold(ts, 4, eb, op2, false, (p1 + 1) as u8) == Some(
            (SpecExpr::Binary(op2, Box::new(eb), Box::new(ec)), 5int, None::<Operator>),
        ));
        assert(sp_read_binary_tree(ts, 2, false, (p1 + 1) as u8) == Some(
            (SpecExpr::Binary(op2, Box::new(eb), Box::new(ec)), 5int, None::<Operator>),
        ));
        assert(sp_fold(ts, 2, ea, op1, false, 0) == Some(
            (
                SpecExpr::Binary(
                    op1,
                    Box::new(ea),
                    Box::new(SpecExpr::Binary(op2, Box::new(eb), Box::new(ec))),
                ),
                5int,
                None::<Operator>,
            ),
        ));
    } else {
        assert(sp_fold(ts, 4, eb, op2, false, (p1 + 1) as u8) == Some(
            (eb, 4int, Some(op2)),
        ));
        assert(sp_read_binary_tree(ts, 2, false, (p1 + 1) as u8) == Some(
            (eb, 4int, Some(op2)),
        ));
        assert(sp_read_binary_tree(ts, 4, false, (p2 + 1) as u8) == Some(
            (ec, 5int, None::<Operator>),
        ));
        let lhs2 = SpecExpr::Binary(op1, Box::new(ea), Box::new(eb));
        assert(sp_fold(ts, 4, lhs2, op2, false, 0) == Some(
            (SpecExpr::Binary(op2, Box::new(lhs2), Box::new(ec)), 5int, None::<Operator>),
        ));
        assert(sp_fold(ts, 2, ea, op1, false, 0) == Some(
            (SpecExpr::Binary(op2, Box::new(lhs2), Box::new(ec)), 5int, None::<Operator>),
        ));
    }
    assert(sp_read_binary_tree(ts, 0, false, 0) == sp_fold(ts, 2, ea, op1, false, 0));
}


/// No `Group` anywhere in the tree holds an empty statement.
pub open spec fn sp_nop_free(e: SpecExpr) -> bool
    decreases e,
{
    match e {
        SpecExpr::Unary(op, c) => sp_nop_free(*c),
        SpecExpr::Binary(op, l, r) => sp_nop_free(*l) && sp_nop_free(*r),
        SpecExpr::DoUntil(c, b) => sp_nop_free(*c) && sp_nop_free(*b),
        SpecExpr::For(a, b, c, d) => sp_nop_free(*a) && sp_nop_free(*b) && sp_nop_free(*c)
            && sp_nop_free(*d),
        SpecExpr::Function(name, ps) => forall|k: int|
            0 <= k < ps.len() ==> sp_nop_free(#[trigger] ps[k]),
        SpecExpr::Group(cs) => forall|k: int|
            0 <= k < cs.len() ==> (#[trigger] cs[k] != SpecExpr::Nop && sp_nop_free(cs[k])),
        SpecExpr::If(c, b, eb) => sp_nop_free(*c) && sp_nop_free(*b) && match eb {
            Some(e2) => sp_nop_free(*e2),
            None => true,
        },
        SpecExpr::Repeat(c, b) => sp_nop_free(*c) && sp_nop_free(*b),
        SpecExpr::Switch(c, b) => sp_nop_free(*c) && sp_nop_free(*b),
        SpecExpr::With(c, b) => sp_nop_free(*c) && sp_nop_free(*b),
        SpecExpr::While(c, b) => sp_nop_free(*c) && sp_nop_free(*b),
        SpecExpr::Case(c) => sp_nop_free(*c),
        SpecExpr::Return(c) => sp_nop_free(*c),
        _ => true,
    }
}

proof fn nop_btree(ts: Seq<SpecToken>, pos: int)
    ensures
        match sp_read_btree_expression(ts, pos) {
            Some((e, p)) => e != SpecExpr::Nop && sp_nop_free(e),
            None => true,
        },
    decreases ts.len() - pos, 0int,
{
    if pos < 0 || pos >= ts.len() {
    } else {
        match ts[pos] {
            SpecToken::Separator(Separator::ParenLeft) => {
                nop_rbt(ts, pos + 1, false, 0);
                match sp_read_binary_tree(ts, pos + 1, false, 0) {
                    None => {},
                    Some((e, p, trailing)) => {
                        if p < ts.len() && ts[p] == SpecToken::Separator(Separator::ParenRight)
                            && trailing is None && p + 1 > pos && p + 1 <= ts.len() {
                            nop_postfix(ts, p + 1, e);
                        }
                    },
                }
            },
            SpecToken::Operator(op) => {
                if op == Operator::Add || op == Operator::Subtract || op == Operator::Not || op
                    == Operator::Complement {
                    nop_btree(ts, pos + 1);
                    match sp_read_btree_expression(ts, pos + 1) {
                        None => {},
                        Some((child, p)) => {
                            if p > pos && p <= ts.len() {
                                nop_postfix(ts, p, SpecExpr::Unary(op, Box::new(child)));
                            }
                        },
                    }
                }
            },
            SpecToken::Identifier(id) => {
                if pos + 1 < ts.len() && ts[pos + 1] == SpecToken::Separator(Separator::ParenLeft) {
                    nop_fc(ts, pos + 1, id);
                    match sp_read_function_call(ts, pos + 1, id) {
                        None => {},
                        Some((e, p)) => {
                            if p > pos && p <= ts.len() {
                                nop_postfix(ts, p, e);
                            }
                        },
                    }
                } else {
                    nop_postfix(ts, pos + 1, SpecExpr::LiteralIdentifier(id));
                }
            },
            SpecToken::Real(t) => {
                nop_postfix(ts, pos + 1, SpecExpr::LiteralReal(t));
            },
            SpecToken::Str(t) => {
                nop_postfix(ts, pos + 1, SpecExpr::LiteralString(t));
            },
            _ => {},
        }
    }
}

proof fn nop_postfix(ts: Seq<SpecToken>, pos: int, lhs: SpecExpr)
    requires
        lhs != SpecExpr::Nop,
        sp_nop_free(lhs),
    ensures
        match sp_postfix(ts, pos, lhs) {
            Some((e, p)) => e != SpecExpr::Nop && sp_nop_free(e),
            None => true,
        },
    decreases ts.len() - pos, 0int,
{
    if pos < 0 || pos >= ts.len() {
    } else if ts[pos] == SpecToken::Separator(Separator::BracketLeft) {
        if pos + 1 < ts.len() && ts[pos + 1] == SpecToken::Separator(Separator::BracketRight) {
            let g = SpecExpr::Group(Seq::<SpecExpr>::empty());
            assert(sp_nop_free(g));
            let node = SpecExpr::Binary(Operator::Index, Box::new(lhs), Box::new(g));
            assert(sp_nop_free(node));
            nop_postfix(ts, pos + 2, node);
        } else {
            nop_dims(ts, pos + 1, Seq::empty());
            match sp_read_dims(ts, pos + 1, Seq::empty()) {
                None => {},
                Some((ds, p)) => {
                    let g = SpecExpr::Group(ds);
                    assert(sp_nop_free(g));
                    let node = SpecExpr::Binary(Operator::Index, Box::new(lhs), Box::new(g));
                    assert(sp_nop_free(node));
                    if p > pos && p <= ts.len() {
                        nop_postfix(ts, p, node);
                    }
                },
            }
        }
    } else if ts[pos] == SpecToken::Separator(Separator::Period) {
        if pos + 1 < ts.len() && (ts[pos + 1] matches SpecToken::Identifier(_)) {
            let leaf = SpecExpr::LiteralIdentifier(ts[pos + 1]->Identifier_0);
            assert(sp_nop_free(leaf));
            let node = SpecExpr::Binary(Operator::Deref, Box::new(lhs), Box::new(leaf));
            assert(sp_nop_free(node));
            nop_postfix(ts, pos + 2, node);
        }
    } else {
    }
}

proof fn nop_dims(ts: Seq<SpecToken>, pos: int, acc: Seq<SpecExpr>)
    requires
        forall|k: int| 0 <= k < acc.len() ==> (#[trigger] acc[k] != SpecExpr::Nop && sp_nop_free(
            acc[k],
        )),
    ensures
        match sp_read_dims(ts, pos, acc) {
            Some((ds, p)) => forall|k: int|
                0 <= k < ds.len() ==> (#[trigger] ds[k] != SpecExpr::Nop && sp_nop_free(ds[k])),
            None => true,
        },
    decreases ts.len() - pos, 2int,
{
    nop_rbt(ts, pos, false, 0);
    match sp_read_binary_tree(ts, pos, false, 0) {
        None => {},
        Some((d, p, trailing)) => {
            if trailing is None {
                let acc2 = acc.push(d);
                assert(forall|k: int|
                    0 <= k < acc2.len() ==> (#[trigger] acc2[k] != SpecExpr::Nop && sp_nop_free(
                        acc2[k],
                    )));
                if 0 <= p < ts.len() && ts[p] == SpecToken::Separator(Separator::Comma) && !(p + 1
                    < ts.len() && ts[p + 1] == SpecToken::Separator(Separator::BracketRight)) && p
                    + 1 > pos {
                    nop_dims(ts, p + 1, acc2);
                }
            }
        },
    }
}

proof fn nop_params(ts: Seq<SpecToken>, pos: int, acc: Seq<SpecExpr>)
    requires
        forall|k: int| 0 <= k < acc.len() ==> (#[trigger] acc[k] != SpecExpr::Nop && sp_nop_free(
            acc[k],
        )),
    ensures
        match sp_read_params(ts, pos, acc) {
            Some((ds, p)) => forall|k: int|
                0 <= k < ds.len() ==> (#[trigger] ds[k] != SpecExpr::Nop && sp_nop_free(ds[k])),
            None => true,
        },
    decreases ts.len() - pos, 2int,
{
    nop_rbt(ts, pos, false, 0);
    match sp_read_binary_tree(ts, pos, false, 0) {
        None => {},
        Some((d, p, trailing)) => {
            if trailing is None {
                let acc2 = acc.push(d);
                assert(forall|k: int|
                    0 <= k < acc2.len() ==> (#[trigger] acc2[k] != SpecExpr::Nop && sp_nop_free(
                        acc2[k],
                    )));
                if 0 <= p < ts.len() && ts[p] == SpecToken::Separator(Separator::Comma) && !(p + 1
                    < ts.len() && ts[p + 1] == SpecToken::Separator(Separator::ParenRight)) && p
                    + 1 > pos {
                    nop_params(ts, p + 1, acc2);
                }
            }
        },
    }
}

proof fn nop_fc(ts: Seq<SpecToken>, pos: int, name: Seq<char>)
    ensures
        match sp_read_function_call(ts, pos, name) {
            Some((e, p)) => e != SpecExpr::Nop && sp_nop_free(e),
            None => true,
        },
    decreases ts.len() - pos, 0int,
{
    if 0 <= pos < ts.len() && ts[pos] == SpecToken::Separator(Separator::ParenLeft) {
        if pos + 1 < ts.len() && ts[pos + 1] == SpecToken::Separator(Separator::ParenRight) {
        } else {
            nop_params(ts, pos + 1, Seq::empty());
        }
    }
}

proof fn nop_fold(
    ts: Seq<SpecToken>,
    pos: int,
    lhs: SpecExpr,
    op: Operator,
    ea: bool,
    lp: u8,
)
    requires
        lhs != SpecExpr::Nop,
        sp_nop_free(lhs),
    ensures
        match sp_fold(ts, pos, lhs, op, ea, lp) {
            Some((e, p, t)) => e != SpecExpr::Nop && sp_nop_free(e),
            None => true,
        },
    decreases ts.len() - pos, 2int,
{
    match spec_op_precedence(op) {
        Some(prec) => {
            if !ea && prec >= lp {
                nop_rbt(ts, pos, false, (prec + 1) as u8);
                match sp_read_binary_tree(ts, pos, false, (prec + 1) as u8) {
                    None => {},
                    Some((rhs, p, tr)) => {
                        let node = SpecExpr::Binary(op, Box::new(lhs), Box::new(rhs));
                        match tr {
                            Some(next_op) => {
                                match spec_op_precedence(next_op) {
                                    Some(np) => {
                                        if np >= lp && p > pos && p <= ts.len() {
                                            nop_fold(ts, p, node, next_op, false, lp);
                                        }
                                    },
                                    None => {},
                                }
                            },
                            None => {},
                        }
                    },
                }
            }
        },
        None => {
            if ea && op != Operator::Not && op != Operator::Complement {
                nop_rbt(ts, pos, false, lp);
            }
        },
    }
}

proof fn nop_rbt(ts: Seq<SpecToken>, pos: int, ea: bool, lp: u8)
    ensures
        match sp_read_binary_tree(ts, pos, ea, lp) {
            Some((e, p, t)) => e != SpecExpr::Nop && sp_nop_free(e),
            None => true,
        },
    decreases ts.len() - pos, 1int,
{
    nop_btree(ts, pos);
    match sp_read_btree_expression(ts, pos) {
        None => {},
        Some((lhs, p)) => {
            if p < ts.len() && (ts[p] matches SpecToken::Operator(_)) {
                let op0 = ts[p]->Operator_0;
                let op = if op0 == Operator::Assign && !ea {
                    Operator::Equal
                } else {
                    op0
                };
                if p + 1 > pos && p + 1 <= ts.len() {
                    nop_fold(ts, p + 1, lhs, op, ea, lp);
                }
            }
        },
    }
}

/// Absence of empty statements, per statement: whatever one statement
/// parses to — a brace group included — no `Group` in it holds a `Nop`.
pub proof fn lemma_statement_nop_free(ts: Seq<SpecToken>, pos: int)
    ensures
        match sp_read_line(ts, pos) {
            Some((e, p)) => sp_nop_free(e),
            None => true,
        },
    decreases ts.len() - pos, 3int,
{
    if pos < 0 || pos >= ts.len() {
    } else {
        match ts[pos] {
            SpecToken::Keyword(k) => {
                match k {
                    Keyword::Do => {
                        nop_stmt_do(ts, pos + 1);
                    },
                    Keyword::If => {
                        nop_stmt_if(ts, pos + 1);
                    },
                    Keyword::For => {
                        nop_stmt_for(ts, pos + 1);
                    },
                    Keyword::Repeat => {
                        nop_stmt_headed(ts, pos + 1, k);
                    },
                    Keyword::Switch => {
                        nop_stmt_headed(ts, pos + 1, k);
                    },
                    Keyword::With => {
                        nop_stmt_headed(ts, pos + 1, k);
                    },
                    Keyword::While => {
                        nop_stmt_headed(ts, pos + 1, k);
                    },
                    Keyword::Case => {
                        nop_rbt(ts, pos + 1, false, 0);
                    },
                    Keyword::Return => {
                        nop_rbt(ts, pos + 1, false, 0);
                    },
                    _ => {},
                }
            },
            SpecToken::Identifier(id) => {
                if pos + 1 >= ts.len() {
                } else if ts[pos + 1] == SpecToken::Separator(Separator::ParenLeft) {
                    nop_fc(ts, pos + 1, id);
                } else {
                    nop_rbt(ts, pos, true, 0);
                }
            },
            SpecToken::Separator(Separator::BraceLeft) => {
                nop_group(ts, pos + 1, Seq::empty());
            },
            SpecToken::Separator(Separator::ParenLeft) => {
                nop_rbt(ts, pos, true, 0);
            },
            _ => {},
        }
    }
}

proof fn nop_stmt_do(ts: Seq<SpecToken>, pos: int)
    ensures
        match sp_stmt_do(ts, pos) {
            Some((e, p)) => sp_nop_free(e),
            None => true,
        },
    decreases ts.len() - pos, 4int,
{
    lemma_statement_nop_free(ts, pos);
    match sp_read_line(ts, pos) {
        None => {},
        Some((body, p)) => {
            if p < ts.len() && ts[p] == SpecToken::Keyword(Keyword::Until) && p + 1 > pos && p + 1
                <= ts.len() {
                nop_rbt(ts, p + 1, false, 0);
            }
        },
    }
}

proof fn nop_stmt_if(ts: Seq<SpecToken>, pos: int)
    ensures
        match sp_stmt_if(ts, pos) {
            Some((e, p)) => sp_nop_free(e),
            None => true,
        },
    decreases ts.len() - pos, 4int,
{
    nop_rbt(ts, pos, false, 0);
    match sp_read_binary_tree(ts, pos, false, 0) {
        None => {},
        Some((cond, p0, tr)) => {
            if tr is None {
                let p1 = if p0 < ts.len() && ts[p0] == SpecToken::Separator(Separator::Then) {
                    p0 + 1
                } else {
                    p0
                };
                if pos <= p1 <= ts.len() {
                    lemma_statement_nop_free(ts, p1);
                    match sp_read_line(ts, p1) {
                        None => {},
                        Some((body, p2)) => {
                            if p2 < ts.len() && ts[p2] == SpecToken::Keyword(Keyword::Else) && pos
                                <= p2 + 1 <= ts.len() {
                                lemma_statement_nop_free(ts, p2 + 1);
                            }
                        },
                    }
                }
            }
        },
    }
}

proof fn nop_stmt_for(ts: Seq<SpecToken>, pos: int)
    ensures
        match sp_stmt_for(ts, pos) {
            Some((e, p)) => sp_nop_free(e),
            None => true,
        },
    decreases ts.len() - pos, 4int,
{
    if 0 <= pos < ts.len() && ts[pos] == SpecToken::Separator(Separator::ParenLeft) {
        lemma_statement_nop_free(ts, pos + 1);
        match sp_read_line(ts, pos + 1) {
            None => {},
            Some((start, p0)) => {
                let p1 = if p0 < ts.len() && ts[p0] == SpecToken::Separator(Separator::Semicolon) {
                    p0 + 1
                } else {
                    p0
                };
                if pos <= p1 <= ts.len() {
                    nop_rbt(ts, p1, false, 0);
                    match sp_read_binary_tree(ts, p1, false, 0) {
                        None => {},
                        Some((cond, p2, tr)) => {
                            if tr is None {
                                let p3 = if p2 < ts.len() && ts[p2] == SpecToken::Separator(
                                    Separator::Semicolon,
                                ) {
                                    p2 + 1
                                } else {
                                    p2
                                };
                                if pos <= p3 <= ts.len() {
                                    lemma_statement_nop_free(ts, p3);
                                    match sp_read_line(ts, p3) {
                                        None => {},
                                        Some((step, p4)) => {
                                            let p5 = sp_skip_semis(ts, p4);
                                            if p5 < ts.len() && ts[p5] == SpecToken::Separator(
                                                Separator::ParenRight,
                                            ) && pos <= p5 + 1 <= ts.len() {
                                                lemma_statement_nop_free(ts, p5 + 1);
                                            }
                                        },
                                    }
                                }
                            }
                        },
                    }
                }
            },
        }
    }
}

proof fn nop_stmt_headed(ts: Seq<SpecToken>, pos: int, kw: Keyword)
    ensures
        match sp_stmt_headed(ts, pos, kw) {
            Some((e, p)) => sp_nop_free(e),
            None => true,
        },
    decreases ts.len() - pos, 4int,
{
    nop_rbt(ts, pos, false, 0);
    match sp_read_binary_tree(ts, pos, false, 0) {
        None => {},
        Some((e, p, tr)) => {
            if tr is None && pos <= p <= ts.len() {
                lemma_statement_nop_free(ts, p);
            }
        },
    }
}

proof fn nop_group(ts: Seq<SpecToken>, pos: int, acc: Seq<SpecExpr>)
    requires
        forall|k: int| 0 <= k < acc.len() ==> (#[trigger] acc[k] != SpecExpr::Nop && sp_nop_free(
            acc[k],
        )),
    ensures
        match sp_read_group(ts, pos, acc) {
            Some((e, p)) => e != SpecExpr::Nop && sp_nop_free(e),
            None => true,
        },
    decreases ts.len() - pos, 5int,
{
    if pos < 0 || pos >= ts.len() {
    } else if ts[pos] == SpecToken::Separator(Separator::BraceRight) {
    } else {
        lemma_statement_nop_free(ts, pos);
        match sp_read_line(ts, pos) {
            None => {},
            Some((e, p)) => {
                if p > pos && p <= ts.len() {
                    if e == SpecExpr::Nop {
                        nop_group(ts, p, acc);
                    } else {
                        let acc2 = acc.push(e);
                        assert(forall|k: int|
                            0 <= k < acc2.len() ==> (#[trigger] acc2[k] != SpecExpr::Nop
                                && sp_nop_free(acc2[k])));
                        nop_group(ts, p, acc2);
                    }
                }
            },
        }
    }
}

/// Absence of empty statements: no top-level expression of a parsed program
/// is an empty statement, and none stands in any `Group` of the tree.
pub proof fn lemma_program_nop_free(ts: Seq<SpecToken>, pos: int)
    ensures
        match sp_program(ts, pos) {
            Some(es) => forall|k: int|
                0 <= k < es.len() ==> (#[trigger] es[k] != SpecExpr::Nop && sp_nop_free(es[k])),
            None => true,
        },
    decreases ts.len() - pos, 5int,
{
    if pos >= ts.len() {
    } else {
        lemma_statement_nop_free(ts, pos);
        match sp_read_line(ts, pos) {
            None => {},
            Some((e, p)) => {
                if p > pos && p <= ts.len() {
                    lemma_program_nop_free(ts, p);
                    match sp_program(ts, p) {
                        None => {},
                        Some(rest) => {
                            if e != SpecExpr::Nop {
                                let es = seq![e] + rest;
                                assert forall|m: int| 0 <= m < es.len() implies (#[trigger] es[m]
                                    != SpecExpr::Nop && sp_nop_free(es[m])) by {
                                    if m == 0 {
                                        assert(es[0] == e);
                                    } else {
                                        assert(es[m] == rest[m - 1]);
                                    }
                                }
                            }
                        },
                    }
                }
            },
        }
    }
}


/// Idempotent semicolons at the top level: a semicolon before any statement
/// parses as an empty statement that the program discards, so inserting or
/// removing one at a top-level statement boundary leaves the tree unchanged.
pub proof fn lemma_top_level_semicolon_skipped(ts: Seq<SpecToken>, pos: int)
    requires
        0 <= pos < ts.len(),
        ts[pos] == SpecToken::Separator(Separator::Semicolon),
    ensures
        sp_read_line(ts, pos) == Some((SpecExpr::Nop, pos + 1)),
        sp_program(ts, pos) == sp_program(ts, pos + 1),
{
}


/// The eight operators that may stand at the top of an assignment
/// statement and nowhere else in a tree.
pub open spec fn is_assign_token_op(op: Operator) -> bool {
    op == Operator::Assign || op == Operator::AssignAdd || op == Operator::AssignSubtract || op
        == Operator::AssignMultiply || op == Operator::AssignDivide || op
        == Operator::AssignBinaryAnd || op == Operator::AssignBinaryOr || op
        == Operator::AssignBinaryXor
}

/// No binary node of the tree carries an assignment operator.
pub open spec fn sp_assign_free(e: SpecExpr) -> bool
    decreases e,
{
    match e {
        SpecExpr::Unary(op, c) => sp_assign_free(*c),
        SpecExpr::Binary(op, l, r) => !is_assign_token_op(op) && sp_assign_free(*l)
            && sp_assign_free(*r),
        SpecExpr::DoUntil(c, b) => sp_assign_free(*c) && sp_assign_free(*b),
        SpecExpr::For(a, b, c, d) => sp_assign_free(*a) && sp_assign_free(*b) && sp_assign_free(*c)
            && sp_assign_free(*d),
        SpecExpr::Function(name, ps) => forall|k: int|
            0 <= k < ps.len() ==> sp_assign_free(#[trigger] ps[k]),
        SpecExpr::Group(cs) => forall|k: int|
            0 <= k < cs.len() ==> sp_assign_free(#[trigger] cs[k]),
        SpecExpr::If(c, b, eb) => sp_assign_free(*c) && sp_assign_free(*b) && match eb {
            Some(e2) => sp_assign_free(*e2),
            None => true,
        },
        SpecExpr::Repeat(c, b) => sp_assign_free(*c) && sp_assign_free(*b),
        SpecExpr::Switch(c, b) => sp_assign_free(*c) && sp_assign_free(*b),
        SpecExpr::With(c, b) => sp_assign_free(*c) && sp_assign_free(*b),
        SpecExpr::While(c, b) => sp_assign_free(*c) && sp_assign_free(*b),
        SpecExpr::Case(c) => sp_assign_free(*c),
        SpecExpr::Return(c) => sp_assign_free(*c),
        _ => true,
    }
}

proof fn af_btree(ts: Seq<SpecToken>, pos: int)
    ensures
        match sp_read_btree_expression(ts, pos) {
            Some((e, p)) => sp_assign_free(e),
            None => true,
        },
    decreases ts.len() - pos, 0int,
{
    if pos < 0 || pos >= ts.len() {
    } else {
        match ts[pos] {
            SpecToken::Separator(Separator::ParenLeft) => {
                af_rbt(ts, pos + 1, false, 0);
                match sp_read_binary_tree(ts, pos + 1, false, 0) {
                    None => {},
                    Some((e, p, trailing)) => {
                        if p < ts.len() && ts[p] == SpecToken::Separator(Separator::ParenRight)
                            && trailing is None && p + 1 > pos && p + 1 <= ts.len() {
                            af_postfix(ts, p + 1, e);
                        }
                    },
                }
            },
            SpecToken::Operator(op) => {
                if op == Operator::Add || op == Operator::Subtract || op == Operator::Not || op
                    == Operator::Complement {
                    af_btree(ts, pos + 1);
                    match sp_read_btree_expression(ts, pos + 1) {
                        None => {},
                        Some((child, p)) => {
                            if p > pos && p <= ts.len() {
                                af_postfix(ts, p, SpecExpr::Unary(op, Box::new(child)));
                            }
                        },
                    }
                }
            },
            SpecToken::Identifier(id) => {
                if pos + 1 < ts.len() && ts[pos + 1] == SpecToken::Separator(Separator::ParenLeft) {
                    af_fc(ts, pos + 1, id);
                    match sp_read_function_call(ts, pos + 1, id) {
                        None => {},
                        Some((e, p)) => {
                            if p > pos && p <= ts.len() {
                                af_postfix(ts, p, e);
                            }
                        },
                    }
                } else {
                    af_postfix(ts, pos + 1, SpecExpr::LiteralIdentifier(id));
                }
            },
            SpecToken::Real(t) => {
                af_postfix(ts, pos + 1, SpecExpr::LiteralReal(t));
            },
            SpecToken::Str(t) => {
                af_postfix(ts, pos + 1, SpecExpr::LiteralString(t));
            },
            _ => {},
        }
    }
}

proof fn af_postfix(ts: Seq<SpecToken>, pos: int, lhs: SpecExpr)
    requires
        sp_assign_free(lhs),
    ensures
        match sp_postfix(ts, pos, lhs) {
            Some((e, p)) => sp_assign_free(e),
            None => true,
        },
    decreases ts.len() - pos, 0int,
{
    if pos < 0 || pos >= ts.len() {
    } else if ts[pos] == SpecToken::Separator(Separator::BracketLeft) {
        if pos + 1 < ts.len() && ts[pos + 1] == SpecToken::Separator(Separator::BracketRight) {
            let g = SpecExpr::Group(Seq::<SpecExpr>::empty());
            assert(sp_assign_free(g));
            let node = SpecExpr::Binary(Operator::Index, Box::new(lhs), Box::new(g));
            assert(sp_assign_free(node));
            af_postfix(ts, pos + 2, node);
        } else {
            af_dims(ts, pos + 1, Seq::empty());
            match sp_read_dims(ts, pos + 1, Seq::empty()) {
                None => {},
                Some((ds, p)) => {
                    let g = SpecExpr::Group(ds);
                    assert(sp_assign_free(g));
                    let node = SpecExpr::Binary(Operator::Index, Box::new(lhs), Box::new(g));
                    assert(sp_assign_free(node));
                    if p > pos && p <= ts.len() {
                        af_postfix(ts, p, node);
                    }
                },
            }
        }
    } else if ts[pos] == SpecToken::Separator(Separator::Period) {
        if pos + 1 < ts.len() && (ts[pos + 1] matches SpecToken::Identifier(_)) {
            let leaf = SpecExpr::LiteralIdentifier(ts[pos + 1]->Identifier_0);
            assert(sp_assign_free(leaf));
            let node = SpecExpr::Binary(Operator::Deref, Box::new(lhs), Box::new(leaf));
            assert(sp_assign_free(node));
            af_postfix(ts, pos + 2, node);
        }
    } else {
    }
}

proof fn af_dims(ts: Seq<SpecToken>, pos: int, acc: Seq<SpecExpr>)
    requires
        forall|k: int| 0 <= k < acc.len() ==> sp_assign_free(#[trigger] acc[k]),
    ensures
        match sp_read_dims(ts, pos, acc) {
            Some((ds, p)) => forall|k: int| 0 <= k < ds.len() ==> sp_assign_free(#[trigger] ds[k]),
            None => true,
        },
    decreases ts.len() - pos, 2int,
{
    af_rbt(ts, pos, false, 0);
    match sp_read_binary_tree(ts, pos, false, 0) {
        None => {},
        Some((d, p, trailing)) => {
            if trailing is None {
                let acc2 = acc.push(d);
                assert(forall|k: int| 0 <= k < acc2.len() ==> sp_assign_free(#[trigger] acc2[k]));
                if 0 <= p < ts.len() && ts[p] == SpecToken::Separator(Separator::Comma) && !(p + 1
                    < ts.len() && ts[p + 1] == SpecToken::Separator(Separator::BracketRight)) && p
                    + 1 > pos {
                    af_dims(ts, p + 1, acc2);
                }
            }
        },
    }
}

proof fn af_params(ts: Seq<SpecToken>, pos: int, acc: Seq<SpecExpr>)
    requires
        forall|k: int| 0 <= k < acc.len() ==> sp_assign_free(#[trigger] acc[k]),
    ensures
        match sp_read_params(ts, pos, acc) {
            Some((ds, p)) => forall|k: int| 0 <= k < ds.len() ==> sp_assign_free(#[trigger] ds[k]),
            None => true,
        },
    decreases ts.len() - pos, 2int,
{
    af_rbt(ts, pos, false, 0);
    match sp_read_binary_tree(ts, pos, false, 0) {
        None => {},
        Some((d, p, trailing)) => {
            if trailing is None {
                let acc2 = acc.push(d);
                assert(forall|k: int| 0 <= k < acc2.len() ==> sp_assign_free(#[trigger] acc2[k]));
                if 0 <= p < ts.len() && ts[p] == SpecToken::Separator(Separator::Comma) && !(p + 1
                    < ts.len() && ts[p + 1] == SpecToken::Separator(Separator::ParenRight)) && p
                    + 1 > pos {
                    af_params(ts, p + 1, acc2);
                }
            }
        },
    }
}

proof fn af_fc(ts: Seq<SpecToken>, pos: int, name: Seq<char>)
    ensures
        match sp_read_function_call(ts, pos, name) {
            Some((e, p)) => sp_assign_free(e),
            None => true,
        },
    decreases ts.len() - pos, 0int,
{
    if 0 <= pos < ts.len() && ts[pos] == SpecToken::Separator(Separator::ParenLeft) {
        if pos + 1 < ts.len() && ts[pos + 1] == SpecToken::Separator(Separator::ParenRight) {
        } else {
            af_params(ts, pos + 1, Seq::empty());
        }
    }
}

proof fn af_fold(ts: Seq<SpecToken>, pos: int, lhs: SpecExpr, op: Operator, lp: u8)
    requires
        sp_assign_free(lhs),
        !is_assign_token_op(op),
    ensures
        match sp_fold(ts, pos, lhs, op, false, lp) {
            Some((e, p, t)) => sp_assign_free(e),
            None => true,
        },
    decreases ts.len() - pos, 2int,
{
    match spec_op_precedence(op) {
        Some(prec) => {
            if prec >= lp {
                af_rbt(ts, pos, false, (prec + 1) as u8);
                match sp_read_binary_tree(ts, pos, false, (prec + 1) as u8) {
                    None => {},
                    Some((rhs, p, tr)) => {
                        let node = SpecExpr::Binary(op, Box::new(lhs), Box::new(rhs));
                        assert(sp_assign_free(node));
                        match tr {
                            Some(next_op) => {
                                match spec_op_precedence(next_op) {
                                    Some(np) => {
                                        if np >= lp && p > pos && p <= ts.len() {
                                            af_fold(ts, p, node, next_op, lp);
                                        }
                                    },
                                    None => {},
                                }
                            },
                            None => {},
                        }
                    },
                }
            }
        },
        None => {},
    }
}

/// The `=` disambiguation inside expressions: a tree read where no
/// assignment was expected holds no assignment operator anywhere; each `=`
/// in it became `Equal`.
pub proof fn lemma_expression_assign_free(ts: Seq<SpecToken>, pos: int, lp: u8)
    ensures
        match sp_read_binary_tree(ts, pos, false, lp) {
            Some((e, p, t)) => sp_assign_free(e),
            None => true,
        },
    decreases ts.len() - pos, 1int,
{
    af_rbt(ts, pos, false, lp);
}

proof fn af_rbt(ts: Seq<SpecToken>, pos: int, ea: bool, lp: u8)
    requires
        !ea,
    ensures
        match sp_read_binary_tree(ts, pos, ea, lp) {
            Some((e, p, t)) => sp_assign_free(e),
            None => true,
        },
    decreases ts.len() - pos, 1int,
{
    af_btree(ts, pos);
    match sp_read_btree_expression(ts, pos) {
        None => {},
        Some((lhs, p)) => {
            if p < ts.len() && (ts[p] matches SpecToken::Operator(_)) {
                let op0 = ts[p]->Operator_0;
                let op = if op0 == Operator::Assign && !ea {
                    Operator::Equal
                } else {
                    op0
                };
                if p + 1 > pos && p + 1 <= ts.len() {
                    if !is_assign_token_op(op) {
                        af_fold(ts, p + 1, lhs, op, lp);
                    } else {
                        af_fold_assign_none(ts, p + 1, lhs, op, lp);
                    }
                }
            }
        },
    }
}

proof fn af_fold_assign_none(ts: Seq<SpecToken>, pos: int, lhs: SpecExpr, op: Operator, lp: u8)
    requires
        is_assign_token_op(op),
    ensures
        sp_fold(ts, pos, lhs, op, false, lp) is None,
{
}


/// Every payload-carrying token of `ts` carries a slice of `src`.
pub open spec fn sp_payloads_sliced(ts: Seq<SpecToken>, src: Seq<char>) -> bool {
    forall|k: int| 0 <= k < ts.len() ==> #[trigger] token_payload_is_slice(ts[k], src)
}

/// Every identifier, number, string, call name and `var` name in the tree
/// is a slice of `src`.
pub open spec fn sp_leaves_sliced(e: SpecExpr, src: Seq<char>) -> bool
    decreases e,
{
    match e {
        SpecExpr::LiteralIdentifier(w) => is_source_slice(w, src),
        SpecExpr::LiteralReal(w) => is_source_slice(w, src),
        SpecExpr::LiteralString(w) => is_source_slice(w, src),
        SpecExpr::Unary(op, c) => sp_leaves_sliced(*c, src),
        SpecExpr::Binary(op, l, r) => sp_leaves_sliced(*l, src) && sp_leaves_sliced(*r, src),
        SpecExpr::DoUntil(c, b) => sp_leaves_sliced(*c, src) && sp_leaves_sliced(*b, src),
        SpecExpr::For(a, b, c, d) => sp_leaves_sliced(*a, src) && sp_leaves_sliced(*b, src)
            && sp_leaves_sliced(*c, src) && sp_leaves_sliced(*d, src),
        SpecExpr::Function(name, ps) => is_source_slice(name, src) && forall|k: int|
            0 <= k < ps.len() ==> sp_leaves_sliced(#[trigger] ps[k], src),
        SpecExpr::Group(cs) => forall|k: int|
            0 <= k < cs.len() ==> sp_leaves_sliced(#[trigger] cs[k], src),
        SpecExpr::If(c, b, eb) => sp_leaves_sliced(*c, src) && sp_leaves_sliced(*b, src) && match eb {
            Some(e2) => sp_leaves_sliced(*e2, src),
            None => true,
        },
        SpecExpr::Repeat(c, b) => sp_leaves_sliced(*c, src) && sp_leaves_sliced(*b, src),
        SpecExpr::Switch(c, b) => sp_leaves_sliced(*c, src) && sp_leaves_sliced(*b, src),
        SpecExpr::Var(names) => forall|k: int|
            0 <= k < names.len() ==> is_source_slice(#[trigger] names[k], src),
        SpecExpr::With(c, b) => sp_leaves_sliced(*c, src) && sp_leaves_sliced(*b, src),
        SpecExpr::While(c, b) => sp_leaves_sliced(*c, src) && sp_leaves_sliced(*b, src),
        SpecExpr::Case(c) => sp_leaves_sliced(*c, src),
        SpecExpr::Return(c) => sp_leaves_sliced(*c, src),
        _ => true,
    }
}

proof fn ls_btree(ts: Seq<SpecToken>, pos: int, src: Seq<char>)
    requires
        sp_payloads_sliced(ts, src),
    ensures
        match sp_read_btree_expression(ts, pos) {
            Some((e, p)) => sp_leaves_sliced(e, src),
            None => true,
        },
    decreases ts.len() - pos, 0int,
{
    if pos < 0 || pos >= ts.len() {
    } else {
        assert(token_payload_is_slice(ts[pos], src));
        match ts[pos] {
            SpecToken::Separator(Separator::ParenLeft) => {
                ls_rbt(ts, pos + 1, false, 0, src);
                match sp_read_binary_tree(ts, pos + 1, false, 0) {
                    None => {},
                    Some((e, p, trailing)) => {
                        if p < ts.len() && ts[p] == SpecToken::Separator(Separator::ParenRight)
                            && trailing is None && p + 1 > pos && p + 1 <= ts.len() {
                            ls_postfix(ts, p + 1, e, src);
                        }
                    },
                }
            },
            SpecToken::Operator(op) => {
                if op == Operator::Add || op == Operator::Subtract || op == Operator::Not || op
                    == Operator::Complement {
                    ls_btree(ts, pos + 1, src);
                    match sp_read_btree_expression(ts, pos + 1) {
                        None => {},
                        Some((child, p)) => {
                            if p > pos && p <= ts.len() {
                                ls_postfix(ts, p, SpecExpr::Unary(op, Box::new(child)), src);
                            }
                        },
                    }
                }
            },
            SpecToken::Identifier(id) => {
                if pos + 1 < ts.len() && ts[pos + 1] == SpecToken::Separator(Separator::ParenLeft) {
                    ls_fc(ts, pos + 1, id, src);
                    match sp_read_function_call(ts, pos + 1, id) {
                        None => {},
                        Some((e, p)) => {
                            if p > pos && p <= ts.len() {
                                ls_postfix(ts, p, e, src);
                            }
                        },
                    }
                } else {
                    ls_postfix(ts, pos + 1, SpecExpr::LiteralIdentifier(id), src);
                }
            },
            SpecToken::Real(t) => {
                ls_postfix(ts, pos + 1, SpecExpr::LiteralReal(t), src);
            },
            SpecToken::Str(t) => {
                ls_postfix(ts, pos + 1, SpecExpr::LiteralString(t), src);
            },
            _ => {},
        }
    }
}

proof fn ls_postfix(ts: Seq<SpecToken>, pos: int, lhs: SpecExpr, src: Seq<char>)
    requires
        sp_payloads_sliced(ts, src),
        sp_leaves_sliced(lhs, src),
    ensures
        match sp_postfix(ts, pos, lhs) {
            Some((e, p)) => sp_leaves_sliced(e, src),
            None => true,
        },
    decreases ts.len() - pos, 0int,
{
    if pos < 0 || pos >= ts.len() {
    } else if ts[pos] == SpecToken::Separator(Separator::BracketLeft) {
        if pos + 1 < ts.len() && ts[pos + 1] == SpecToken::Separator(Separator::BracketRight) {
            let g = SpecExpr::Group(Seq::<SpecExpr>::empty());
            assert(sp_leaves_sliced(g, src));
            let node = SpecExpr::Binary(Operator::Index, Box::new(lhs), Box::new(g));
            assert(sp_leaves_sliced(node, src));
            ls_postfix(ts, pos + 2, node, src);
        } else {
            ls_dims(ts, pos + 1, Seq::empty(), src);
            match sp_read_dims(ts, pos + 1, Seq::empty()) {
                None => {},
                Some((ds, p)) => {
                    let g = SpecExpr::Group(ds);
                    assert(sp_leaves_sliced(g, src));
                    let node = SpecExpr::Binary(Operator::Index, Box::new(lhs), Box::new(g));
                    assert(sp_leaves_sliced(node, src));
                    if p > pos && p <= ts.len() {
                        ls_postfix(ts, p, node, src);
                    }
                },
            }
        }
    } else if ts[pos] == SpecToken::Separator(Separator::Period) {
        if pos + 1 < ts.len() && (ts[pos + 1] matches SpecToken::Identifier(_)) {
            assert(token_payload_is_slice(ts[pos + 1], src));
            let leaf = SpecExpr::LiteralIdentifier(ts[pos + 1]->Identifier_0);
            assert(sp_leaves_sliced(leaf, src));
            let node = SpecExpr::Binary(Operator::Deref, Box::new(lhs), Box::new(leaf));
            assert(sp_leaves_sliced(node, src));
            ls_postfix(ts, pos + 2, node, src);
        }
    } else {
    }
}

proof fn ls_dims(ts: Seq<SpecToken>, pos: int, acc: Seq<SpecExpr>, src: Seq<char>)
    requires
        sp_payloads_sliced(ts, src),
        forall|k: int| 0 <= k < acc.len() ==> sp_leaves_sliced(#[trigger] acc[k], src),
    ensures
        match sp_read_dims(ts, pos, acc) {
            Some((ds, p)) => forall|k: int|
                0 <= k < ds.len() ==> sp_leaves_sliced(#[trigger] ds[k], src),
            None => true,
        },
    decreases ts.len() - pos, 2int,
{
    ls_rbt(ts, pos, false, 0, src);
    match sp_read_binary_tree(ts, pos, false, 0) {
        None => {},
        Some((d, p, trailing)) => {
            if trailing is None {
                let acc2 = acc.push(d);
                assert(forall|k: int|
                    0 <= k < acc2.len() ==> sp_leaves_sliced(#[trigger] acc2[k], src));
                if 0 <= p < ts.len() && ts[p] == SpecToken::Separator(Separator::Comma) && !(p + 1
                    < ts.len() && ts[p + 1] == SpecToken::Separator(Separator::BracketRight)) && p
                    + 1 > pos {
                    ls_dims(ts, p + 1, acc2, src);
                }
            }
        },
    }
}

proof fn ls_params(ts: Seq<SpecToken>, pos: int, acc: Seq<SpecExpr>, src: Seq<char>)
    requires
        sp_payloads_sliced(ts, src),
        forall|k: int| 0 <= k < acc.len() ==> sp_leaves_sliced(#[trigger] acc[k], src),
    ensures
        match sp_read_params(ts, pos, acc) {
            Some((ds, p)) => forall|k: int|
                0 <= k < ds.len() ==> sp_leaves_sliced(#[trigger] ds[k], src),
            None => true,
        },
    decreases ts.len() - pos, 2int,
{
    ls_rbt(ts, pos, false, 0, src);
    match sp_read_binary_tree(ts, pos, false, 0) {
        None => {},
        Some((d, p, trailing)) => {
            if trailing is None {
                let acc2 = acc.push(d);
                assert(forall|k: int|
                    0 <= k < acc2.len() ==> sp_leaves_sliced(#[trigger] acc2[k], src));
                if 0 <= p < ts.len() && ts[p] == SpecToken::Separator(Separator::Comma) && !(p + 1
                    < ts.len() && ts[p + 1] == SpecToken::Separator(Separator::ParenRight)) && p
                    + 1 > pos {
                    ls_params(ts, p + 1, acc2, src);
                }
            }
        },
    }
}

proof fn ls_fc(ts: Seq<SpecToken>, pos: int, name: Seq<char>, src: Seq<char>)
    requires
        sp_payloads_sliced(ts, src),
        is_source_slice(name, src),
    ensures
        match sp_read_function_call(ts, pos, name) {
            Some((e, p)) => sp_leaves_sliced(e, src),
            None => true,
        },
    decreases ts.len() - pos, 0int,
{
    if 0 <= pos < ts.len() && ts[pos] == SpecToken::Separator(Separator::ParenLeft) {
        if pos + 1 < ts.len() && ts[pos + 1] == SpecToken::Separator(Separator::ParenRight) {
        } else {
            ls_params(ts, pos + 1, Seq::empty(), src);
        }
    }
}

proof fn ls_fold(
    ts: Seq<SpecToken>,
    pos: int,
    lhs: SpecExpr,
    op: Operator,
    ea: bool,
    lp: u8,
    src: Seq<char>,
)
    requires
        sp_payloads_sliced(ts, src),
        sp_leaves_sliced(lhs, src),
    ensures
        match sp_fold(ts, pos, lhs, op, ea, lp) {
            Some((e, p, t)) => sp_leaves_sliced(e, src),
            None => true,
        },
    decreases ts.len() - pos, 2int,
{
    match spec_op_precedence(op) {
        Some(prec) => {
            if !ea && prec >= lp {
                ls_rbt(ts, pos, false, (prec + 1) as u8, src);
                match sp_read_binary_tree(ts, pos, false, (prec + 1) as u8) {
                    None => {},
                    Some((rhs, p, tr)) => {
                        let node = SpecExpr::Binary(op, Box::new(lhs), Box::new(rhs));
                        match tr {
                            Some(next_op) => {
                                match spec_op_precedence(next_op) {
                                    Some(np) => {
                                        if np >= lp && p > pos && p <= ts.len() {
                                            ls_fold(ts, p, node, next_op, false, lp, src);
                                        }
                                    },
                                    None => {},
                                }
                            },
                            None => {},
                        }
                    },
                }
            }
        },
        None => {
            if ea && op != Operator::Not && op != Operator::Complement {
                ls_rbt(ts, pos, false, lp, src);
            }
        },
    }
}

proof fn ls_rbt(ts: Seq<SpecToken>, pos: int, ea: bool, lp: u8, src: Seq<char>)
    requires
        sp_payloads_sliced(ts, src),
    ensures
        match sp_read_binary_tree(ts, pos, ea, lp) {
            Some((e, p, t)) => sp_leaves_sliced(e, src),
            None => true,
        },
    decreases ts.len() - pos, 1int,
{
    ls_btree(ts, pos, src);
    match sp_read_btree_expression(ts, pos) {
        None => {},
        Some((lhs, p)) => {
            if p < ts.len() && (ts[p] matches SpecToken::Operator(_)) {
                let op0 = ts[p]->Operator_0;
                let op = if op0 == Operator::Assign && !ea {
                    Operator::Equal
                } else {
                    op0
                };
                if p + 1 > pos && p + 1 <= ts.len() {
                    ls_fold(ts, p + 1, lhs, op, ea, lp, src);
                }
            }
        },
    }
}

proof fn ls_vars(ts: Seq<SpecToken>, pos: int, acc: Seq<Seq<char>>, src: Seq<char>)
    requires
        sp_payloads_sliced(ts, src),
        forall|k: int| 0 <= k < acc.len() ==> is_source_slice(#[trigger] acc[k], src),
    ensures
        ({
            let (names, p) = sp_read_vars(ts, pos, acc);
            forall|k: int| 0 <= k < names.len() ==> is_source_slice(#[trigger] names[k], src)
        }),
    decreases ts.len() - pos,
{
    if 0 <= pos < ts.len() && ts[pos] == SpecToken::Separator(Separator::Comma) {
        if pos + 1 < ts.len() && (ts[pos + 1] matches SpecToken::Identifier(_)) {
            assert(token_payload_is_slice(ts[pos + 1], src));
            let id = ts[pos + 1]->Identifier_0;
            let acc2 = acc.push(id);
            assert(forall|k: int| 0 <= k < acc2.len() ==> is_source_slice(#[trigger] acc2[k], src));
            ls_vars(ts, pos + 2, acc2, src);
            assert(sp_read_vars(ts, pos, acc) == sp_read_vars(ts, pos + 2, acc2));
        } else {
            assert(sp_read_vars(ts, pos, acc) == (acc, pos + 1));
        }
    } else {
        assert(sp_read_vars(ts, pos, acc) == (acc, pos));
    }
}

proof fn ls_stmt(ts: Seq<SpecToken>, pos: int, src: Seq<char>)
    requires
        sp_payloads_sliced(ts, src),
    ensures
        match sp_read_line(ts, pos) {
            Some((e, p)) => sp_leaves_sliced(e, src),
            None => true,
        },
    decreases ts.len() - pos, 3int,
{
    if pos < 0 || pos >= ts.len() {
    } else {
        assert(token_payload_is_slice(ts[pos], src));
        match ts[pos] {
            SpecToken::Keyword(k) => {
                match k {
                    Keyword::Var => {
                        if pos + 1 < ts.len() && (ts[pos + 1] matches SpecToken::Identifier(_)) {
                            assert(token_payload_is_slice(ts[pos + 1], src));
                            let first = ts[pos + 1]->Identifier_0;
                            let acc0 = seq![first];
                            assert(forall|m: int|
                                0 <= m < acc0.len() ==> is_source_slice(#[trigger] acc0[m], src));
                            ls_vars(ts, pos + 2, acc0, src);
                        }
                    },
                    Keyword::Do => {
                        ls_stmt_do(ts, pos + 1, src);
                    },
                    Keyword::If => {
                        ls_stmt_if(ts, pos + 1, src);
                    },
                    Keyword::For => {
                        ls_stmt_for(ts, pos + 1, src);
                    },
                    Keyword::Repeat => {
                        ls_stmt_headed(ts, pos + 1, k, src);
                    },
                    Keyword::Switch => {
                        ls_stmt_headed(ts, pos + 1, k, src);
                    },
                    Keyword::With => {
                        ls_stmt_headed(ts, pos + 1, k, src);
                    },
                    Keyword::While => {
                        ls_stmt_headed(ts, pos + 1, k, src);
                    },
                    Keyword::Case => {
                        ls_rbt(ts, pos + 1, false, 0, src);
                    },
                    Keyword::Return => {
                        ls_rbt(ts, pos + 1, false, 0, src);
                    },
                    _ => {},
                }
            },
            SpecToken::Identifier(id) => {
                if pos + 1 >= ts.len() {
                } else if ts[pos + 1] == SpecToken::Separator(Separator::ParenLeft) {
                    ls_fc(ts, pos + 1, id, src);
                } else {
                    ls_rbt(ts, pos, true, 0, src);
                }
            },
            SpecToken::Separator(Separator::BraceLeft) => {
                ls_group(ts, pos + 1, Seq::empty(), src);
            },
            SpecToken::Separator(Separator::ParenLeft) => {
                ls_rbt(ts, pos, true, 0, src);
            },
            _ => {},
        }
    }
}

proof fn ls_stmt_do(ts: Seq<SpecToken>, pos: int, src: Seq<char>)
    requires
        sp_payloads_sliced(ts, src),
    ensures
        match sp_stmt_do(ts, pos) {
            Some((e, p)) => sp_leaves_sliced(e, src),
            None => true,
        },
    decreases ts.len() - pos, 4int,
{
    ls_stmt(ts, pos, src);
    match sp_read_line(ts, pos) {
        None => {},
        Some((body, p)) => {
            if p < ts.len() && ts[p] == SpecToken::Keyword(Keyword::Until) && p + 1 > pos && p + 1
                <= ts.len() {
                ls_rbt(ts, p + 1, false, 0, src);
            }
        },
    }
}

proof fn ls_stmt_if(ts: Seq<SpecToken>, pos: int, src: Seq<char>)
    requires
        sp_payloads_sliced(ts, src),
    ensures
        match sp_stmt_if(ts, pos) {
            Some((e, p)) => sp_leaves_sliced(e, src),
            None => true,
        },
    decreases ts.len() - pos, 4int,
{
    ls_rbt(ts, pos, false, 0, src);
    match sp_read_binary_tree(ts, pos, false, 0) {
        None => {},
        Some((cond, p0, tr)) => {
            if tr is None {
                let p1 = if p0 < ts.len() && ts[p0] == SpecToken::Separator(Separator::Then) {
                    p0 + 1
                } else {
                    p0
                };
                if pos <= p1 <= ts.len() {
                    ls_stmt(ts, p1, src);
                    match sp_read_line(ts, p1) {
                        None => {},
                        Some((body, p2)) => {
                            if p2 < ts.len() && ts[p2] == SpecToken::Keyword(Keyword::Else) && pos
                                <= p2 + 1 <= ts.len() {
                                ls_stmt(ts, p2 + 1, src);
                            }
                        },
                    }
                }
            }
        },
    }
}

proof fn ls_stmt_for(ts: Seq<SpecToken>, pos: int, src: Seq<char>)
    requires
        sp_payloads_sliced(ts, src),
    ensures
        match sp_stmt_for(ts, pos) {
            Some((e, p)) => sp_leaves_sliced(e, src),
            None => true,
        },
    decreases ts.len() - pos, 4int,
{
    if 0 <= pos < ts.len() && ts[pos] == SpecToken::Separator(Separator::ParenLeft) {
        ls_stmt(ts, pos + 1, src);
        match sp_read_line(ts, pos + 1) {
            None => {},
            Some((start, p0)) => {
                let p1 = if p0 < ts.len() && ts[p0] == SpecToken::Separator(Separator::Semicolon) {
                    p0 + 1
                } else {
                    p0
                };
                if pos <= p1 <= ts.len() {
                    ls_rbt(ts, p1, false, 0, src);
                    match sp_read_binary_tree(ts, p1, false, 0) {
                        None => {},
                        Some((cond, p2, tr)) => {
                            if tr is None {
                                let p3 = if p2 < ts.len() && ts[p2] == SpecToken::Separator(
                                    Separator::Semicolon,
                                ) {
                                    p2 + 1
                                } else {
                                    p2
                                };
                                if pos <= p3 <= ts.len() {
                                    ls_stmt(ts, p3, src);
                                    match sp_read_line(ts, p3) {
                                        None => {},
                                        Some((step, p4)) => {
                                            let p5 = sp_skip_semis(ts, p4);
                                            if p5 < ts.len() && ts[p5] == SpecToken::Separator(
                                                Separator::ParenRight,
                                            ) && pos <= p5 + 1 <= ts.len() {
                                                ls_stmt(ts, p5 + 1, src);
                                            }
                                        },
                                    }
                                }
                            }
                        },
                    }
                }
            },
        }
    }
}

proof fn ls_stmt_headed(ts: Seq<SpecToken>, pos: int, kw: Keyword, src: Seq<char>)
    requires
        sp_payloads_sliced(ts, src),
    ensures
        match sp_stmt_headed(ts, pos, kw) {
            Some((e, p)) => sp_leaves_sliced(e, src),
            None => true,
        },
    decreases ts.len() - pos, 4int,
{
    ls_rbt(ts, pos, false, 0, src);
    match sp_read_binary_tree(ts, pos, false, 0) {
        None => {},
        Some((e, p, tr)) => {
            if tr is None && pos <= p <= ts.len() {
                ls_stmt(ts, p, src);
            }
        },
    }
}

proof fn ls_group(ts: Seq<SpecToken>, pos: int, acc: Seq<SpecExpr>, src: Seq<char>)
    requires
        sp_payloads_sliced(ts, src),
        forall|k: int| 0 <= k < acc.len() ==> sp_leaves_sliced(#[trigger] acc[k], src),
    ensures
        match sp_read_group(ts, pos, acc) {
            Some((e, p)) => sp_leaves_sliced(e, src),
            None => true,
        },
    decreases ts.len() - pos, 5int,
{
    if pos < 0 || pos >= ts.len() {
    } else if ts[pos] == SpecToken::Separator(Separator::BraceRight) {
    } else {
        ls_stmt(ts, pos, src);
        match sp_read_line(ts, pos) {
            None => {},
            Some((e, p)) => {
                if p > pos && p <= ts.len() {
                    if e == SpecExpr::Nop {
                        ls_group(ts, p, acc, src);
                    } else {
                        let acc2 = acc.push(e);
                        assert(forall|k: int|
                            0 <= k < acc2.len() ==> sp_leaves_sliced(#[trigger] acc2[k], src));
                        ls_group(ts, p, acc2, src);
                    }
                }
            },
        }
    }
}

proof fn ls_program(ts: Seq<SpecToken>, pos: int, src: Seq<char>)
    requires
        sp_payloads_sliced(ts, src),
    ensures
        match sp_program(ts, pos) {
            Some(es) => forall|k: int|
                0 <= k < es.len() ==> sp_leaves_sliced(#[trigger] es[k], src),
            None => true,
        },
    decreases ts.len() - pos, 5int,
{
    if pos >= ts.len() {
    } else {
        ls_stmt(ts, pos, src);
        match sp_read_line(ts, pos) {
            None => {},
            Some((e, p)) => {
                if p > pos && p <= ts.len() {
                    ls_program(ts, p, src);
                    match sp_program(ts, p) {
                        None => {},
                        Some(rest) => {
                            if e != SpecExpr::Nop {
                                let es = seq![e] + rest;
                                assert forall|m: int| 0 <= m < es.len() implies sp_leaves_sliced(
                                    #[trigger] es[m],
                                    src,
                                ) by {
                                    if m == 0 {
                                        assert(es[0] == e);
                                    } else {
                                        assert(es[m] == rest[m - 1]);
                                    }
                                }
                            }
                        },
                    }
                }
            },
        }
    }
}

/// Lifetime discipline for the whole parse: every identifier, number,
/// string, call name and `var` name in a parsed tree is a slice of the
/// source text.
pub proof fn lemma_parse_leaves_are_slices(src: Seq<char>)
    ensures
        match crate::parser::sp_parse(src) {
            Some(es) => forall|k: int|
                0 <= k < es.len() ==> sp_leaves_sliced(#[trigger] es[k], src),
            None => true,
        },
{
    match sp_lex_from(src, 0) {
        Some(tv) => {
            lemma_lex_payloads_are_slices(src, 0);
            ls_program(tv, 0, src);
        },
        None => {},
    }
}


/// Precedence and associativity over arbitrary atoms: when `ts` reads as
/// atom `a`, a ranked operator `op1`, atom `b`, a ranked operator `op2` and
/// atom `c` with nothing following, `op2` binds tighter exactly when its
/// precedence is higher, and equal or lower precedence associates to the
/// left.
pub proof fn lemma_precedence_associativity_atoms(
    ts: Seq<SpecToken>,
    a: SpecExpr,
    b: SpecExpr,
    c: SpecExpr,
    i: int,
    j: int,
    k: int,
    op1: Operator,
    op2: Operator,
    p1: u8,
    p2: u8,
)
    requires
        spec_op_precedence(op1) == Some(p1),
        spec_op_precedence(op2) == Some(p2),
        sp_read_btree_expression(ts, 0) == Some((a, i)),
        0 <= i < ts.len(),
        ts[i] == SpecToken::Operator(op1),
        sp_read_btree_expression(ts, i + 1) == Some((b, j)),
        i < j < ts.len(),
        ts[j] == SpecToken::Operator(op2),
        sp_read_btree_expression(ts, j + 1) == Some((c, k)),
        k >= ts.len() || !(ts[k] matches SpecToken::Operator(_)),
    ensures
        sp_read_binary_tree(ts, 0, false, 0) == Some(
            (
                if p2 > p1 {
                    SpecExpr::Binary(
                        op1,
                        Box::new(a),
                        Box::new(SpecExpr::Binary(op2, Box::new(b), Box::new(c))),
                    )
                } else {
                    SpecExpr::Binary(
                        op2,
                        Box::new(SpecExpr::Binary(op1, Box::new(a), Box::new(b))),
                        Box::new(c),
                    )
                },
                k,
                None::<Operator>,
            ),
        ),
{
    assert(sp_read_binary_tree(ts, j + 1, false, (p2 + 1) as u8) == Some(
        (c, k, None::<Operator>),
    ));
    if p2 > p1 {
        assert(sp_fold(ts, j + 1, b, op2, false, (p1 + 1) as u8) == Some(
            (SpecExpr::Binary(op2, Box::new(b), Box::new(c)), k, None::<Operator>),
        ));
        assert(sp_read_binary_tree(ts, i + 1, false, (p1 + 1) as u8) == Some(
            (SpecExpr::Binary(op2, Box::new(b), Box::new(c)), k, None::<Operator>),
        ));
        assert(sp_fold(ts, i + 1, a, op1, false, 0) == Some(
            (
                SpecExpr::Binary(
                    op1,
                    Box::new(a),
                    Box::new(SpecExpr::Binary(op2, Box::new(b), Box::new(c))),
                ),
                k,
                None::<Operator>,
            ),
        ));
    } else {
        assert(sp_fold(ts, j + 1, b, op2, false, (p1 + 1) as u8) == Some(
            (b, j + 1, Some(op2)),
        ));
        assert(sp_read_binary_tree(ts, i + 1, false, (p1 + 1) as u8) == Some(
            (b, j + 1, Some(op2)),
        ));
        let lhs2 = SpecExpr::Binary(op1, Box::new(a), Box::new(b));
        assert(sp_fold(ts, j + 1, lhs2, op2, false, 0) == Some(
            (SpecExpr::Binary(op2, Box::new(lhs2), Box::new(c)), k, None::<Operator>),
        ));
        assert(sp_fold(ts, i + 1, a, op1, false, 0) == Some(
            (SpecExpr::Binary(op2, Box::new(lhs2), Box::new(c)), k, None::<Operator>),
        ));
    }
    assert(sp_read_binary_tree(ts, 0, false, 0) == sp_fold(ts, i + 1, a, op1, false, 0));
}

/// Idempotent semicolons inside a brace group: a semicolon at any statement
/// boundary of the group parses as an empty statement the group discards,
/// so inserting or removing one there leaves the tree unchanged.
pub proof fn lemma_group_semicolon_skipped(ts: Seq<SpecToken>, pos: int, acc: Seq<SpecExpr>)
    requires
        0 <= pos < ts.len(),
        ts[pos] == SpecToken::Separator(Separator::Semicolon),
    ensures
        sp_read_group(ts, pos, acc) == sp_read_group(ts, pos + 1, acc),
{
    assert(ts[pos] != SpecToken::Separator(Separator::BraceRight));
    assert(sp_read_line(ts, pos) == Some((SpecExpr::Nop, pos + 1)));
}

} // verus!
