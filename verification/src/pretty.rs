//! The canonical rendering of a tree: one s-expression per node, the form
//! the tests compare against. `sp_render` defines the text mathematically;
//! `Expr::render` returns exactly that text.
use vstd::prelude::*;

use crate::ast::{Expr, SpecExpr, exprs_view, lemma_exprs_view_index, lemma_exprs_view_len};
use crate::token::Operator;

verus! {

/// The textual name of an operator in rendered trees.
pub open spec fn sp_op_text(op: Operator) -> Seq<char> {
    match op {
        Operator::Add => "+"@,
        Operator::Subtract => "-"@,
        Operator::Multiply => "*"@,
        Operator::Divide => "/"@,
        Operator::IntDivide => "div"@,
        Operator::Modulo => "mod"@,
        Operator::BinaryAnd => "&"@,
        Operator::BinaryOr => "|"@,
        Operator::BinaryXor => "^"@,
        Operator::BinaryShiftLeft => "<<"@,
        Operator::BinaryShiftRight => ">>"@,
        Operator::And => "&&"@,
        Operator::Or => "||"@,
        Operator::Xor => "^^"@,
        Operator::Equal => "=="@,
        Operator::NotEqual => "!="@,
        Operator::LessThan => "<"@,
        Operator::GreaterThan => ">"@,
        Operator::LessThanOrEqual => "<="@,
        Operator::GreaterThanOrEqual => ">="@,
        Operator::Assign => "="@,
        Operator::AssignAdd => "+="@,
        Operator::AssignSubtract => "-="@,
        Operator::AssignMultiply => "*="@,
        Operator::AssignDivide => "/="@,
        Operator::AssignBinaryAnd => "&="@,
        Operator::AssignBinaryOr => "|="@,
        Operator::AssignBinaryXor => "^="@,
        Operator::Not => "!"@,
        Operator::Complement => "~"@,
        Operator::Deref => "."@,
        Operator::Index => "Index"@,
    }
}

/// The rendered text of one node: literals as themselves, strings quoted,
/// `(op child)` and `(op left right)` for operators, each compound form in
/// its keyword-led parenthesis, groups in angle brackets with empty
/// statements omitted, and the empty statement as the empty string.
pub open spec fn sp_render(e: SpecExpr) -> Seq<char>
    decreases e, 1int,
{
    match e {
        SpecExpr::LiteralIdentifier(s) => s,
        SpecExpr::LiteralReal(s) => s,
        SpecExpr::LiteralString(s) => "\""@ + s + "\""@,
        SpecExpr::Unary(op, c) => "("@ + sp_op_text(op) + " "@ + sp_render(*c) + ")"@,
        SpecExpr::Binary(op, l, r) => "("@ + sp_op_text(op) + " "@ + sp_render(*l) + " "@
            + sp_render(*r) + ")"@,
        SpecExpr::DoUntil(cond, body) => "(do "@ + sp_render(*body) + " until "@ + sp_render(*cond)
            + ")"@,
        SpecExpr::For(st, c, stp, b) => "(for ("@ + sp_render(*st) + ", "@ + sp_render(*c) + ", "@
            + sp_render(*stp) + ") "@ + sp_render(*b) + ")"@,
        SpecExpr::Function(name, ps) => "(@"@ + name + sp_render_params(ps, ps.len() as int)
            + ")"@,
        SpecExpr::Group(cs) => "<"@ + sp_render_group(cs, cs.len() as int) + ">"@,
        SpecExpr::If(c, b, eb) => match eb {
            Some(e2) => "(if "@ + sp_render(*c) + " "@ + sp_render(*b) + " "@ + sp_render(*e2)
                + ")"@,
            None => "(if "@ + sp_render(*c) + " "@ + sp_render(*b) + ")"@,
        },
        SpecExpr::Repeat(c, b) => "(repeat "@ + sp_render(*c) + " "@ + sp_render(*b) + ")"@,
        SpecExpr::Switch(i, b) => "(switch "@ + sp_render(*i) + " "@ + sp_render(*b) + ")"@,
        SpecExpr::Var(names) => "(var"@ + sp_render_vars(names, names.len() as int) + ")"@,
        SpecExpr::With(t, b) => "(with "@ + sp_render(*t) + " "@ + sp_render(*b) + ")"@,
        SpecExpr::While(c, b) => "(while "@ + sp_render(*c) + " "@ + sp_render(*b) + ")"@,
        SpecExpr::Case(c) => "(case "@ + sp_render(*c) + ")"@,
        SpecExpr::Default => "(default)"@,
        SpecExpr::Continue => "(continue)"@,
        SpecExpr::Break => "(break)"@,
        SpecExpr::Exit => "(exit)"@,
        SpecExpr::Return(c) => "(return "@ + sp_render(*c) + ")"@,
        SpecExpr::Nop => Seq::empty(),
    }
}

/// The first `n` members of a group, empty statements omitted, joined with
/// a comma and a space: no leading or trailing separator.
pub open spec fn sp_render_group(s: Seq<SpecExpr>, n: int) -> Seq<char>
    decreases s, n,
{
    if n <= 0 || n > s.len() {
        Seq::empty()
    } else {
        let rest = sp_render_group(s, n - 1);
        if s[n - 1] == SpecExpr::Nop {
            rest
        } else if rest.len() == 0 {
            sp_render(s[n - 1])
        } else {
            rest + ", "@ + sp_render(s[n - 1])
        }
    }
}

/// The first `n` parameters of a call, empty ones omitted, each preceded by
/// a space.
pub open spec fn sp_render_params(s: Seq<SpecExpr>, n: int) -> Seq<char>
    decreases s, n,
{
    if n <= 0 || n > s.len() {
        Seq::empty()
    } else {
        let rest = sp_render_params(s, n - 1);
        if s[n - 1] == SpecExpr::Nop {
            rest
        } else {
            rest + " "@ + sp_render(s[n - 1])
        }
    }
}

/// The first `n` names of a `var` statement, each preceded by a space.
pub open spec fn sp_render_vars(names: Seq<Seq<char>>, n: int) -> Seq<char>
    decreases n,
{
    if n <= 0 || n > names.len() {
        Seq::empty()
    } else {
        sp_render_vars(names, n - 1) + " "@ + names[n - 1]
    }
}

fn op_text(op: Operator) -> (r: &'static str)
    ensures
        r@ == sp_op_text(op),
{
    match op {
        Operator::Add => "+",
        Operator::Subtract => "-",
        Operator::Multiply => "*",
        Operator::Divide => "/",
        Operator::IntDivide => "div",
        Operator::Modulo => "mod",
        Operator::BinaryAnd => "&",
        Operator::BinaryOr => "|",
        Operator::BinaryXor => "^",
        Operator::BinaryShiftLeft => "<<",
        Operator::BinaryShiftRight => ">>",
        Operator::And => "&&",
        Operator::Or => "||",
        Operator::Xor => "^^",
        Operator::Equal => "==",
        Operator::NotEqual => "!=",
        Operator::LessThan => "<",
        Operator::GreaterThan => ">",
        Operator::LessThanOrEqual => "<=",
        Operator::GreaterThanOrEqual => ">=",
        Operator::Assign => "=",
        Operator::AssignAdd => "+=",
        Operator::AssignSubtract => "-=",
        Operator::AssignMultiply => "*=",
        Operator::AssignDivide => "/=",
        Operator::AssignBinaryAnd => "&=",
        Operator::AssignBinaryOr => "|=",
        Operator::AssignBinaryXor => "^=",
        Operator::Not => "!",
        Operator::Complement => "~",
        Operator::Deref => ".",
        Operator::Index => "Index",
    }
}

/// Whether a node is the empty statement.
fn expr_is_nop(e: &Expr) -> (b: bool)
    ensures
        b <==> e@ == SpecExpr::Nop,
{
    matches!(e, Expr::Nop)
}

fn cat3(a: &str, b: &str, c: &str) -> (r: String)
    ensures
        r@ == a@ + b@ + c@,
{
    let mut s = String::from_str(a);
    s.append(b);
    s.append(c);
    s
}

fn cat4(a: &str, b: &str, c: &str, d: &str) -> (r: String)
    ensures
        r@ == a@ + b@ + c@ + d@,
{
    let mut s = String::from_str(a);
    s.append(b);
    s.append(c);
    s.append(d);
    s
}

fn cat5(a: &str, b: &str, c: &str, d: &str, e: &str) -> (r: String)
    ensures
        r@ == a@ + b@ + c@ + d@ + e@,
{
    let mut s = String::from_str(a);
    s.append(b);
    s.append(c);
    s.append(d);
    s.append(e);
    s
}

fn cat7(a: &str, b: &str, c: &str, d: &str, e: &str, f: &str, g: &str) -> (r: String)
    ensures
        r@ == a@ + b@ + c@ + d@ + e@ + f@ + g@,
{
    let mut s = String::from_str(a);
    s.append(b);
    s.append(c);
    s.append(d);
    s.append(e);
    s.append(f);
    s.append(g);
    s
}

fn cat9(
    a: &str,
    b: &str,
    c: &str,
    d: &str,
    e: &str,
    f: &str,
    g: &str,
    h: &str,
    i: &str,
) -> (r: String)
    ensures
        r@ == a@ + b@ + c@ + d@ + e@ + f@ + g@ + h@ + i@,
{
    let mut s = String::from_str(a);
    s.append(b);
    s.append(c);
    s.append(d);
    s.append(e);
    s.append(f);
    s.append(g);
    s.append(h);
    s.append(i);
    s
}

fn render_group_items(v: &Vec<Expr>) -> (r: String)
    ensures
        r@ == sp_render_group(exprs_view(v@), v@.len() as int),
    decreases v, 2int,
{
    let mut s = String::from_str("");
    proof {
        reveal_strlit("");
        assert(""@ =~= Seq::<char>::empty());
    }
    let mut i: usize = 0;
    while i < v.len()
        invariant
            i <= v@.len(),
            s@ == sp_render_group(exprs_view(v@), i as int),
        decreases v@.len() - i,
    {
        proof {
            lemma_exprs_view_len(v@);
            lemma_exprs_view_index(v@, i as int);
        }
        if !expr_is_nop(&v[i]) {
            let piece = v[i].render();
            if s.as_str().unicode_len() == 0 {
                proof {
                    assert(Seq::<char>::empty() + piece@ =~= piece@);
                }
                s = s.concat(piece.as_str());
            } else {
                s.append(", ");
                s.append(piece.as_str());
            }
        }
        i = i + 1;
    }
    proof {
        lemma_exprs_view_len(v@);
    }
    s
}

fn render_param_items(v: &Vec<Expr>) -> (r: String)
    ensures
        r@ == sp_render_params(exprs_view(v@), v@.len() as int),
    decreases v, 2int,
{
    let mut s = String::from_str("");
    proof {
        reveal_strlit("");
        assert(""@ =~= Seq::<char>::empty());
    }
    let mut i: usize = 0;
    while i < v.len()
        invariant
            i <= v@.len(),
            s@ == sp_render_params(exprs_view(v@), i as int),
        decreases v@.len() - i,
    {
        proof {
            lemma_exprs_view_len(v@);
            lemma_exprs_view_index(v@, i as int);
        }
        if !expr_is_nop(&v[i]) {
            let piece = v[i].render();
            s.append(" ");
            s.append(piece.as_str());
        }
        i = i + 1;
    }
    proof {
        lemma_exprs_view_len(v@);
    }
    s
}

fn render_var_names(v: &Vec<String>) -> (r: String)
    ensures
        r@ == sp_render_vars(v@.map_values(|t: String| t@), v@.len() as int),
{
    let mut s = String::from_str("");
    proof {
        reveal_strlit("");
        assert(""@ =~= Seq::<char>::empty());
    }
    let mut i: usize = 0;
    while i < v.len()
        invariant
            i <= v@.len(),
            s@ == sp_render_vars(v@.map_values(|t: String| t@), i as int),
        decreases v@.len() - i,
    {
        s.append(" ");
        s.append(v[i].as_str());
        i = i + 1;
    }
    s
}

impl Expr {
    /// The canonical text of this node: exactly what `sp_render` names.
    #[verifier::rlimit(50)]
    pub fn render(&self) -> (r: String)
        ensures
            r@ == sp_render(self@),
        decreases self, 1int,
    {
        match self {
            Expr::LiteralIdentifier(s) => String::from_str(s.as_str()),
            Expr::LiteralReal(s) => String::from_str(s.as_str()),
            Expr::LiteralString(s) => cat3("\"", s.as_str(), "\""),
            Expr::Unary(u) => {
                let c = u.child.render();
                cat5("(", op_text(u.op), " ", c.as_str(), ")")
            },
            Expr::Binary(b) => {
                let l = b.left.render();
                let rr = b.right.render();
                cat7("(", op_text(b.op), " ", l.as_str(), " ", rr.as_str(), ")")
            },
            Expr::DoUntil(d) => {
                let b = d.body.render();
                let c = d.cond.render();
                cat5("(do ", b.as_str(), " until ", c.as_str(), ")")
            },
            Expr::For(f) => {
                let st = f.start.render();
                let c = f.cond.render();
                let sp = f.step.render();
                let b = f.body.render();
                cat9(
                    "(for (",
                    st.as_str(),
                    ", ",
                    c.as_str(),
                    ", ",
                    sp.as_str(),
                    ") ",
                    b.as_str(),
                    ")",
                )
            },
            Expr::Function(f) => {
                proof {
                    lemma_exprs_view_len(f.params@);
                }
                let ps = render_param_items(&f.params);
                cat4("(@", f.name.as_str(), ps.as_str(), ")")
            },
            Expr::Group(v) => {
                proof {
                    lemma_exprs_view_len(v@);
                }
                let cs = render_group_items(v);
                cat3("<", cs.as_str(), ">")
            },
            Expr::If(i) => {
                let c = i.cond.render();
                let b = i.body.render();
                match &i.else_body {
                    Some(eb) => {
                        let e2 = eb.render();
                        cat7("(if ", c.as_str(), " ", b.as_str(), " ", e2.as_str(), ")")
                    },
                    None => cat5("(if ", c.as_str(), " ", b.as_str(), ")"),
                }
            },
            Expr::Repeat(rp) => {
                let c = rp.count.render();
                let b = rp.body.render();
                cat5("(repeat ", c.as_str(), " ", b.as_str(), ")")
            },
            Expr::Switch(sw) => {
                let c = sw.input.render();
                let b = sw.body.render();
                cat5("(switch ", c.as_str(), " ", b.as_str(), ")")
            },
            Expr::Var(v) => {
                let ns = render_var_names(&v.vars);
                cat3("(var", ns.as_str(), ")")
            },
            Expr::With(w) => {
                let c = w.target.render();
                let b = w.body.render();
                cat5("(with ", c.as_str(), " ", b.as_str(), ")")
            },
            Expr::While(w) => {
                let c = w.cond.render();
                let b = w.body.render();
                cat5("(while ", c.as_str(), " ", b.as_str(), ")")
            },
            Expr::Case(c) => {
                let e2 = c.render();
                cat3("(case ", e2.as_str(), ")")
            },
            Expr::Default => String::from_str("(default)"),
            Expr::Continue => String::from_str("(continue)"),
            Expr::Break => String::from_str("(break)"),
            Expr::Exit => String::from_str("(exit)"),
            Expr::Return(c) => {
                let e2 = c.render();
                cat3("(return ", e2.as_str(), ")")
            },
            Expr::Nop => {
                proof {
                    reveal_strlit("");
                    assert(""@ =~= Seq::<char>::empty());
                }
                String::from_str("")
            },
        }
    }
}

} // verus!
