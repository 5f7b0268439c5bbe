//! The abstract syntax tree. Every statement is an expression; the tree a
//! parse returns is a list of top-level expressions. `SpecExpr` is the
//! mathematical model of a tree node; each executable node views to it.
use vstd::prelude::*;

verus! {

/// A parsed program: the list of top-level expressions.
#[derive(Debug, PartialEq)]
pub struct AST {
    pub expressions: Vec<Expr>,
}

/// One node of the tree. Identifier, real and string leaves carry the source
/// text of the token they were read from.
#[derive(Debug, PartialEq)]
pub enum Expr {
    LiteralIdentifier(String),
    LiteralReal(String),
    LiteralString(String),
    Unary(Box<UnaryExpr>),
    Binary(Box<BinaryExpr>),
    DoUntil(Box<DoUntilExpr>),
    For(Box<ForExpr>),
    Function(Box<FunctionExpr>),
    Group(Vec<Expr>),
    If(Box<IfExpr>),
    Repeat(Box<RepeatExpr>),
    Switch(Box<SwitchExpr>),
    Var(Box<VarExpr>),
    With(Box<WithExpr>),
    While(Box<WhileExpr>),
    Case(Box<Expr>),
    Default,
    Continue,
    Break,
    Exit,
    Return(Box<Expr>),
    Nop,
}

#[derive(Debug, PartialEq)]
pub struct UnaryExpr {
    pub op: crate::token::Operator,
    pub child: Expr,
}

#[derive(Debug, PartialEq)]
pub struct BinaryExpr {
    pub op: crate::token::Operator,
    pub left: Expr,
    pub right: Expr,
}

#[derive(Debug, PartialEq)]
pub struct FunctionExpr {
    pub name: String,
    pub params: Vec<Expr>,
}

#[derive(Debug, PartialEq)]
pub struct DoUntilExpr {
    pub cond: Expr,
    pub body: Expr,
}

#[derive(Debug, PartialEq)]
pub struct ForExpr {
    pub start: Expr,
    pub cond: Expr,
    pub step: Expr,
    pub body: Expr,
}

#[derive(Debug, PartialEq)]
pub struct IfExpr {
    pub cond: Expr,
    pub body: Expr,
    pub else_body: Option<Expr>,
}

#[derive(Debug, PartialEq)]
pub struct RepeatExpr {
    pub count: Expr,
    pub body: Expr,
}

#[derive(Debug, PartialEq)]
pub struct SwitchExpr {
    pub input: Expr,
    pub body: Expr,
}

#[derive(Debug, PartialEq)]
pub struct VarExpr {
    pub vars: Vec<String>,
}

#[derive(Debug, PartialEq)]
pub struct WithExpr {
    pub target: Expr,
    pub body: Expr,
}

#[derive(Debug, PartialEq)]
pub struct WhileExpr {
    pub cond: Expr,
    pub body: Expr,
}

/// The model of a tree node, over character sequences.
pub enum SpecExpr {
    LiteralIdentifier(Seq<char>),
    LiteralReal(Seq<char>),
    LiteralString(Seq<char>),
    Unary(crate::token::Operator, Box<SpecExpr>),
    Binary(crate::token::Operator, Box<SpecExpr>, Box<SpecExpr>),
    DoUntil(Box<SpecExpr>, Box<SpecExpr>),
    For(Box<SpecExpr>, Box<SpecExpr>, Box<SpecExpr>, Box<SpecExpr>),
    Function(Seq<char>, Seq<SpecExpr>),
    Group(Seq<SpecExpr>),
    If(Box<SpecExpr>, Box<SpecExpr>, Option<Box<SpecExpr>>),
    Repeat(Box<SpecExpr>, Box<SpecExpr>),
    Switch(Box<SpecExpr>, Box<SpecExpr>),
    Var(Seq<Seq<char>>),
    With(Box<SpecExpr>, Box<SpecExpr>),
    While(Box<SpecExpr>, Box<SpecExpr>),
    Case(Box<SpecExpr>),
    Default,
    Continue,
    Break,
    Exit,
    Return(Box<SpecExpr>),
    Nop,
}

/// The model of a list of nodes.
pub open spec fn exprs_view(s: Seq<Expr>) -> Seq<SpecExpr>
    decreases s,
{
    if s.len() == 0 {
        Seq::empty()
    } else {
        exprs_view(s.drop_last()).push(expr_view(s.last()))
    }
}

/// The model of one node.
pub open spec fn expr_view(e: Expr) -> SpecExpr
    decreases e,
{
    match e {
            Expr::LiteralIdentifier(s) => SpecExpr::LiteralIdentifier(s@),
            Expr::LiteralReal(s) => SpecExpr::LiteralReal(s@),
            Expr::LiteralString(s) => SpecExpr::LiteralString(s@),
            Expr::Unary(u) => SpecExpr::Unary(u.op, Box::new(expr_view(u.child))),
            Expr::Binary(b) => SpecExpr::Binary(
                b.op,
                Box::new(expr_view(b.left)),
                Box::new(expr_view(b.right)),
            ),
            Expr::DoUntil(d) => SpecExpr::DoUntil(
                Box::new(expr_view(d.cond)),
                Box::new(expr_view(d.body)),
            ),
            Expr::For(f) => SpecExpr::For(
                Box::new(expr_view(f.start)),
                Box::new(expr_view(f.cond)),
                Box::new(expr_view(f.step)),
                Box::new(expr_view(f.body)),
            ),
            Expr::Function(f) => SpecExpr::Function(f.name@, exprs_view(f.params@)),
            Expr::Group(v) => SpecExpr::Group(exprs_view(v@)),
            Expr::If(i) => SpecExpr::If(
                Box::new(expr_view(i.cond)),
                Box::new(expr_view(i.body)),
                match &i.else_body {
                    Some(e) => Some(Box::new(expr_view(*e))),
                    None => None,
                },
            ),
            Expr::Repeat(r) => SpecExpr::Repeat(
                Box::new(expr_view(r.count)),
                Box::new(expr_view(r.body)),
            ),
            Expr::Switch(s) => SpecExpr::Switch(
                Box::new(expr_view(s.input)),
                Box::new(expr_view(s.body)),
            ),
            Expr::Var(v) => SpecExpr::Var(v.vars@.map_values(|s: String| s@)),
            Expr::With(w) => SpecExpr::With(
                Box::new(expr_view(w.target)),
                Box::new(expr_view(w.body)),
            ),
            Expr::While(w) => SpecExpr::While(
                Box::new(expr_view(w.cond)),
                Box::new(expr_view(w.body)),
            ),
            Expr::Case(e) => SpecExpr::Case(Box::new(expr_view(*e))),
            Expr::Default => SpecExpr::Default,
            Expr::Continue => SpecExpr::Continue,
            Expr::Break => SpecExpr::Break,
            Expr::Exit => SpecExpr::Exit,
            Expr::Return(e) => SpecExpr::Return(Box::new(expr_view(*e))),
            Expr::Nop => SpecExpr::Nop,
    }
}

impl View for Expr {
    type V = SpecExpr;

    open spec fn view(&self) -> SpecExpr {
        expr_view(*self)
    }
}

/// The model of a node list is as long as the list.
pub proof fn lemma_exprs_view_len(s: Seq<Expr>)
    ensures
        exprs_view(s).len() == s.len(),
    decreases s,
{
    if s.len() > 0 {
        lemma_exprs_view_len(s.drop_last());
    }
}

/// The model of a node list holds each member's model, in order.
pub proof fn lemma_exprs_view_index(s: Seq<Expr>, i: int)
    requires
        0 <= i < s.len(),
    ensures
        exprs_view(s)[i] == expr_view(s[i]),
    decreases s,
{
    lemma_exprs_view_len(s);
    if i < s.len() - 1 {
        lemma_exprs_view_index(s.drop_last(), i);
        assert(s.drop_last()[i] == s[i]);
        lemma_exprs_view_len(s.drop_last());
    }
}

impl View for AST {
    type V = Seq<SpecExpr>;

    open spec fn view(&self) -> Seq<SpecExpr> {
        exprs_view(self.expressions@)
    }
}

impl AST {
    /// The empty program: what parsing an empty source yields.
    pub fn empty() -> (r: AST)
        ensures
            r@ == Seq::<SpecExpr>::empty(),
    {
        let r = AST { expressions: Vec::new() };
        proof {
            assert(exprs_view(Seq::<Expr>::empty()) =~= Seq::<SpecExpr>::empty());
        }
        r
    }
}

/// A lexical or syntactic fault. Its view is the text of its message.
#[derive(Debug)]
pub struct Error {
    message: String,
}

impl View for Error {
    type V = Seq<char>;

    closed spec fn view(&self) -> Seq<char> {
        self.message@
    }
}

impl Error {
    pub fn new(message: String) -> (r: Self)
        ensures
            r@ == message@,
    {
        Error { message }
    }

    /// The human-readable message carried by this fault.
    pub fn text(&self) -> (r: String)
        ensures
            r@ == self@,
    {
        String::from_str(self.message.as_str())
    }
}

} // verus!
