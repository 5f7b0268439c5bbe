//! Token model: the closed sets of keywords, operators and separators, and
//! the token type produced by the lexer. Identifier, real-literal and string
//! payloads carry the source text of the token.
use vstd::prelude::*;

verus! {

/// Reserved words that may head a statement.
#[derive(Clone, Copy, PartialEq, Eq, Structural, Debug)]
pub enum Keyword {
    Var,
    Do,
    Until,
    If,
    Else,
    For,
    Repeat,
    Switch,
    Case,
    Default,
    With,
    While,
    Break,
    Continue,
    Exit,
    Return,
}

/// Every infix and prefix operator, including the pseudo-operators `Deref`
/// and `Index` which the parser alone produces.
#[derive(Clone, Copy, PartialEq, Eq, Structural, Debug)]
pub enum Operator {
    Add,
    Subtract,
    Multiply,
    Divide,
    IntDivide,
    Modulo,
    BinaryAnd,
    BinaryOr,
    BinaryXor,
    BinaryShiftLeft,
    BinaryShiftRight,
    And,
    Or,
    Xor,
    Equal,
    NotEqual,
    LessThan,
    GreaterThan,
    LessThanOrEqual,
    GreaterThanOrEqual,
    Assign,
    AssignAdd,
    AssignSubtract,
    AssignMultiply,
    AssignDivide,
    AssignBinaryAnd,
    AssignBinaryOr,
    AssignBinaryXor,
    Not,
    Complement,
    Deref,
    Index,
}

/// Punctuation, plus the word `then` used as an optional separator after an
/// `if` condition.
#[derive(Clone, Copy, PartialEq, Eq, Structural, Debug)]
pub enum Separator {
    ParenLeft,
    ParenRight,
    BraceLeft,
    BraceRight,
    BracketLeft,
    BracketRight,
    Comma,
    Semicolon,
    Colon,
    Period,
    Then,
}

/// A lexical token. Payloads hold the source text of the token.
#[derive(PartialEq, Eq, Debug)]
pub enum Token {
    Keyword(Keyword),
    Operator(Operator),
    Separator(Separator),
    Identifier(String),
    Real(String),
    Str(String),
}

/// The mathematical model of a token: payloads as character sequences.
pub enum SpecToken {
    Keyword(Keyword),
    Operator(Operator),
    Separator(Separator),
    Identifier(Seq<char>),
    Real(Seq<char>),
    Str(Seq<char>),
}

impl View for Token {
    type V = SpecToken;

    open spec fn view(&self) -> SpecToken {
        match self {
            Token::Keyword(k) => SpecToken::Keyword(*k),
            Token::Operator(op) => SpecToken::Operator(*op),
            Token::Separator(sep) => SpecToken::Separator(*sep),
            Token::Identifier(s) => SpecToken::Identifier(s@),
            Token::Real(s) => SpecToken::Real(s@),
            Token::Str(s) => SpecToken::Str(s@),
        }
    }
}

/// The token sequence a vector of tokens stands for.
pub open spec fn toks_view(ts: Seq<Token>) -> Seq<SpecToken> {
    ts.map_values(|t: Token| t@)
}

/// Numeric precedence of the ranked binary operators; `None` for assignment
/// operators, unary-only operators and the parser-made pseudo-operators.
/// Lower numbers bind looser.
pub open spec fn spec_op_precedence(op: Operator) -> Option<u8> {
    match op {
        Operator::And => Some(0u8),
        Operator::Or => Some(0u8),
        Operator::Xor => Some(0u8),
        Operator::LessThan => Some(1u8),
        Operator::GreaterThan => Some(1u8),
        Operator::Equal => Some(1u8),
        Operator::NotEqual => Some(1u8),
        Operator::LessThanOrEqual => Some(1u8),
        Operator::GreaterThanOrEqual => Some(1u8),
        Operator::BinaryAnd => Some(2u8),
        Operator::BinaryOr => Some(2u8),
        Operator::BinaryXor => Some(2u8),
        Operator::BinaryShiftLeft => Some(3u8),
        Operator::BinaryShiftRight => Some(3u8),
        Operator::Add => Some(4u8),
        Operator::Subtract => Some(4u8),
        Operator::Multiply => Some(5u8),
        Operator::Divide => Some(5u8),
        Operator::IntDivide => Some(5u8),
        Operator::Modulo => Some(5u8),
        _ => None,
    }
}

} // verus!
