//! The lexer: a single pass over the source characters producing the token
//! stream. `sp_lex_from` is the mathematical definition of that stream; the
//! executable lexer returns exactly the tokens it names, or an error exactly
//! when it names none. A parallel vector records the line each token starts
//! on, for diagnostics only.
use vstd::prelude::*;

use crate::ast::Error;
use crate::token::{Keyword, Operator, Separator, SpecToken, Token, toks_view};

verus! {

pub open spec fn is_space(c: char) -> bool {
    c == ' ' || c == '\t' || c == '\r' || c == '\n'
}

pub open spec fn is_digit(c: char) -> bool {
    '0' <= c && c <= '9'
}

pub open spec fn is_ident_start(c: char) -> bool {
    ('a' <= c && c <= 'z') || ('A' <= c && c <= 'Z') || c == '_'
}

pub open spec fn is_ident_char(c: char) -> bool {
    is_ident_start(c) || is_digit(c)
}

/// Index of the first newline at or after `i`, or the end of input.
pub open spec fn sp_find_newline(s: Seq<char>, i: int) -> int
    decreases s.len() - i,
{
    if i < 0 || i >= s.len() {
        s.len() as int
    } else if s[i] == '\n' {
        i
    } else {
        sp_find_newline(s, i + 1)
    }
}

/// Index just past the first block-comment closer at or after `i`, or the
/// end of input when the comment never closes.
pub open spec fn sp_find_block_end(s: Seq<char>, i: int) -> int
    decreases s.len() - i,
{
    if i < 0 || i + 1 >= s.len() {
        s.len() as int
    } else if s[i] == '*' && s[i + 1] == '/' {
        i + 2
    } else {
        sp_find_block_end(s, i + 1)
    }
}

/// Index of the first non-identifier character at or after `i`.
pub open spec fn sp_ident_end(s: Seq<char>, i: int) -> int
    decreases s.len() - i,
{
    if i < 0 || i >= s.len() || !is_ident_char(s[i]) {
        i
    } else {
        sp_ident_end(s, i + 1)
    }
}

/// Index of the first non-digit character at or after `i`.
pub open spec fn sp_digit_end(s: Seq<char>, i: int) -> int
    decreases s.len() - i,
{
    if i < 0 || i >= s.len() || !is_digit(s[i]) {
        i
    } else {
        sp_digit_end(s, i + 1)
    }
}

/// Index of the first occurrence of `q` at or after `i`, if any.
pub open spec fn sp_find_quote(s: Seq<char>, i: int, q: char) -> Option<int>
    decreases s.len() - i,
{
    if i < 0 || i >= s.len() {
        None
    } else if s[i] == q {
        Some(i)
    } else {
        sp_find_quote(s, i + 1, q)
    }
}

/// Index of the first character at or after `i` that is neither whitespace
/// nor part of a line or block comment.
pub open spec fn sp_skip_trivia(s: Seq<char>, i: int) -> int
    decreases s.len() - i,
{
    if i < 0 || i >= s.len() {
        i
    } else if is_space(s[i]) {
        sp_skip_trivia(s, i + 1)
    } else if s[i] == '/' && i + 1 < s.len() && s[i + 1] == '/' {
        let j = sp_find_newline(s, i + 2);
        if j > i && j <= s.len() {
            sp_skip_trivia(s, j)
        } else {
            i
        }
    } else if s[i] == '/' && i + 1 < s.len() && s[i + 1] == '*' {
        let j = sp_find_block_end(s, i + 2);
        if j > i && j <= s.len() {
            sp_skip_trivia(s, j)
        } else {
            i
        }
    } else {
        i
    }
}

/// The token an identifier-shaped word stands for: a keyword, an operator
/// word, the separator word used after `if` conditions, or an identifier.
pub open spec fn sp_word_token(w: Seq<char>) -> SpecToken {
    if w.len() == 3 && w[0] == 'v' && w[1] == 'a' && w[2] == 'r' {
        SpecToken::Keyword(Keyword::Var)
    } else if w.len() == 2 && w[0] == 'd' && w[1] == 'o' {
        SpecToken::Keyword(Keyword::Do)
    } else if w.len() == 5 && w[0] == 'u' && w[1] == 'n' && w[2] == 't' && w[3] == 'i' && w[4] == 'l' {
        SpecToken::Keyword(Keyword::Until)
    } else if w.len() == 2 && w[0] == 'i' && w[1] == 'f' {
        SpecToken::Keyword(Keyword::If)
    } else if w.len() == 4 && w[0] == 'e' && w[1] == 'l' && w[2] == 's' && w[3] == 'e' {
        SpecToken::Keyword(Keyword::Else)
    } else if w.len() == 3 && w[0] == 'f' && w[1] == 'o' && w[2] == 'r' {
        SpecToken::Keyword(Keyword::For)
    } else if w.len() == 6 && w[0] == 'r' && w[1] == 'e' && w[2] == 'p' && w[3] == 'e' && w[4] == 'a' && w[5] == 't' {
        SpecToken::Keyword(Keyword::Repeat)
    } else if w.len() == 6 && w[0] == 's' && w[1] == 'w' && w[2] == 'i' && w[3] == 't' && w[4] == 'c' && w[5] == 'h' {
        SpecToken::Keyword(Keyword::Switch)
    } else if w.len() == 4 && w[0] == 'c' && w[1] == 'a' && w[2] == 's' && w[3] == 'e' {
        SpecToken::Keyword(Keyword::Case)
    } else if w.len() == 7 && w[0] == 'd' && w[1] == 'e' && w[2] == 'f' && w[3] == 'a' && w[4] == 'u' && w[5] == 'l' && w[6] == 't' {
        SpecToken::Keyword(Keyword::Default)
    } else if w.len() == 4 && w[0] == 'w' && w[1] == 'i' && w[2] == 't' && w[3] == 'h' {
        SpecToken::Keyword(Keyword::With)
    } else if w.len() == 5 && w[0] == 'w' && w[1] == 'h' && w[2] == 'i' && w[3] == 'l' && w[4] == 'e' {
        SpecToken::Keyword(Keyword::While)
    } else if w.len() == 5 && w[0] == 'b' && w[1] == 'r' && w[2] == 'e' && w[3] == 'a' && w[4] == 'k' {
        SpecToken::Keyword(Keyword::Break)
    } else if w.len() == 8 && w[0] == 'c' && w[1] == 'o' && w[2] == 'n' && w[3] == 't' && w[4] == 'i' && w[5] == 'n' && w[6] == 'u' && w[7] == 'e' {
        SpecToken::Keyword(Keyword::Continue)
    } else if w.len() == 4 && w[0] == 'e' && w[1] == 'x' && w[2] == 'i' && w[3] == 't' {
        SpecToken::Keyword(Keyword::Exit)
    } else if w.len() == 6 && w[0] == 'r' && w[1] == 'e' && w[2] == 't' && w[3] == 'u' && w[4] == 'r' && w[5] == 'n' {
        SpecToken::Keyword(Keyword::Return)
    } else if w.len() == 4 && w[0] == 't' && w[1] == 'h' && w[2] == 'e' && w[3] == 'n' {
        SpecToken::Separator(Separator::Then)
    } else if w.len() == 3 && w[0] == 'd' && w[1] == 'i' && w[2] == 'v' {
        SpecToken::Operator(Operator::IntDivide)
    } else if w.len() == 3 && w[0] == 'm' && w[1] == 'o' && w[2] == 'd' {
        SpecToken::Operator(Operator::Modulo)
    } else {
        SpecToken::Identifier(w)
    }
}

/// The operator or separator starting at `i`, longest match first, or `None`
/// for an unrecognized character.
pub open spec fn sp_symbol_at(s: Seq<char>, i: int) -> Option<(SpecToken, int)> {
    let c = s[i];
    let two = i + 1 < s.len();
    if c == '(' {
        Some((SpecToken::Separator(Separator::ParenLeft), i + 1))
    } else if c == ')' {
        Some((SpecToken::Separator(Separator::ParenRight), i + 1))
    } else if c == '{' {
        Some((SpecToken::Separator(Separator::BraceLeft), i + 1))
    } else if c == '}' {
        Some((SpecToken::Separator(Separator::BraceRight), i + 1))
    } else if c == '[' {
        Some((SpecToken::Separator(Separator::BracketLeft), i + 1))
    } else if c == ']' {
        Some((SpecToken::Separator(Separator::BracketRight), i + 1))
    } else if c == ',' {
        Some((SpecToken::Separator(Separator::Comma), i + 1))
    } else if c == ';' {
        Some((SpecToken::Separator(Separator::Semicolon), i + 1))
    } else if c == ':' {
        Some((SpecToken::Separator(Separator::Colon), i + 1))
    } else if c == '.' {
        Some((SpecToken::Separator(Separator::Period), i + 1))
    } else if c == '~' {
        Some((SpecToken::Operator(Operator::Complement), i + 1))
    } else if c == '+' {
        if two && s[i + 1] == '=' {
            Some((SpecToken::Operator(Operator::AssignAdd), i + 2))
        } else {
            Some((SpecToken::Operator(Operator::Add), i + 1))
        }
    } else if c == '-' {
        if two && s[i + 1] == '=' {
            Some((SpecToken::Operator(Operator::AssignSubtract), i + 2))
        } else {
            Some((SpecToken::Operator(Operator::Subtract), i + 1))
        }
    } else if c == '*' {
        if two && s[i + 1] == '=' {
            Some((SpecToken::Operator(Operator::AssignMultiply), i + 2))
        } else {
            Some((SpecToken::Operator(Operator::Multiply), i + 1))
        }
    } else if c == '/' {
        if two && s[i + 1] == '=' {
            Some((SpecToken::Operator(Operator::AssignDivide), i + 2))
        } else {
            Some((SpecToken::Operator(Operator::Divide), i + 1))
        }
    } else if c == '&' {
        if two && s[i + 1] == '&' {
            Some((SpecToken::Operator(Operator::And), i + 2))
        } else if two && s[i + 1] == '=' {
            Some((SpecToken::Operator(Operator::AssignBinaryAnd), i + 2))
        } else {
            Some((SpecToken::Operator(Operator::BinaryAnd), i + 1))
        }
    } else if c == '|' {
        if two && s[i + 1] == '|' {
            Some((SpecToken::Operator(Operator::Or), i + 2))
        } else if two && s[i + 1] == '=' {
            Some((SpecToken::Operator(Operator::AssignBinaryOr), i + 2))
        } else {
            Some((SpecToken::Operator(Operator::BinaryOr), i + 1))
        }
    } else if c == '^' {
        if two && s[i + 1] == '^' {
            Some((SpecToken::Operator(Operator::Xor), i + 2))
        } else if two && s[i + 1] == '=' {
            Some((SpecToken::Operator(Operator::AssignBinaryXor), i + 2))
        } else {
            Some((SpecToken::Operator(Operator::BinaryXor), i + 1))
        }
    } else if c == '=' {
        if two && s[i + 1] == '=' {
            Some((SpecToken::Operator(Operator::Equal), i + 2))
        } else {
            Some((SpecToken::Operator(Operator::Assign), i + 1))
        }
    } else if c == '!' {
        if two && s[i + 1] == '=' {
            Some((SpecToken::Operator(Operator::NotEqual), i + 2))
        } else {
            Some((SpecToken::Operator(Operator::Not), i + 1))
        }
    } else if c == '<' {
        if two && s[i + 1] == '=' {
            Some((SpecToken::Operator(Operator::LessThanOrEqual), i + 2))
        } else if two && s[i + 1] == '<' {
            Some((SpecToken::Operator(Operator::BinaryShiftLeft), i + 2))
        } else {
            Some((SpecToken::Operator(Operator::LessThan), i + 1))
        }
    } else if c == '>' {
        if two && s[i + 1] == '=' {
            Some((SpecToken::Operator(Operator::GreaterThanOrEqual), i + 2))
        } else if two && s[i + 1] == '>' {
            Some((SpecToken::Operator(Operator::BinaryShiftRight), i + 2))
        } else {
            Some((SpecToken::Operator(Operator::GreaterThan), i + 1))
        }
    } else {
        None
    }
}

/// The token starting at position `i` (not on trivia) and the position just
/// past it; `None` on an unterminated string or an unrecognized character.
pub open spec fn sp_token_at(s: Seq<char>, i: int) -> Option<(SpecToken, int)> {
    let c = s[i];
    if is_ident_start(c) {
        let j = sp_ident_end(s, i + 1);
        Some((sp_word_token(s.subrange(i, j)), j))
    } else if is_digit(c) {
        let j = sp_digit_end(s, i + 1);
        if j < s.len() && s[j] == '.' && j + 1 < s.len() && is_digit(s[j + 1]) {
            let k = sp_digit_end(s, j + 2);
            Some((SpecToken::Real(s.subrange(i, k)), k))
        } else {
            Some((SpecToken::Real(s.subrange(i, j)), j))
        }
    } else if c == '.' && i + 1 < s.len() && is_digit(s[i + 1]) {
        let k = sp_digit_end(s, i + 2);
        Some((SpecToken::Real(s.subrange(i, k)), k))
    } else if c == '"' || c == '\'' {
        match sp_find_quote(s, i + 1, c) {
            Some(j) => Some((SpecToken::Str(s.subrange(i + 1, j)), j + 1)),
            None => None,
        }
    } else {
        sp_symbol_at(s, i)
    }
}

/// The token stream from position `i` on, or `None` on a lexical fault.
pub open spec fn sp_lex_from(s: Seq<char>, i: int) -> Option<Seq<SpecToken>>
    decreases s.len() - i,
{
    let j = sp_skip_trivia(s, i);
    if j >= s.len() || j < i {
        Some(Seq::empty())
    } else {
        match sp_token_at(s, j) {
            Some((t, k)) => if k > j && k <= s.len() {
                match sp_lex_from(s, k) {
                    Some(rest) => Some(seq![t] + rest),
                    None => None,
                }
            } else {
                Some(Seq::empty())
            },
            None => None,
        }
    }
}

/// The characters of the source, for position-based scanning.
fn to_chars(source: &str) -> (cs: Vec<char>)
    ensures
        cs@ == source@,
{
    let n = source.unicode_len();
    let mut cs: Vec<char> = Vec::new();
    let mut i: usize = 0;
    while i < n
        invariant
            n == source@.len(),
            i <= n,
            cs@ == source@.subrange(0, i as int),
        decreases n - i,
    {
        let c = source.get_char(i);
        cs.push(c);
        i = i + 1;
        proof {
            assert(cs@ =~= source@.subrange(0, i as int));
        }
    }
    proof {
        assert(cs@ =~= source@);
    }
    cs
}

fn find_newline(cs: &Vec<char>, start: usize) -> (j: usize)
    requires
        start <= cs@.len(),
    ensures
        j == sp_find_newline(cs@, start as int),
        start <= j <= cs@.len(),
{
    let mut i = start;
    while i < cs.len() && cs[i] != '\n'
        invariant
            start <= i <= cs@.len(),
            sp_find_newline(cs@, start as int) == sp_find_newline(cs@, i as int),
        decreases cs@.len() - i,
    {
        i = i + 1;
    }
    i
}

fn find_block_end(cs: &Vec<char>, start: usize) -> (j: usize)
    requires
        start <= cs@.len(),
    ensures
        j == sp_find_block_end(cs@, start as int),
        start <= j <= cs@.len(),
{
    let mut i = start;
    loop
        invariant
            start <= i <= cs@.len(),
            sp_find_block_end(cs@, start as int) == sp_find_block_end(cs@, i as int),
        decreases cs@.len() - i,
    {
        if cs.len() - i <= 1 {
            return cs.len();
        }
        if cs[i] == '*' && cs[i + 1] == '/' {
            return i + 2;
        }
        i = i + 1;
    }
}

fn ident_end(cs: &Vec<char>, start: usize) -> (j: usize)
    requires
        start <= cs@.len(),
    ensures
        j == sp_ident_end(cs@, start as int),
        start <= j <= cs@.len(),
{
    let mut i = start;
    while i < cs.len() && (('a' <= cs[i] && cs[i] <= 'z') || ('A' <= cs[i] && cs[i] <= 'Z')
        || cs[i] == '_' || ('0' <= cs[i] && cs[i] <= '9'))
        invariant
            start <= i <= cs@.len(),
            sp_ident_end(cs@, start as int) == sp_ident_end(cs@, i as int),
        decreases cs@.len() - i,
    {
        i = i + 1;
    }
    i
}

fn digit_end(cs: &Vec<char>, start: usize) -> (j: usize)
    requires
        start <= cs@.len(),
    ensures
        j == sp_digit_end(cs@, start as int),
        start <= j <= cs@.len(),
{
    let mut i = start;
    while i < cs.len() && '0' <= cs[i] && cs[i] <= '9'
        invariant
            start <= i <= cs@.len(),
            sp_digit_end(cs@, start as int) == sp_digit_end(cs@, i as int),
        decreases cs@.len() - i,
    {
        i = i + 1;
    }
    i
}

fn find_quote(cs: &Vec<char>, start: usize, q: char) -> (r: Option<usize>)
    requires
        start <= cs@.len(),
    ensures
        match sp_find_quote(cs@, start as int, q) {
            Some(j) => r == Some(j as usize) && start <= j < cs@.len(),
            None => r is None,
        },
{
    let mut i = start;
    while i < cs.len() && cs[i] != q
        invariant
            start <= i <= cs@.len(),
            sp_find_quote(cs@, start as int, q) == sp_find_quote(cs@, i as int, q),
        decreases cs@.len() - i,
    {
        i = i + 1;
    }
    if i < cs.len() {
        Some(i)
    } else {
        None
    }
}

fn skip_trivia(cs: &Vec<char>, start: usize) -> (j: usize)
    requires
        start <= cs@.len(),
    ensures
        j == sp_skip_trivia(cs@, start as int),
        start <= j <= cs@.len(),
{
    let mut i = start;
    loop
        invariant
            start <= i <= cs@.len(),
            sp_skip_trivia(cs@, start as int) == sp_skip_trivia(cs@, i as int),
        decreases cs@.len() - i,
    {
        if i >= cs.len() {
            return i;
        }
        let c = cs[i];
        if c == ' ' || c == '\t' || c == '\r' || c == '\n' {
            i = i + 1;
        } else if c == '/' && i + 1 < cs.len() && cs[i + 1] == '/' {
            i = find_newline(cs, i + 2);
        } else if c == '/' && i + 1 < cs.len() && cs[i + 1] == '*' {
            i = find_block_end(cs, i + 2);
        } else {
            return i;
        }
    }
}

/// Counts newlines in `cs[a..b)` onto a running line counter, for messages.
fn bump_lines(line: usize, cs: &Vec<char>, a: usize, b: usize) -> usize
    requires
        a <= b <= cs@.len(),
{
    let mut l = line;
    let mut i = a;
    while i < b
        invariant
            a <= i <= b <= cs@.len(),
        decreases b - i,
    {
        if cs[i] == '\n' && l < usize::MAX {
            l = l + 1;
        }
        i = i + 1;
    }
    l
}

fn word_token(source: &str, cs: &Vec<char>, a: usize, b: usize) -> (t: Token)
    requires
        cs@ == source@,
        a <= b <= cs@.len(),
    ensures
        t@ == sp_word_token(cs@.subrange(a as int, b as int)),
{
    let ghost w = cs@.subrange(a as int, b as int);
    let n = b - a;
    if n == 3 && cs[a] == 'v' && cs[a + 1] == 'a' && cs[a + 2] == 'r' {
        Token::Keyword(Keyword::Var)
    } else if n == 2 && cs[a] == 'd' && cs[a + 1] == 'o' {
        Token::Keyword(Keyword::Do)
    } else if n == 5 && cs[a] == 'u' && cs[a + 1] == 'n' && cs[a + 2] == 't' && cs[a + 3] == 'i'
        && cs[a + 4] == 'l' {
        Token::Keyword(Keyword::Until)
    } else if n == 2 && cs[a] == 'i' && cs[a + 1] == 'f' {
        Token::Keyword(Keyword::If)
    } else if n == 4 && cs[a] == 'e' && cs[a + 1] == 'l' && cs[a + 2] == 's' && cs[a + 3] == 'e' {
        Token::Keyword(Keyword::Else)
    } else if n == 3 && cs[a] == 'f' && cs[a + 1] == 'o' && cs[a + 2] == 'r' {
        Token::Keyword(Keyword::For)
    } else if n == 6 && cs[a] == 'r' && cs[a + 1] == 'e' && cs[a + 2] == 'p' && cs[a + 3] == 'e'
        && cs[a + 4] == 'a' && cs[a + 5] == 't' {
        Token::Keyword(Keyword::Repeat)
    } else if n == 6 && cs[a] == 's' && cs[a + 1] == 'w' && cs[a + 2] == 'i' && cs[a + 3] == 't'
        && cs[a + 4] == 'c' && cs[a + 5] == 'h' {
        Token::Keyword(Keyword::Switch)
    } else if n == 4 && cs[a] == 'c' && cs[a + 1] == 'a' && cs[a + 2] == 's' && cs[a + 3] == 'e' {
        Token::Keyword(Keyword::Case)
    } else if n == 7 && cs[a] == 'd' && cs[a + 1] == 'e' && cs[a + 2] == 'f' && cs[a + 3] == 'a'
        && cs[a + 4] == 'u' && cs[a + 5] == 'l' && cs[a + 6] == 't' {
        Token::Keyword(Keyword::Default)
    } else if n == 4 && cs[a] == 'w' && cs[a + 1] == 'i' && cs[a + 2] == 't' && cs[a + 3] == 'h' {
        Token::Keyword(Keyword::With)
    } else if n == 5 && cs[a] == 'w' && cs[a + 1] == 'h' && cs[a + 2] == 'i' && cs[a + 3] == 'l'
        && cs[a + 4] == 'e' {
        Token::Keyword(Keyword::While)
    } else if n == 5 && cs[a] == 'b' && cs[a + 1] == 'r' && cs[a + 2] == 'e' && cs[a + 3] == 'a'
        && cs[a + 4] == 'k' {
        Token::Keyword(Keyword::Break)
    } else if n == 8 && cs[a] == 'c' && cs[a + 1] == 'o' && cs[a + 2] == 'n' && cs[a + 3] == 't'
        && cs[a + 4] == 'i' && cs[a + 5] == 'n' && cs[a + 6] == 'u' && cs[a + 7] == 'e' {
        Token::Keyword(Keyword::Continue)
    } else if n == 4 && cs[a] == 'e' && cs[a + 1] == 'x' && cs[a + 2] == 'i' && cs[a + 3] == 't' {
        Token::Keyword(Keyword::Exit)
    } else if n == 6 && cs[a] == 'r' && cs[a + 1] == 'e' && cs[a + 2] == 't' && cs[a + 3] == 'u'
        && cs[a + 4] == 'r' && cs[a + 5] == 'n' {
        Token::Keyword(Keyword::Return)
    } else if n == 4 && cs[a] == 't' && cs[a + 1] == 'h' && cs[a + 2] == 'e' && cs[a + 3] == 'n' {
        Token::Separator(Separator::Then)
    } else if n == 3 && cs[a] == 'd' && cs[a + 1] == 'i' && cs[a + 2] == 'v' {
        Token::Operator(Operator::IntDivide)
    } else if n == 3 && cs[a] == 'm' && cs[a + 1] == 'o' && cs[a + 2] == 'd' {
        Token::Operator(Operator::Modulo)
    } else {
        Token::Identifier(String::from_str(source.substring_char(a, b)))
    }
}

fn token_at(source: &str, cs: &Vec<char>, i: usize, line: usize) -> (r: Result<(Token, usize), Error>)
    requires
        cs@ == source@,
        i < cs@.len(),
    ensures
        match sp_token_at(cs@, i as int) {
            Some((t, k)) => r matches Ok(p) && p.0@ == t && p.1 == k && i < k <= cs@.len(),
            None => r is Err,
        },
{
    let n = cs.len();
    let c = cs[i];
    if ('a' <= c && c <= 'z') || ('A' <= c && c <= 'Z') || c == '_' {
        let j = ident_end(cs, i + 1);
        Ok((word_token(source, cs, i, j), j))
    } else if '0' <= c && c <= '9' {
        let j = digit_end(cs, i + 1);
        if j < cs.len() && cs[j] == '.' && j + 1 < cs.len() && '0' <= cs[j + 1] && cs[j + 1] <= '9' {
            let k = digit_end(cs, j + 2);
            Ok((Token::Real(String::from_str(source.substring_char(i, k))), k))
        } else {
            Ok((Token::Real(String::from_str(source.substring_char(i, j))), j))
        }
    } else if c == '.' && i + 1 < cs.len() && '0' <= cs[i + 1] && cs[i + 1] <= '9' {
        let k = digit_end(cs, i + 2);
        Ok((Token::Real(String::from_str(source.substring_char(i, k))), k))
    } else if c == '"' || c == '\'' {
        match find_quote(cs, i + 1, c) {
            Some(j) => Ok((Token::Str(String::from_str(source.substring_char(i + 1, j))), j + 1)),
            None => Err(crate::parser::err_line("unterminated string literal", line)),
        }
    } else {
        match symbol_token(cs, i) {
            Some(p) => Ok(p),
            None => Err(crate::parser::err_line("unrecognized character", line)),
        }
    }
}

fn symbol_token(cs: &Vec<char>, i: usize) -> (r: Option<(Token, usize)>)
    requires
        i < cs@.len(),
    ensures
        match sp_symbol_at(cs@, i as int) {
            Some((t, k)) => r matches Some(p) && p.0@ == t && p.1 == k && i < k <= cs@.len(),
            None => r is None,
        },
{
    let n = cs.len();
    let c = cs[i];
    let two = i + 1 < n;
    if c == '(' {
        Some((Token::Separator(Separator::ParenLeft), i + 1))
    } else if c == ')' {
        Some((Token::Separator(Separator::ParenRight), i + 1))
    } else if c == '{' {
        Some((Token::Separator(Separator::BraceLeft), i + 1))
    } else if c == '}' {
        Some((Token::Separator(Separator::BraceRight), i + 1))
    } else if c == '[' {
        Some((Token::Separator(Separator::BracketLeft), i + 1))
    } else if c == ']' {
        Some((Token::Separator(Separator::BracketRight), i + 1))
    } else if c == ',' {
        Some((Token::Separator(Separator::Comma), i + 1))
    } else if c == ';' {
        Some((Token::Separator(Separator::Semicolon), i + 1))
    } else if c == ':' {
        Some((Token::Separator(Separator::Colon), i + 1))
    } else if c == '.' {
        Some((Token::Separator(Separator::Period), i + 1))
    } else if c == '~' {
        Some((Token::Operator(Operator::Complement), i + 1))
    } else if c == '+' {
        if two && cs[i + 1] == '=' {
            Some((Token::Operator(Operator::AssignAdd), i + 2))
        } else {
            Some((Token::Operator(Operator::Add), i + 1))
        }
    } else if c == '-' {
        if two && cs[i + 1] == '=' {
            Some((Token::Operator(Operator::AssignSubtract), i + 2))
        } else {
            Some((Token::Operator(Operator::Subtract), i + 1))
        }
    } else if c == '*' {
        if two && cs[i + 1] == '=' {
            Some((Token::Operator(Operator::AssignMultiply), i + 2))
        } else {
            Some((Token::Operator(Operator::Multiply), i + 1))
        }
    } else if c == '/' {
        if two && cs[i + 1] == '=' {
            Some((Token::Operator(Operator::AssignDivide), i + 2))
        } else {
            Some((Token::Operator(Operator::Divide), i + 1))
        }
    } else if c == '&' {
        if two && cs[i + 1] == '&' {
            Some((Token::Operator(Operator::And), i + 2))
        } else if two && cs[i + 1] == '=' {
            Some((Token::Operator(Operator::AssignBinaryAnd), i + 2))
        } else {
            Some((Token::Operator(Operator::BinaryAnd), i + 1))
        }
    } else if c == '|' {
        if two && cs[i + 1] == '|' {
            Some((Token::Operator(Operator::Or), i + 2))
        } else if two && cs[i + 1] == '=' {
            Some((Token::Operator(Operator::AssignBinaryOr), i + 2))
        } else {
            Some((Token::Operator(Operator::BinaryOr), i + 1))
        }
    } else if c == '^' {
        if two && cs[i + 1] == '^' {
            Some((Token::Operator(Operator::Xor), i + 2))
        } else if two && cs[i + 1] == '=' {
            Some((Token::Operator(Operator::AssignBinaryXor), i + 2))
        } else {
            Some((Token::Operator(Operator::BinaryXor), i + 1))
        }
    } else if c == '=' {
        if two && cs[i + 1] == '=' {
            Some((Token::Operator(Operator::Equal), i + 2))
        } else {
            Some((Token::Operator(Operator::Assign), i + 1))
        }
    } else if c == '!' {
        if two && cs[i + 1] == '=' {
            Some((Token::Operator(Operator::NotEqual), i + 2))
        } else {
            Some((Token::Operator(Operator::Not), i + 1))
        }
    } else if c == '<' {
        if two && cs[i + 1] == '=' {
            Some((Token::Operator(Operator::LessThanOrEqual), i + 2))
        } else if two && cs[i + 1] == '<' {
            Some((Token::Operator(Operator::BinaryShiftLeft), i + 2))
        } else {
            Some((Token::Operator(Operator::LessThan), i + 1))
        }
    } else if c == '>' {
        if two && cs[i + 1] == '=' {
            Some((Token::Operator(Operator::GreaterThanOrEqual), i + 2))
        } else if two && cs[i + 1] == '>' {
            Some((Token::Operator(Operator::BinaryShiftRight), i + 2))
        } else {
            Some((Token::Operator(Operator::GreaterThan), i + 1))
        }
    } else {
        None
    }
}

/// Lexes the whole source. Returns the token vector and, in step, the line
/// each token starts on; an error exactly when the token stream is undefined.
pub fn lex(source: &str) -> (r: Result<(Vec<Token>, Vec<usize>), Error>)
    ensures
        match sp_lex_from(source@, 0) {
            Some(tv) => r matches Ok(p) && toks_view(p.0@) == tv && p.1@.len() == p.0@.len(),
            None => r is Err,
        },
{
    let cs = to_chars(source);
    let mut toks: Vec<Token> = Vec::new();
    let mut lines: Vec<usize> = Vec::new();
    let mut pos: usize = 0;
    let mut line: usize = 1;
    loop
        invariant
            cs@ == source@,
            pos <= cs@.len(),
            toks@.len() == lines@.len(),
            match sp_lex_from(cs@, pos as int) {
                Some(rest) => sp_lex_from(cs@, 0) == Some(toks_view(toks@) + rest),
                None => sp_lex_from(cs@, 0) is None,
            },
        decreases cs@.len() - pos,
    {
        let j = skip_trivia(&cs, pos);
        line = bump_lines(line, &cs, pos, j);
        if j >= cs.len() {
            proof {
                assert(sp_lex_from(cs@, pos as int) == Some(Seq::<SpecToken>::empty()));
                assert(toks_view(toks@) + Seq::<SpecToken>::empty() =~= toks_view(toks@));
            }
            return Ok((toks, lines));
        }
        match token_at(source, &cs, j, line) {
            Ok((tok, k)) => {
                proof {
                    assert(sp_lex_from(cs@, pos as int) == (match sp_lex_from(cs@, k as int) {
                        Some(rest) => Some(seq![tok@] + rest),
                        None => None,
                    }));
                }
                line = bump_lines(line, &cs, j, k);
                proof {
                    assert(toks_view(toks@.push(tok)) =~= toks_view(toks@).push(tok@));
                }
                let ghost old_toks = toks@;
                toks.push(tok);
                lines.push(line);
                proof {
                    match sp_lex_from(cs@, k as int) {
                        Some(rest) => {
                            assert(toks_view(old_toks) + (seq![tok@] + rest) =~= toks_view(
                                old_toks,
                            ).push(tok@) + rest);
                        },
                        None => {},
                    }
                }
                pos = k;
            },
            Err(e) => {
                return Err(e);
            },
        }
    }
}

} // verus!
