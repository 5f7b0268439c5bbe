//! A tokenizer and recursive-descent parser for a small, permissive
//! scripting language: `=` doubles as assignment and equality, statement
//! separators are optional, and expressions mix C-style operators with
//! word operators, chained member and index accesses, and calls.
//!
//! The grammar is defined mathematically by the `sp_*` functions of the
//! `lexer` and `parser` modules, over character and token sequences. The
//! executable lexer and parser are verified to return exactly the tree
//! those definitions name, and an error exactly when they name none. The
//! `laws` module proves the grammar's headline properties against those
//! same definitions.
pub mod token;
pub mod ast;
pub mod lexer;
pub mod parser;
pub mod pretty;
pub mod laws;
