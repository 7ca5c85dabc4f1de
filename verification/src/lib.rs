//! Lexical and syntactic front end for a small scripting language.
//!
//! Source text is scanned into an ordered, EOF-terminated sequence of typed
//! tokens, and a token sequence is parsed by recursive descent into an
//! expression tree with a canonical fully-parenthesized printer.

pub mod exception;
pub mod expr;
pub mod literal_value;
pub mod parser;
pub mod scanner;
pub mod text;
pub mod token;
pub mod token_type;
