//! Lexical-analysis front end for a small kernel/shader language: a
//! single-pass, pull-based scanner that turns source text into classified
//! tokens annotated with their line number and their ordinal among the
//! tokens of that line.

pub mod laws;
pub mod lexer;
pub mod model;
pub mod primitives;
pub mod token;

pub use lexer::Lexer;
pub use token::Delimiter;
pub use token::Keyword;
pub use token::Operator;
pub use token::Token;
