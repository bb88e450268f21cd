//! A small dynamically-typed expression language: a lexer that turns
//! source text into tokens, a recursive-descent parser that builds an
//! abstract syntax tree with the usual operator precedence, and two
//! tree walks over that tree: a canonical printer and an evaluator.
pub mod chars;
pub mod number;
pub mod operations;
pub mod expr;
pub mod interpret;
pub mod laws;
pub mod parser;
pub mod print;
pub mod scanner;
pub mod stmt;
pub mod token_type;
