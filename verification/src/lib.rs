//! Lexer and parser for a small scripting language: source text is turned
//! into tokens, and tokens into statements and expressions; the rules by
//! which an evaluation of nested statements hands its stopping reason on.

pub mod ast;
pub mod control;
pub mod lexer;
pub mod parser;
pub mod text;
