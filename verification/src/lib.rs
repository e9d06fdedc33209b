//! A verified lexer and parser for MathEX arithmetic expressions.
pub mod text;
pub mod lexer;
pub mod ast;
pub mod grammar;
pub mod parser;
pub mod ffi;
pub mod lexer_laws;
pub mod parser_laws;
pub mod grammar_laws;
