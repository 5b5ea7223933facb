//! A compiler front end for a small expression/statement language: a
//! character-level tokenizer and a recursive-descent parser that turns a
//! source text into an abstract syntax tree or a positioned diagnostic.

pub mod ast;
pub mod err;
pub mod laws;
pub mod lex;
pub mod parser;
pub mod tok;
