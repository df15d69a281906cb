//! Middle and back end of a small stack-oriented scripting language: a
//! resolver and a compiler that lower a syntax tree into blocks of
//! instructions, and a stack machine that runs them.

pub mod ast;
pub mod codec;
pub mod compiler;
pub mod error;
pub mod instruction;
pub mod interpreter;
pub mod laws;
pub mod lexer;
pub mod location;
pub mod parser;
pub mod program;
pub mod resolver;
pub mod token;
pub mod value;
