//! Assembler, interpreter and debugger core for Sublang, a small assembly
//! language that compiles down to Subleq.
pub mod args;
pub mod assembler;
pub mod codegen;
pub mod error;
pub mod feedback;
pub mod files;
pub mod interpreter;
pub mod lexer;
pub mod parser;
pub mod runtimes;
pub mod sanitiser;
pub mod scopes;
pub mod text;
pub mod tokens;
pub mod utils;
