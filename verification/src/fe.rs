pub mod loc;
pub mod token;
pub mod lexer;
pub mod grammar;
pub mod parser;
pub mod ast;
pub mod ast_eq;
pub mod render;
