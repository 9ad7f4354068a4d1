//! From source text to a tree.


pub mod ast;
pub mod grammar;
pub mod lexer;
pub mod parser;
pub mod resolve;
pub mod spelling;
pub mod token;
