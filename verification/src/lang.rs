pub mod ast;
pub mod common;
pub mod interpreter;
pub mod loader;
pub mod operations;
pub mod parser;
pub mod stack;
