pub mod ast;
pub mod node;
pub mod parser;
