pub mod common;
pub mod instruction;
pub mod parser;
