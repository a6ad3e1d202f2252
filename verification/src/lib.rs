//! An execution core for a small stack-based virtual machine whose programs
//! are lazy, possibly cyclic graphs of primitive execution nodes.

pub mod example;
pub mod indexed_data;
pub mod lang;
pub mod vm;
pub mod webasm;
