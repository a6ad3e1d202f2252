pub mod aarch64_utils;
pub mod code_generator_engine;
pub mod driver;
pub mod equivalence;
pub mod interpreter_engine;
pub mod machine;
pub mod resolution;
