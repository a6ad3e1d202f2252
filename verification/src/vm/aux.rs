pub mod specialized_interpreter_engine;
