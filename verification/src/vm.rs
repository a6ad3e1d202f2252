pub mod api;
pub mod aux;
pub mod cached_node;
pub mod caching_interpreter;
pub mod driver;
pub mod interpreter;
pub mod utils;
