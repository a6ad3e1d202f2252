pub mod native_impl;
