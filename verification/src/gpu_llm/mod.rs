//! Settings of the `llama-cpp-2` based model runner.
pub mod context;
