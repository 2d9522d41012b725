//! The decision logic around a local language model: token batches, the
//! prefill and generation loop, and the decoder's status codes.
pub mod errors;
pub mod batch;
pub mod context;
pub mod model;
pub mod backend;
