//! The context parameters that the runner overrides.
use vstd::prelude::*;

verus! {

/// The context size and batch size to build a context with; what is not
/// set keeps the library's default. Set values are never zero.
pub struct Params {
    pub n_ctx: Option<u32>,
    pub n_batch: Option<u32>,
}

impl Params {
    pub fn new() -> (r: Params)
        ensures
            r.n_ctx is None,
            r.n_batch is None,
    {
        Params { n_ctx: None, n_batch: None }
    }

    /// The context size.
    pub fn with_n_ctx(self, n_ctx: u32) -> (r: Params)
        requires
            n_ctx > 0,
        ensures
            r == (Params { n_ctx: Some(n_ctx), ..self }),
    {
        Params { n_ctx: Some(n_ctx), ..self }
    }

    /// The batch size.
    pub fn with_n_batch(self, n_batch: u32) -> (r: Params)
        requires
            n_batch > 0,
        ensures
            r == (Params { n_batch: Some(n_batch), ..self }),
    {
        Params { n_batch: Some(n_batch), ..self }
    }
}

} // verus!
