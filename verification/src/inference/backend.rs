//! The decoder backend.
use vstd::prelude::*;

verus! {

/// Proof that the decoder backend was initialized.
pub struct Backend;

} // verus!
