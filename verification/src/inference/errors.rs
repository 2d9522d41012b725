//! Errors of the inference layer.
use vstd::prelude::*;

verus! {

/// Adding tokens to a batch failed.
#[derive(Debug, Clone, Copy, PartialEq, Eq, Structural)]
pub enum BatchAddError {
    /// The batch, allocated for this many tokens, is full.
    InsufficientSpace(usize),
    /// An empty token buffer was given.
    EmptyBuffer,
}

/// Decoding a batch failed, with the status code of the decoder.
#[derive(Debug, Clone, Copy, PartialEq, Eq, Structural)]
pub enum DecodeError {
    /// Status 1: no slot in the KV cache was free.
    NoKvCacheSlot,
    /// Status -1: the batch held no tokens.
    NTokensZero,
    /// Any other non-zero status.
    Unknown(i32),
}

/// Turning a token into text failed.
#[derive(Debug, Clone, Copy, PartialEq, Eq, Structural)]
pub enum TokenToStringError {
    /// The token has no text (the decoder wrote nothing).
    UnknownTokenType,
    /// The buffer was too small; the decoder asked for this many bytes, negated.
    InsufficientBufferSpace(i32),
}

/// The error that a non-zero decoder status stands for.
pub open spec fn decode_error_of(code: i32) -> DecodeError {
    if code == 1 {
        DecodeError::NoKvCacheSlot
    } else if code == -1 {
        DecodeError::NTokensZero
    } else {
        DecodeError::Unknown(code)
    }
}

impl DecodeError {
    /// The error for a non-zero decoder status.
    pub fn from_code(code: i32) -> (r: DecodeError)
        requires
            code != 0,
        ensures
            r == decode_error_of(code),
    {
        if code == 1 {
            DecodeError::NoKvCacheSlot
        } else if code == -1 {
            DecodeError::NTokensZero
        } else {
            DecodeError::Unknown(code)
        }
    }
}

} // verus!
