//! The error type shared by the syntax layers.

use vstd::prelude::*;

verus! {

/// Why a packet, a header or a parameter set was refused.
#[derive(Clone, Copy, Debug, PartialEq, Eq)]
pub enum CodecError {
    /// The data ends before the syntax element that was asked for.
    Truncated,
    /// A field holds a value that the syntax does not allow.
    InvalidData(&'static str),
    /// A field selects a tool or a table entry that is reserved or not implemented.
    Unsupported(&'static str),
    /// Two stages of the decoder disagree about the same quantity.
    Internal(&'static str),
}

} // verus!
