//! The codec's error taxonomy.  Every error is a local, recoverable event:
//! the state machines reset themselves and can keep consuming input.

use vstd::prelude::*;

verus! {

/// What can go wrong while transcoding.
#[derive(Clone, Copy, Debug, PartialEq, Eq, Structural)]
pub enum Bocu1Error {
    /// A scalar handed to the encoder lies outside `[0, 0x10ffff]`.
    InvalidCodePoint,
    /// A byte arrived where a trail byte was expected but cannot be mapped
    /// to a trail digit.
    IllegalTrailByte,
    /// A multi-byte group reconstructed a value outside `[0, 0x10ffff]`.
    IllegalCodePointResult,
}

} // verus!
