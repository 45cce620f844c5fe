//! The error taxonomy of the fallible construction paths.

use vstd::prelude::*;

verus! {

/// Why a fallible constructor or the bounded builder refused its input.
///
/// - `Utf8` reports a malformed byte sequence, carrying the byte offset of the
///   first position at which no well-formed scalar encoding starts.
/// - `LengthMismatch` reports an input whose byte length differs from the
///   statically required capacity.
/// - `CapacityExceeded` reports a builder write that would overrun the
///   capacity.
#[derive(Clone, Copy, Debug, PartialEq, Eq, Structural)]
pub enum AStrError {
    Utf8 { valid_up_to: usize },
    LengthMismatch { expected: usize, actual: usize },
    CapacityExceeded { capacity: usize, attempted: usize },
}

} // verus!
