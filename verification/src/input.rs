//! The marker for inputs that are text by construction.

use crate::text::AStr;
use vstd::prelude::*;

verus! {

/// Inputs whose bytes are known to be well-formed UTF-8 because they are
/// text-typed to begin with: borrowed text and fixed-capacity text. The
/// literal construction path is restricted to such inputs, so it never has
/// to re-validate.
pub trait ValidInput {

}

impl ValidInput for &str {

}

impl<const N: usize> ValidInput for AStr<N> {

}

impl<const N: usize> ValidInput for &AStr<N> {

}

/// Pass a value through, accepting only text-typed inputs.
pub fn valid_input<T: ValidInput>(inp: T) -> (r: T)
    ensures
        r == inp,
{
    inp
}

} // verus!
