//! Helpers for the randomized tests that compare walks against their
//! reversals.

use vstd::prelude::*;

verus! {

/// The reversal of a slice, as a fresh vector: entry `i` of the result is
/// entry `len - 1 - i` of the input.
pub fn reverse_slice<T: Copy>(points: &[T]) -> (r: Vec<T>)
    ensures
        r@.len() == points@.len(),
        forall|i: int| 0 <= i < r@.len() ==> r@[i] == points@[points@.len() - 1 - i],
{
    let mut out: Vec<T> = Vec::new();
    let mut left = points.len();
    while left > 0
        invariant
            left <= points@.len(),
            out@.len() + left == points@.len(),
            forall|i: int| 0 <= i < out@.len() ==> out@[i] == points@[points@.len() - 1 - i],
        decreases left,
    {
        left = left - 1;
        out.push(points[left]);
    }
    out
}

} // verus!
