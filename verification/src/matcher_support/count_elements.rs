//! Counting the elements of a collection from its size hint.

use vstd::prelude::*;

verus! {

/// The number of elements, when the size hint `(lower, upper)` of an
/// iterator over them pins it down: `Some(lower)` when the upper bound is
/// known and equal to the lower bound, else `None` (the elements must then
/// be counted one by one).
pub fn count_from_size_hint(lower: usize, upper: Option<usize>) -> (r: Option<usize>)
    ensures
        r == (match upper {
            Some(higher) => if higher == lower { Some(lower) } else { None },
            None => None,
        }),
{
    match upper {
        Some(higher) => {
            if lower == higher {
                Some(lower)
            } else {
                None
            }
        },
        None => None,
    }
}

} // verus!
