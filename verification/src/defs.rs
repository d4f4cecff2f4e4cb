//! Small helpers shared by the kernel.
use vstd::prelude::*;

verus! {

/// Number of elements of an array.
pub fn nelem<T>(array: &[T]) -> (r: usize)
    ensures
        r == array@.len(),
{
    array.len()
}

} // verus!
