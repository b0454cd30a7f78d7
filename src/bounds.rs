//! Reading a slice at an index taken modulo its length.

use vstd::prelude::*;

verus! {

/// The element at `i` modulo the length of `a`, or 0 for an empty slice.
pub fn get_wrapped(i: usize, a: &[u32]) -> (r: u32)
    ensures
        a@.len() == 0 ==> r == 0,
        a@.len() > 0 ==> r == a@[(i as int) % (a@.len() as int)],
{
    if a.len() == 0 {
        return 0;
    }
    a[i % a.len()]
}

/// Any index into a zero-filled vector of fewer than 4096 elements reads 0.
pub fn bound_check(size: usize, index: usize) -> (r: u32)
    requires
        size < 4096,
    ensures
        r == 0,
{
    let array: Vec<u32> = vec![0; size];
    let r = get_wrapped(index, array.as_slice());
    proof {
        if array@.len() > 0 {
            assert(array@[(index as int) % (array@.len() as int)] == 0);
        }
    }
    r
}

} // verus!
