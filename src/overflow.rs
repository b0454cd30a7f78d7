//! Additions of `u32` values that must not overflow.

use vstd::prelude::*;

verus! {

/// The sum of two values whose sum fits in a `u32`.
pub fn simple_addition(a: u32, b: u32) -> (r: u32)
    requires
        a + b <= u32::MAX,
    ensures
        r == a + b,
{
    a + b
}

/// Adds any two values whose sum fits.
pub fn add_overflow(a: u32, b: u32) -> (r: u32)
    requires
        a + b <= u32::MAX,
    ensures
        r == a + b,
{
    simple_addition(a, b)
}

/// The midpoint of `low` and `high`, or `None` where their sum does not fit in a `u32`.
pub fn find_midpoint(low: u32, high: u32) -> (r: Option<u32>)
    ensures
        low + high <= u32::MAX ==> r == Some(((low + high) / 2) as u32),
        low + high > u32::MAX ==> r is None,
{
    match low.checked_add(high) {
        Some(sum) => Some(sum / 2),
        None => None,
    }
}

/// The midpoint of any two values, where it can be computed.
pub fn midpoint_overflow(a: u32, b: u32) -> (r: Option<u32>)
    ensures
        r == (if a + b <= u32::MAX {
            Some(((a + b) / 2) as u32)
        } else {
            None
        }),
{
    find_midpoint(a, b)
}

} // verus!
