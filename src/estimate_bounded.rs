//! Size classes of values below 4096, with 1023 in a class of its own.

use vstd::prelude::*;

verus! {

/// The size class of `x`.
pub open spec fn bounded_size_class(x: u32) -> u32 {
    if x < 128 {
        1
    } else if x < 256 {
        3
    } else if x < 1023 {
        5
    } else if x < 1024 {
        4
    } else if x < 2048 {
        7
    } else {
        9
    }
}

/// The size class of `x`, for `x` below 4096.
pub fn estimate_size(x: u32) -> (r: u32)
    requires
        x < 4096,
    ensures
        r == bounded_size_class(x),
{
    if x < 256 {
        if x < 128 {
            1
        } else {
            3
        }
    } else if x < 1024 {
        if x > 1022 {
            4
        } else {
            5
        }
    } else {
        if x < 2048 {
            7
        } else {
            9
        }
    }
}

/// Every value below 4096 has a size class below 10.
pub fn verify_success(x: u32) -> (r: u32)
    requires
        x < 4096,
    ensures
        r == bounded_size_class(x),
        r < 10,
{
    estimate_size(x)
}

} // verus!
