//! Zeroing the start of a buffer.

use vstd::prelude::*;

verus! {

/// Zeroes the bytes at indices `0..=length`; a `length` beyond the buffer
/// leaves it unchanged. A `length` equal to the buffer's length would write
/// one byte past its end and is left out.
pub fn initialize_prefix(length: usize, buffer: &mut [u8])
    requires
        length != old(buffer)@.len(),
    ensures
        final(buffer)@.len() == old(buffer)@.len(),
        length > old(buffer)@.len() ==> final(buffer)@ == old(buffer)@,
        length < old(buffer)@.len() ==> forall|j: int|
            0 <= j < old(buffer)@.len() ==> #[trigger] final(buffer)@[j] == if j <= length {
                0u8
            } else {
                old(buffer)@[j]
            },
{
    if length > buffer.len() {
        return;
    }
    let mut i: usize = 0;
    while i <= length
        invariant
            length < buffer@.len(),
            buffer@.len() == old(buffer)@.len(),
            0 <= i <= length + 1,
            forall|j: int|
                0 <= j < buffer@.len() ==> #[trigger] buffer@[j] == if j < i {
                    0u8
                } else {
                    old(buffer)@[j]
                },
        decreases length + 1 - i,
    {
        buffer[i] = 0;
        i = i + 1;
    }
}

/// Zeroes the start of a ten-byte buffer of ones, for any `length` below ten.
pub fn check_initialize_prefix(length: usize) -> (r: Vec<u8>)
    requires
        length < 10,
    ensures
        r@.len() == 10,
        forall|j: int| 0 <= j < 10 ==> #[trigger] r@[j] == if j <= length {
            0u8
        } else {
            1u8
        },
{
    let mut buffer: Vec<u8> = vec![1; 10];
    initialize_prefix(length, buffer.as_mut_slice());
    buffer
}

} // verus!
