//! The encoded byte length of a value, computed without touching any
//! source or sink.

use vstd::prelude::*;
use crate::varint::lemma_encode_u64_len;
use crate::varint::spec_encode;

verus! {

/// Returns the number of bytes that would be used to encode the given value
/// as a varint.
pub fn len_u64_varint(val: u64) -> (len: usize)
    ensures
        len == spec_encode(val as nat).len(),
        1 <= len <= 10,
{
    proof {
        lemma_encode_u64_len(val);
    }
    let mut n: usize = 1;
    let mut x: u64 = val / 128;
    while x > 0
        invariant
            1 <= n,
            spec_encode(val as nat).len() == n + (if x == 0 {
                0
            } else {
                spec_encode(x as nat).len()
            }),
            1 <= spec_encode(val as nat).len() <= 10,
        decreases x,
    {
        n = n + 1;
        x = x / 128;
    }
    n
}

/// Returns the number of bytes that would be used to encode the given value
/// as a varint.
pub fn len_usize_varint(val: usize) -> (len: usize)
    ensures
        len == spec_encode(val as nat).len(),
        1 <= len <= 10,
{
    len_u64_varint(val as u64)
}

} // verus!
