//! Writing integers to a byte-oriented sink in the varint format.

use vstd::prelude::*;
use crate::varint::VarintError;
use crate::varint::spec_encode;

verus! {

/// A sink that integers can be written to in the varint format. `stream()`
/// is the sequence of bytes the sink has accepted so far; a write that
/// succeeds appends exactly the minimal encoding of its value. A sink is
/// free to fail, and how many bytes it took before failing is left
/// unspecified.
pub trait WriteVarInt {
    /// The bytes this sink has accepted so far.
    spec fn stream(&self) -> Seq<u8>;

    /// Write a `u64` to this sink encoded as a varint.
    fn write_u64_varint(&mut self, val: u64) -> (r: Result<(), VarintError>)
        ensures
            r is Ok ==> final(self).stream() == old(self).stream() + spec_encode(val as nat),
    ;

    /// Write a `usize` to this sink encoded as a varint.
    fn write_usize_varint(&mut self, val: usize) -> (r: Result<(), VarintError>)
        ensures
            r is Ok ==> final(self).stream() == old(self).stream() + spec_encode(val as nat),
    ;
}

/// An in-memory sink: writing to a byte vector appends to it and never
/// fails.
impl WriteVarInt for Vec<u8> {
    open spec fn stream(&self) -> Seq<u8> {
        self@
    }

    fn write_u64_varint(&mut self, val: u64) -> (r: Result<(), VarintError>)
        ensures
            r is Ok,
    {
        let mut v: u64 = val;
        loop
            invariant
                self@ + spec_encode(v as nat) == old(self)@ + spec_encode(val as nat),
            decreases v,
        {
            let byte: u8 = (v % 128) as u8;
            let ghost prev: u64 = v;
            v = v / 128;
            if v == 0 {
                self.push(byte);
                proof {
                    assert(self@ =~= old(self)@ + spec_encode(val as nat));
                }
                return Ok(());
            } else {
                self.push(byte + 128);
                proof {
                    assert(spec_encode(prev as nat) == seq![(byte + 128) as u8] + spec_encode(v as nat));
                    assert(self@ + spec_encode(v as nat) =~= old(self)@ + spec_encode(
                        val as nat,
                    ));
                }
            }
        }
    }

    fn write_usize_varint(&mut self, val: usize) -> (r: Result<(), VarintError>)
        ensures
            r is Ok,
    {
        self.write_u64_varint(val as u64)
    }
}

} // verus!
