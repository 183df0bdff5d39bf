//! Reading varint-encoded integers from a byte-oriented source.

use vstd::prelude::*;
use crate::varint::VarintError;
use crate::varint::decode_connects;
use crate::varint::decode64;
use crate::varint::lemma_continuation_prefix;
use crate::varint::lemma_decode_connects_finish;
use crate::varint::lemma_decode_connects_start;
use crate::varint::lemma_decode_connects_step;
use crate::varint::lemma_pow128_9;
use crate::varint::lemma_pow128_monotone;
use crate::varint::pow128;
use crate::varint::read_u64_post;
use crate::varint::read_usize_post;
use crate::varint::try_read_u64_post;
use crate::varint::try_read_usize_post;

verus! {

/// A source that varint-encoded integers can be read from. `remaining()` is
/// the sequence of bytes the source still holds; a read consumes exactly
/// the bytes of one varint on success, and on an error the number of bytes
/// consumed is left unspecified, as a failed read leaves a real stream
/// positioned arbitrarily.
pub trait ReadVarInt {
    /// The bytes this source has not yet handed out.
    spec fn remaining(&self) -> Seq<u8>;

    /// Read a varint from this object that will fit into a `u64`.
    ///
    /// An exhausted or truncated source gives `VarintError::UnexpectedEof`;
    /// a varint whose value would exceed 64 bits gives
    /// `VarintError::Overflow`.
    fn read_u64_varint(&mut self) -> (r: Result<u64, VarintError>)
        ensures
            read_u64_post(old(self).remaining(), final(self).remaining(), r),
    ;

    /// Read a varint from this object that will fit into a `usize`.
    ///
    /// The varint is read as for a `u64` and then narrowed; on a target
    /// whose `usize` is 64 bits wide the two widths coincide.
    fn read_usize_varint(&mut self) -> (r: Result<usize, VarintError>)
        ensures
            read_usize_post(old(self).remaining(), final(self).remaining(), r),
    ;

    /// Attempt to read a varint from this object that will fit into a
    /// `u64`.
    ///
    /// A source with no bytes at all gives `Ok(None)`: absence is not an
    /// error at a varint boundary. A source that ends after at least one
    /// byte of an unfinished varint gives `VarintError::UnexpectedEof`.
    fn try_read_u64_varint(&mut self) -> (r: Result<Option<u64>, VarintError>)
        ensures
            try_read_u64_post(old(self).remaining(), final(self).remaining(), r),
    ;

    /// Attempt to read a varint from this object that will fit into a
    /// `usize`.
    ///
    /// As `try_read_u64_varint`, with the value then narrowed to `usize`.
    fn try_read_usize_varint(&mut self) -> (r: Result<Option<usize>, VarintError>)
        ensures
            try_read_usize_post(old(self).remaining(), final(self).remaining(), r),
    ;
}

/// Whether a varint is still unfinished after some of its bytes have been
/// read: `last` is the byte read most recently and `count` how many bytes
/// of the varint have been read so far. A set high bit announces a
/// following byte, but never past the tenth: the tenth byte is final
/// whatever it holds. A driver feeding the decoder from a live stream can
/// ask this after each byte to read exactly one varint, no byte more: the
/// answer is true exactly when the bytes so far decode as truncated.
pub fn varint_needs_more(last: u8, count: usize) -> (more: bool)
    ensures
        more == (last >= 128 && count < 10),
        forall|s: Seq<u8>|
            (s.len() == count && 1 <= count <= 10 && s[count - 1] == last && (forall|i: int|
                0 <= i < count - 1 ==> s[i] >= 128)) ==> (more
                <==> #[trigger] decode64(s) is Truncated),
{
    let more: bool = last >= 128 && count < 10;
    proof {
        assert forall|s: Seq<u8>|
            (s.len() == count && 1 <= count <= 10 && s[count - 1] == last && (forall|i: int|
                0 <= i < count - 1 ==> s[i] >= 128)) implies (more
            <==> #[trigger] decode64(s) is Truncated) by {
            lemma_continuation_prefix(s, 9);
        }
    }
    more
}

/// An in-memory byte source: a buffer and how far it has been consumed.
pub struct ByteSource {
    data: Vec<u8>,
    pos: usize,
}

impl ByteSource {
    #[verifier::type_invariant]
    spec fn wf(self) -> bool {
        self.pos <= self.data@.len()
    }

    /// A source holding `data`, none of it consumed yet.
    pub fn new(data: Vec<u8>) -> (s: ByteSource)
        ensures
            s.remaining() == data@,
    {
        ByteSource { data, pos: 0 }
    }
}

/// Decodes one varint from `data` at `start`: the value read and the
/// position just past it, or the error that `spec_decode` assigns to the
/// bytes from `start` on.
fn decode_from(data: &Vec<u8>, start: usize) -> (r: (Result<u64, VarintError>, usize))
    requires
        start <= data@.len(),
    ensures
        start <= r.1 <= data@.len(),
        read_u64_post(data@.skip(start as int), data@.skip(r.1 as int), r.0),
{
    let ghost full: Seq<u8> = data@.skip(start as int);
    if start == data.len() {
        return (Err(VarintError::UnexpectedEof), start);
    }
    let first: u8 = data[start];
    if first < 128 {
        proof {
            assert(full.skip(1) =~= data@.skip(start as int + 1));
        }
        return (Ok(first as u64), start + 1);
    }
    proof {
        lemma_decode_connects_start(full);
        assert(full.skip(1) =~= data@.skip(start as int + 1));
        lemma_pow128_9();
    }
    let mut result: u64 = (first % 128) as u64;
    let mut k: usize = 1;
    let mut scale: u64 = 128;
    let mut pos: usize = start + 1;
    loop
        invariant
            1 <= k <= 8,
            pos == start + k,
            pos <= data@.len(),
            scale == pow128(k as nat),
            result < scale,
            decode_connects(full, data@.skip(pos as int), result as nat, k as nat),
            full == data@.skip(start as int),
        decreases 9 - k,
    {
        let ghost rest: Seq<u8> = data@.skip(pos as int);
        let ghost acc0: nat = result as nat;
        let ghost k0: nat = k as nat;
        if pos == data.len() {
            proof {
                assert(rest =~= Seq::<u8>::empty());
            }
            return (Err(VarintError::UnexpectedEof), pos);
        }
        let current: u8 = data[pos];
        proof {
            assert(rest[0] == current);
            lemma_pow128_9();
            lemma_pow128_monotone(k0, 8);
            assert(pow128(k0 + 1) == 128 * pow128(k0));
            lemma_pow128_monotone(k0 + 1, 9);
        }
        let payload: u64 = (current % 128) as u64;
        proof {
            assert(payload * scale <= 127 * scale) by (nonlinear_arith)
                requires
                    payload <= 127,
                    scale >= 0,
            ;
        }
        result = result + payload * scale;
        pos = pos + 1;
        k = k + 1;
        proof {
            assert(rest.skip(1) =~= data@.skip(pos as int));
            vstd::arithmetic::mul::lemma_mul_is_commutative(payload as int, scale as int);
        }
        if current < 128 {
            proof {
                lemma_decode_connects_finish(full, rest, acc0, k0);
                assert(full.skip((k0 + 1) as int) =~= data@.skip(pos as int));
            }
            return (Ok(result), pos);
        }
        proof {
            lemma_decode_connects_step(full, rest, acc0, k0);
        }
        if k == 9 {
            let ghost last_rest: Seq<u8> = data@.skip(pos as int);
            if pos == data.len() {
                proof {
                    assert(last_rest =~= Seq::<u8>::empty());
                }
                return (Err(VarintError::UnexpectedEof), pos);
            }
            let last: u8 = data[pos];
            proof {
                assert(last_rest[0] == last);
            }
            if last == 1 {
                proof {
                    assert(pow128(9) * 1 == pow128(9));
                    assert(full.skip(10) =~= data@.skip(pos as int + 1));
                }
                let total: u64 = result + 0x8000000000000000;
                return (Ok(total), pos + 1);
            } else {
                return (Err(VarintError::Overflow), pos + 1);
            }
        }
        scale = scale * 128;
    }
}

impl ReadVarInt for ByteSource {
    closed spec fn remaining(&self) -> Seq<u8> {
        self.data@.skip(self.pos as int)
    }

    fn read_u64_varint(&mut self) -> (r: Result<u64, VarintError>) {
        proof {
            use_type_invariant(&*self);
        }
        let decoded = decode_from(&self.data, self.pos);
        self.pos = decoded.1;
        decoded.0
    }

    fn read_usize_varint(&mut self) -> (r: Result<usize, VarintError>) {
        match self.read_u64_varint() {
            Ok(v) => Ok(v as usize),
            Err(e) => Err(e),
        }
    }

    fn try_read_u64_varint(&mut self) -> (r: Result<Option<u64>, VarintError>) {
        proof {
            use_type_invariant(&*self);
        }
        if self.pos == self.data.len() {
            return Ok(None);
        }
        match self.read_u64_varint() {
            Ok(v) => Ok(Some(v)),
            Err(e) => Err(e),
        }
    }

    fn try_read_usize_varint(&mut self) -> (r: Result<Option<usize>, VarintError>) {
        match self.try_read_u64_varint() {
            Ok(Some(v)) => Ok(Some(v as usize)),
            Ok(None) => Ok(None),
            Err(e) => Err(e),
        }
    }
}

} // verus!
