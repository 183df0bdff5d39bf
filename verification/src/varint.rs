//! The mathematical model of the varint format: what encoding a value
//! yields, what decoding a byte sequence yields, and the laws tying the two
//! together.

use vstd::prelude::*;

verus! {

/// What can go wrong while coding a varint: the underlying byte stream ended
/// before the varint was complete, or the varint's value does not fit in 64
/// bits.
#[derive(Clone, Copy, Debug, PartialEq, Eq, Structural)]
pub enum VarintError {
    /// The source ran out of bytes before a terminal byte was seen.
    UnexpectedEof,
    /// A tenth byte was reached and was not exactly `0x01`: the encoded
    /// value would exceed 64 bits.
    Overflow,
}

/// The outcome of decoding one varint from the front of a byte sequence.
pub enum DecodeOutcome {
    /// The first `size` bytes form a complete varint encoding `value`.
    Value { value: nat, size: nat },
    /// The sequence ended before a terminal byte.
    Truncated,
    /// The final allowed byte was present and was not exactly `0x01`: the
    /// value would exceed the representable range.
    Overflow,
}

/// 128 raised to `k`: the weight of the `k`-th base-128 group.
pub open spec fn pow128(k: nat) -> nat
    decreases k,
{
    if k == 0 {
        1
    } else {
        128 * pow128((k - 1) as nat)
    }
}

/// Decodes one varint from the front of `s`. `budget` is how many ordinary
/// payload bytes may still appear before the special final byte. A fresh
/// 64-bit decode starts with budget 9: nine bytes carry bits 0 through 62,
/// and a tenth byte may only be exactly `0x01`, standing for bit 63 alone.
/// The value of the outcome is local: it is not scaled by the weight of the
/// groups already consumed.
pub open spec fn spec_decode(s: Seq<u8>, budget: nat) -> DecodeOutcome
    decreases budget,
{
    if s.len() == 0 {
        DecodeOutcome::Truncated
    } else if budget == 0 {
        if s[0] == 1 {
            DecodeOutcome::Value { value: 1, size: 1 }
        } else {
            DecodeOutcome::Overflow
        }
    } else if s[0] < 128 {
        DecodeOutcome::Value { value: s[0] as nat, size: 1 }
    } else {
        match spec_decode(s.skip(1), (budget - 1) as nat) {
            DecodeOutcome::Value { value, size } => DecodeOutcome::Value {
                value: (s[0] - 128 + 128 * value) as nat,
                size: size + 1,
            },
            DecodeOutcome::Truncated => DecodeOutcome::Truncated,
            DecodeOutcome::Overflow => DecodeOutcome::Overflow,
        }
    }
}

/// Decoding one 64-bit varint from the front of `s`.
pub open spec fn decode64(s: Seq<u8>) -> DecodeOutcome {
    spec_decode(s, 9)
}

/// The varint encoding of `v`: base-128 groups, least significant first,
/// the high bit set on every byte but the last.
pub open spec fn spec_encode(v: nat) -> Seq<u8>
    decreases v,
{
    if v < 128 {
        seq![v as u8]
    } else {
        seq![(v % 128 + 128) as u8] + spec_encode(v / 128)
    }
}

/// What reading one 64-bit varint promises: `pre` is the source's content
/// before the call, `post` after it, `r` the result. On success the decoded
/// value comes back and exactly the varint's bytes are consumed; on an error
/// the bytes consumed are left unspecified, as a failed read leaves a real
/// stream positioned arbitrarily.
pub open spec fn read_u64_post(pre: Seq<u8>, post: Seq<u8>, r: Result<u64, VarintError>) -> bool {
    match decode64(pre) {
        DecodeOutcome::Value { value, size } => {
            &&& value <= u64::MAX
            &&& r == Ok::<u64, VarintError>(value as u64)
            &&& post == pre.skip(size as int)
        },
        DecodeOutcome::Truncated => r == Err::<u64, VarintError>(VarintError::UnexpectedEof),
        DecodeOutcome::Overflow => r == Err::<u64, VarintError>(VarintError::Overflow),
    }
}

/// As `read_u64_post`, but the value is then narrowed to `usize`; on a
/// 64-bit target the two widths coincide.
pub open spec fn read_usize_post(pre: Seq<u8>, post: Seq<u8>, r: Result<usize, VarintError>) -> bool {
    match decode64(pre) {
        DecodeOutcome::Value { value, size } => {
            &&& value <= u64::MAX
            &&& r == Ok::<usize, VarintError>((value as u64) as usize)
            &&& post == pre.skip(size as int)
        },
        DecodeOutcome::Truncated => r == Err::<usize, VarintError>(VarintError::UnexpectedEof),
        DecodeOutcome::Overflow => r == Err::<usize, VarintError>(VarintError::Overflow),
    }
}

/// What attempting to read one 64-bit varint promises: an empty source is
/// not an error but absence; anything else is read as by `read_u64_post`.
pub open spec fn try_read_u64_post(
    pre: Seq<u8>,
    post: Seq<u8>,
    r: Result<Option<u64>, VarintError>,
) -> bool {
    if pre.len() == 0 {
        r == Ok::<Option<u64>, VarintError>(None) && post == pre
    } else {
        match decode64(pre) {
            DecodeOutcome::Value { value, size } => {
                &&& value <= u64::MAX
                &&& r == Ok::<Option<u64>, VarintError>(Some(value as u64))
                &&& post == pre.skip(size as int)
            },
            DecodeOutcome::Truncated => r == Err::<Option<u64>, VarintError>(
                VarintError::UnexpectedEof,
            ),
            DecodeOutcome::Overflow => r == Err::<Option<u64>, VarintError>(VarintError::Overflow),
        }
    }
}

/// As `try_read_u64_post`, but the value is then narrowed to `usize`.
pub open spec fn try_read_usize_post(
    pre: Seq<u8>,
    post: Seq<u8>,
    r: Result<Option<usize>, VarintError>,
) -> bool {
    if pre.len() == 0 {
        r == Ok::<Option<usize>, VarintError>(None) && post == pre
    } else {
        match decode64(pre) {
            DecodeOutcome::Value { value, size } => {
                &&& value <= u64::MAX
                &&& r == Ok::<Option<usize>, VarintError>(Some((value as u64) as usize))
                &&& post == pre.skip(size as int)
            },
            DecodeOutcome::Truncated => r == Err::<Option<usize>, VarintError>(
                VarintError::UnexpectedEof,
            ),
            DecodeOutcome::Overflow => r == Err::<Option<usize>, VarintError>(
                VarintError::Overflow,
            ),
        }
    }
}

/// The tie between a partly consumed varint and the whole one: `full` is
/// the byte sequence the varint starts at, `rest` what remains of it after
/// `k` continuation-flagged bytes whose payloads assemble to `acc`.
/// Whatever decoding the remainder with the remaining budget yields,
/// decoding the whole sequence yields the composed outcome.
pub open spec fn decode_connects(full: Seq<u8>, rest: Seq<u8>, acc: nat, k: nat) -> bool {
    match spec_decode(rest, (9 - k) as nat) {
        DecodeOutcome::Value { value, size } => decode64(full) == (DecodeOutcome::Value {
            value: acc + pow128(k) * value,
            size: k + size,
        }),
        DecodeOutcome::Truncated => decode64(full) == DecodeOutcome::Truncated,
        DecodeOutcome::Overflow => decode64(full) == DecodeOutcome::Overflow,
    }
}

/// A varint that opens with a continuation-flagged byte connects to its own
/// remainder: one group of payload is in hand, eight more may follow.
pub proof fn lemma_decode_connects_start(full: Seq<u8>)
    requires
        full.len() > 0,
        full[0] >= 128,
    ensures
        decode_connects(full, full.skip(1), (full[0] - 128) as nat, 1),
{
    assert(pow128(1) == 128 * pow128(0));
    let p: int = full[0] - 128;
    match spec_decode(full.skip(1), 8) {
        DecodeOutcome::Value { value, size } => {
            assert(decode64(full) == (DecodeOutcome::Value {
                value: (p + 128 * value) as nat,
                size: size + 1,
            }));
        },
        DecodeOutcome::Truncated => {},
        DecodeOutcome::Overflow => {},
    }
}

/// Consuming one more continuation-flagged byte keeps the connection, its
/// payload joining the accumulator with the weight of its group.
pub proof fn lemma_decode_connects_step(full: Seq<u8>, rest: Seq<u8>, acc: nat, k: nat)
    requires
        1 <= k <= 8,
        decode_connects(full, rest, acc, k),
        rest.len() > 0,
        rest[0] >= 128,
    ensures
        decode_connects(full, rest.skip(1), acc + pow128(k) * ((rest[0] - 128) as nat), k + 1),
{
    let b: nat = (9 - k) as nat;
    let p: int = rest[0] - 128;
    let w: int = pow128(k) as int;
    assert(pow128(k + 1) == 128 * pow128(k));
    match spec_decode(rest.skip(1), (b - 1) as nat) {
        DecodeOutcome::Value { value, size } => {
            assert(spec_decode(rest, b) == (DecodeOutcome::Value {
                value: (p + 128 * value) as nat,
                size: size + 1,
            }));
            assert(w * (p + 128 * value) == w * p + (128 * w) * value) by (nonlinear_arith);
        },
        DecodeOutcome::Truncated => {},
        DecodeOutcome::Overflow => {},
    }
}

/// A terminal byte closes the varint: the whole sequence decodes to the
/// accumulator joined by that byte's payload at the weight of its group.
pub proof fn lemma_decode_connects_finish(full: Seq<u8>, rest: Seq<u8>, acc: nat, k: nat)
    requires
        1 <= k <= 8,
        decode_connects(full, rest, acc, k),
        rest.len() > 0,
        rest[0] < 128,
    ensures
        decode64(full) == (DecodeOutcome::Value {
            value: acc + pow128(k) * (rest[0] as nat),
            size: k + 1,
        }),
{
    assert(spec_decode(rest, (9 - k) as nat) == (DecodeOutcome::Value {
        value: rest[0] as nat,
        size: 1,
    }));
}

/// In a sequence whose every byte but the last is continuation-flagged,
/// decoding is left unfinished exactly when the last byte is
/// continuation-flagged too and the budget's final byte has not been
/// reached: that final byte closes the varint whatever it holds.
pub proof fn lemma_continuation_prefix(s: Seq<u8>, budget: nat)
    requires
        1 <= s.len() <= budget + 1,
        forall|i: int| 0 <= i < s.len() - 1 ==> s[i] >= 128,
    ensures
        (spec_decode(s, budget) is Truncated) <==> (s[s.len() - 1] >= 128 && s.len() < budget
            + 1),
    decreases s.len(),
{
    if s.len() > 1 {
        assert forall|i: int| 0 <= i < s.skip(1).len() - 1 implies s.skip(1)[i] >= 128 by {
            assert(s.skip(1)[i] == s[i + 1]);
        }
        lemma_continuation_prefix(s.skip(1), (budget - 1) as nat);
    } else if budget > 0 && s[0] >= 128 {
        assert(spec_decode(s.skip(1), (budget - 1) as nat) is Truncated);
    }
}

/// A power of 128 is positive.
pub proof fn lemma_pow128_pos(k: nat)
    ensures
        pow128(k) >= 1,
    decreases k,
{
    if k > 0 {
        lemma_pow128_pos((k - 1) as nat);
    }
}

/// Powers of 128 grow with the exponent.
pub proof fn lemma_pow128_monotone(a: nat, b: nat)
    requires
        a <= b,
    ensures
        pow128(a) <= pow128(b),
    decreases b,
{
    if a < b {
        lemma_pow128_monotone(a, (b - 1) as nat);
        lemma_pow128_pos((b - 1) as nat);
    }
}

/// The weight of the tenth group: 128 to the 9th is 2 to the 63rd.
pub proof fn lemma_pow128_9()
    ensures
        pow128(9) == 0x8000000000000000,
        pow128(8) == 0x100000000000000,
        pow128(1) == 128,
{
    reveal_with_fuel(pow128, 10);
}

/// Decoding inverts encoding, one group at a time. The budget must leave
/// room for the value; when it is spent, only the lone bit the special
/// final byte stands for may remain.
proof fn lemma_decode_encode(v: nat, budget: nat)
    requires
        v < 2 * pow128(budget),
        budget == 0 ==> v == 1,
    ensures
        spec_decode(spec_encode(v), budget) == (DecodeOutcome::Value {
            value: v,
            size: spec_encode(v).len(),
        }),
    decreases budget,
{
    if budget == 0 {
    } else if v < 128 {
    } else {
        let tail = spec_encode(v / 128);
        assert(spec_encode(v).skip(1) =~= tail);
        assert(v < 128 * (2 * pow128((budget - 1) as nat)));
        vstd::arithmetic::div_mod::lemma_multiply_divide_lt(
            v as int,
            128,
            2 * pow128((budget - 1) as nat) as int,
        );
        if budget == 1 {
            assert(pow128(1) == 128 * pow128(0));
            assert(v / 128 == 1);
        }
        lemma_decode_encode(v / 128, (budget - 1) as nat);
        vstd::arithmetic::div_mod::lemma_fundamental_div_mod(v as int, 128);
    }
}

/// Round trip: decoding the encoding of any 64-bit value gives that value
/// back, consuming the whole encoding.
pub proof fn lemma_encode_decode_roundtrip(v: u64)
    ensures
        decode64(spec_encode(v as nat)) == (DecodeOutcome::Value {
            value: v as nat,
            size: spec_encode(v as nat).len(),
        }),
{
    lemma_pow128_9();
    lemma_decode_encode(v as nat, 9);
}

/// An encoding is never empty, and a value below the weight of the `k`-th
/// group fits in `k` bytes.
pub proof fn lemma_encode_len(v: nat, k: nat)
    requires
        1 <= k,
        v < pow128(k),
    ensures
        1 <= spec_encode(v).len() <= k,
    decreases k,
{
    if v < 128 {
    } else {
        assert(pow128(k) == 128 * pow128((k - 1) as nat));
        vstd::arithmetic::div_mod::lemma_multiply_divide_lt(
            v as int,
            128,
            pow128((k - 1) as nat) as int,
        );
        lemma_encode_len(v / 128, (k - 1) as nat);
    }
}

/// A 64-bit value's encoding takes between one and ten bytes.
pub proof fn lemma_encode_u64_len(v: u64)
    ensures
        1 <= spec_encode(v as nat).len() <= 10,
{
    lemma_pow128_9();
    lemma_pow128_pos(9);
    assert(pow128(10) == 128 * pow128(9));
    lemma_encode_len(v as nat, 10);
}

} // verus!
