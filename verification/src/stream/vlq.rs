use vstd::arithmetic::power2::{lemma2_to64, lemma2_to64_rest, lemma_pow2_adds, lemma_pow2_pos, pow2};
use vstd::prelude::*;

use crate::error::AssetError;

verus! {

/// The largest number of bytes one little-endian varint may occupy.
pub const STREAM_VLQ_MAX_SIZE: usize = 10;

/// The wire bytes of a little-endian base-128 varint: the low seven
/// bits come first, every group but the last carries its high bit, and
/// the most significant group comes last.
pub open spec fn le_vlq_encode(n: nat) -> Seq<u8>
    decreases n,
{
    if n < 128 {
        seq![n as u8]
    } else {
        seq![(n % 128 + 128) as u8] + le_vlq_encode(n / 128)
    }
}

/// One step of little-endian varint parsing: each group read adds its
/// value at the weight `shift` names, and reading an eleventh byte, or
/// running out of input, fails.
pub open spec fn le_vlq_parse_rec(s: Seq<u8>, pos: int, acc: nat, shift: nat, count: int) -> Option<
    (nat, int),
>
    decreases 10 - count,
{
    if count >= 10 {
        None
    } else if pos < 0 || pos >= s.len() {
        None
    } else {
        let b = s[pos];
        let acc2 = acc + (b % 128) as nat * pow2(shift);
        if b < 128 {
            Some((acc2, pos + 1))
        } else {
            le_vlq_parse_rec(s, pos + 1, acc2, (shift + 7) as nat, count + 1)
        }
    }
}

/// The little-endian varint read from `s` at `pos`: its unreduced
/// value and the position just past its terminal byte.
pub open spec fn le_vlq_parse(s: Seq<u8>, pos: int) -> Option<(nat, int)> {
    le_vlq_parse_rec(s, pos, 0, 0, 0)
}

/// The decoded 64-bit value: the parsed value reduced modulo 2^64, as
/// the accumulator of the decoder wraps on oversized input.
pub open spec fn le_vlq_parse_u64(s: Seq<u8>, pos: int) -> Option<(u64, int)> {
    match le_vlq_parse(s, pos) {
        Some((n, end)) => Some(((n % 0x1_0000_0000_0000_0000nat) as u64, end)),
        None => None,
    }
}

/// An unsigned 64-bit value together with its little-endian
/// variable-length wire form.
#[derive(Debug, Clone, Copy, PartialEq, Eq, Structural)]
pub struct VLQu64(pub u64);

impl VLQu64 {
    /// Append the little-endian varint encoding of this value to
    /// `output` and return how many bytes were written.
    pub fn encode(&self, output: &mut Vec<u8>) -> (r: usize)
        ensures
            final(output)@ == old(output)@ + le_vlq_encode(self.0 as nat),
            r == le_vlq_encode(self.0 as nat).len(),
    {
        let len0 = output.len();
        Self::encode_rec(self.0, output);
        proof {
            lemma_le_vlq_encode_len(self.0 as nat);
        }
        output.len() - len0
    }

    /// Append the groups of `value`, low group first.
    fn encode_rec(value: u64, output: &mut Vec<u8>)
        ensures
            final(output)@ == old(output)@ + le_vlq_encode(value as nat),
            final(output)@.len() == old(output)@.len() + le_vlq_encode(value as nat).len(),
        decreases value,
    {
        if value > 127 {
            output.push((value % 128 + 128) as u8);
            Self::encode_rec(value / 128, output);
        } else {
            output.push(value as u8);
        }
        assert(output@ =~= old(output)@ + le_vlq_encode(value as nat));
    }

    /// Decode one little-endian varint from `input` starting at `pos`,
    /// returning the value and the position just past it.
    #[verifier::loop_isolation(false)]
    pub fn decode(input: &[u8], pos: usize) -> (r: Result<(VLQu64, usize), AssetError>)
        ensures
            match r {
                Ok((v, end)) => {
                    &&& le_vlq_parse_u64(input@, pos as int) == Some((v.0, end as int))
                    &&& pos < end <= input@.len()
                    &&& end - pos <= 10
                },
                Err(e) => {
                    &&& le_vlq_parse(input@, pos as int) is None
                    &&& (e == AssetError::OversizedVarint || e == AssetError::UnexpectedEof)
                },
            },
    {
        let ghost s = input@;
        let mut acc: u128 = 0;
        let mut mult: u64 = 1;
        let mut i: usize = 0;
        let mut p: usize = pos;
        proof {
            lemma_pow2_pos(0);
            lemma2_to64();
            lemma2_to64_rest();
        }
        while i < STREAM_VLQ_MAX_SIZE
            invariant
                0 <= i <= 9,
                p == pos + i,
                mult == pow2((7 * i) as nat),
                (acc as nat) < pow2((7 * i) as nat),
                le_vlq_parse_rec(s, pos as int, 0, 0, 0) == le_vlq_parse_rec(
                    s,
                    p as int,
                    acc as nat,
                    (7 * i) as nat,
                    i as int,
                ),
            decreases 10 - i,
        {
            if p >= input.len() {
                assert(le_vlq_parse_rec(s, p as int, acc as nat, (7 * i) as nat, i as int)
                    is None);
                return Err(AssetError::UnexpectedEof);
            }
            let b = input[p];
            proof {
                assert(pow2((7 * i) as nat) <= pow2(63)) by {
                    if 7 * i < 63 {
                        vstd::arithmetic::power2::lemma_pow2_strictly_increases(
                            (7 * i) as nat,
                            63,
                        );
                    }
                }
                lemma_pow2_adds((7 * i) as nat, 7);
                assert((acc as nat) + ((b % 128) as nat) * pow2((7 * i) as nat) < pow2(
                    (7 * (i + 1)) as nat,
                )) by (nonlinear_arith)
                    requires
                        (acc as nat) < pow2((7 * i) as nat),
                        ((b % 128) as nat) < 128,
                        pow2((7 * (i + 1)) as nat) == pow2((7 * i) as nat) * 128,
                ;
                assert(pow2((7 * (i + 1)) as nat) <= pow2(70)) by {
                    if 7 * (i + 1) < 70 {
                        vstd::arithmetic::power2::lemma_pow2_strictly_increases(
                            (7 * (i + 1)) as nat,
                            70,
                        );
                    }
                }
                assert(pow2(70) == pow2(63) * 128) by {
                    lemma_pow2_adds(63, 7);
                }
            }
            let acc2: u128 = acc + ((b % 128) as u128) * (mult as u128);
            if b < 128 {
                let value: u64 = (acc2 % 0x1_0000_0000_0000_0000u128) as u64;
                assert(le_vlq_parse_rec(s, p as int, acc as nat, (7 * i) as nat, i as int)
                    == Some((acc2 as nat, p + 1int)));
                return Ok((VLQu64(value), p + 1));
            }
            if i == 9 {
                assert(le_vlq_parse_rec(s, p as int, acc as nat, (7 * i) as nat, 9) is None);
                return Err(AssetError::OversizedVarint);
            }
            proof {
                assert(le_vlq_parse_rec(s, p as int, acc as nat, (7 * i) as nat, i as int)
                    == le_vlq_parse_rec(
                    s,
                    p + 1int,
                    acc2 as nat,
                    (7 * (i + 1)) as nat,
                    i + 1int,
                ));
            }
            acc = acc2;
            mult = mult * 128;
            i = i + 1;
            p = p + 1;
        }
        proof {
            assert(false);
        }
        Err(AssetError::UnexpectedEof)
    }
}

/// A little-endian varint takes at most ten bytes for any value below
/// 2^64, and always at least one.
pub proof fn lemma_le_vlq_encode_len(n: nat)
    ensures
        1 <= le_vlq_encode(n).len(),
        n < 0x1_0000_0000_0000_0000 ==> le_vlq_encode(n).len() <= 10,
{
    lemma_le_vlq_len_bound(n, 0);
    if n < 0x1_0000_0000_0000_0000 {
        lemma2_to64();
        lemma2_to64_rest();
        assert(pow2(70) == pow2(64) * 64) by {
            lemma_pow2_adds(64, 6);
        }
        lemma_le_vlq_len_rec(n, 10);
    }
}

/// `m < 2^(7k)` bounds the number of encoded groups by `k`.
proof fn lemma_le_vlq_len_rec(m: nat, k: nat)
    requires
        m < pow2((7 * k) as nat),
        k >= 1,
    ensures
        le_vlq_encode(m).len() <= k,
    decreases m,
{
    if m >= 128 {
        lemma_pow2_adds((7 * (k - 1)) as nat, 7);
        lemma2_to64();
        assert(k >= 2) by {
            if k == 1 {
                lemma2_to64();
            }
        }
        assert(m / 128 < pow2((7 * (k - 1)) as nat)) by (nonlinear_arith)
            requires
                m < pow2((7 * (k - 1)) as nat) * 128,
        ;
        lemma_le_vlq_len_rec(m / 128, (k - 1) as nat);
    }
}

/// Encoding always produces at least one byte.
proof fn lemma_le_vlq_len_bound(n: nat, dummy: int)
    ensures
        le_vlq_encode(n).len() >= 1,
    decreases n,
{
    if n >= 128 {
        lemma_le_vlq_len_bound(n / 128, dummy);
    }
}

/// Walking the parser over the encoding of `n` adds `n` at the weight
/// the current shift names.
proof fn lemma_le_vlq_parse_enc(s: Seq<u8>, pos: int, acc: nat, shift: nat, count: int, n: nat)
    requires
        crate::asset::bytes_at(s, pos, le_vlq_encode(n)),
        count >= 0,
        shift == 7 * count,
        count + le_vlq_encode(n).len() <= 10,
    ensures
        le_vlq_parse_rec(s, pos, acc, shift, count) == Some(
            (acc + n * pow2(shift), pos + le_vlq_encode(n).len()),
        ),
    decreases n,
{
    let e = le_vlq_encode(n);
    let b = s[pos];
    assert(b == e[0]) by {
        assert(s.subrange(pos, pos + e.len() as int)[0] == s[pos]);
    }
    if n < 128 {
        assert(b == n as u8);
        assert(acc + (b % 128) as nat * pow2(shift) == acc + n * pow2(shift));
    } else {
        assert(b == (n % 128 + 128) as u8);
        assert(b >= 128);
        assert((b % 128) as nat == n % 128);
        let rest = le_vlq_encode(n / 128);
        assert(e == seq![(n % 128 + 128) as u8] + rest);
        crate::asset::lemma_bytes_at_split(s, pos, seq![(n % 128 + 128) as u8], rest);
        let acc2 = acc + (n % 128) * pow2(shift);
        lemma_le_vlq_parse_enc(s, pos + 1, acc2, (shift + 7) as nat, count + 1, n / 128);
        lemma_pow2_adds(shift, 7);
        lemma2_to64();
        assert(acc2 + (n / 128) * (pow2(shift) * 128) == acc + n * pow2(shift))
            by (nonlinear_arith)
            requires
                acc2 == acc + (n % 128) * pow2(shift),
                n == (n / 128) * 128 + n % 128,
        ;
        assert(n == (n / 128) * 128 + n % 128) by (nonlinear_arith);
    }
}

/// Decoding reads back exactly the value that encoding wrote.
pub proof fn lemma_le_vlq_round_trip(s: Seq<u8>, pos: int, n: u64)
    requires
        crate::asset::bytes_at(s, pos, le_vlq_encode(n as nat)),
    ensures
        le_vlq_parse_u64(s, pos) == Some((n, pos + le_vlq_encode(n as nat).len())),
{
    lemma_le_vlq_encode_len(n as nat);
    lemma_pow2_pos(0);
    lemma2_to64();
    lemma_le_vlq_parse_enc(s, pos, 0, 0, 0, n as nat);
    assert(0 + (n as nat) * pow2(0) == n as nat) by (nonlinear_arith)
        requires
            pow2(0) == 1,
    ;
    assert((n as nat) % 0x1_0000_0000_0000_0000nat == n as nat);
}

/// A signed 64-bit value together with its zig-zag little-endian wire
/// form.
#[derive(Debug, Clone, Copy, PartialEq, Eq, Structural)]
pub struct VLQi64(pub i64);

/// The wire bytes of a signed little-endian varint.
pub open spec fn le_vlq_encode_i64(n: i64) -> Seq<u8> {
    le_vlq_encode(crate::asset::vlq::zigzag(n) as nat)
}

/// The signed little-endian varint read from `s` at `pos`.
pub open spec fn le_vlq_parse_i64(s: Seq<u8>, pos: int) -> Option<(i64, int)> {
    match le_vlq_parse_u64(s, pos) {
        Some((v, end)) => Some((crate::asset::vlq::unzigzag(v), end)),
        None => None,
    }
}

impl VLQi64 {
    /// Append the zig-zag little-endian varint encoding of this value.
    pub fn encode(&self, output: &mut Vec<u8>) -> (r: usize)
        ensures
            final(output)@ == old(output)@ + le_vlq_encode_i64(self.0),
            r == le_vlq_encode_i64(self.0).len(),
    {
        let target: u64 = if self.0 < 0 {
            ((-(self.0 + 1)) as u64) * 2 + 1
        } else {
            (self.0 as u64) * 2
        };
        assert(target == crate::asset::vlq::zigzag(self.0));
        VLQu64(target).encode(output)
    }

    /// Decode one signed little-endian varint from `input` at `pos`.
    pub fn decode(input: &[u8], pos: usize) -> (r: Result<(VLQi64, usize), AssetError>)
        ensures
            match r {
                Ok((v, end)) => {
                    &&& le_vlq_parse_i64(input@, pos as int) == Some((v.0, end as int))
                    &&& pos < end <= input@.len()
                },
                Err(e) => {
                    &&& le_vlq_parse(input@, pos as int) is None
                    &&& (e == AssetError::OversizedVarint || e == AssetError::UnexpectedEof)
                },
            },
    {
        let (VLQu64(value), end) = VLQu64::decode(input, pos)?;
        if value % 2 == 0 {
            Ok((VLQi64((value / 2) as i64), end))
        } else {
            Ok((VLQi64(-((value / 2) as i64) - 1), end))
        }
    }
}

/// Decoding reads back exactly the signed value that encoding wrote.
pub proof fn lemma_le_vlq_i64_round_trip(s: Seq<u8>, pos: int, n: i64)
    requires
        crate::asset::bytes_at(s, pos, le_vlq_encode_i64(n)),
    ensures
        le_vlq_parse_i64(s, pos) == Some((n, pos + le_vlq_encode_i64(n).len())),
{
    lemma_le_vlq_round_trip(s, pos, crate::asset::vlq::zigzag(n));
    crate::asset::vlq::lemma_zigzag_round_trip(n);
}

} // verus!
