use vstd::arithmetic::power2::{lemma2_to64, lemma2_to64_rest, lemma_pow2_adds, lemma_pow2_pos, pow2};
use vstd::prelude::*;

use crate::error::AssetError;

verus! {

/// The largest number of bytes one encoded varint may occupy: ten
/// seven-bit groups cover all sixty-four bits of the value.
pub const VLQ_MAX_SIZE: usize = 10;

/// Continuation bytes of the minimal big-endian base-128 form of `m`:
/// every group carries its high bit, most significant group first.
pub open spec fn vlq_encode_cont(m: nat) -> Seq<u8>
    decreases m,
{
    if m == 0 {
        Seq::<u8>::empty()
    } else {
        vlq_encode_cont(m / 128).push((m % 128 + 128) as u8)
    }
}

/// The wire bytes of an unsigned varint: the continuation groups of
/// everything above the low seven bits, then one terminal group with
/// its high bit clear.  The encoding is minimal: no leading zero group
/// is ever produced.
pub open spec fn vlq_encode(n: u64) -> Seq<u8> {
    vlq_encode_cont(n as nat / 128).push((n as nat % 128) as u8)
}

/// One step of varint parsing: `acc` carries the value of the groups
/// already read (unreduced), `count` the number of bytes consumed so
/// far.  Reading an eleventh byte, or running out of input, fails.
pub open spec fn vlq_parse_rec(s: Seq<u8>, pos: int, acc: nat, count: int) -> Option<(nat, int)>
    decreases 10 - count,
{
    if count >= 10 {
        None
    } else if pos < 0 || pos >= s.len() {
        None
    } else {
        let b = s[pos];
        let acc2 = acc * 128 + (b % 128) as nat;
        if b < 128 {
            Some((acc2, pos + 1))
        } else {
            vlq_parse_rec(s, pos + 1, acc2, count + 1)
        }
    }
}

/// The unsigned varint read from `s` at `pos`: its unreduced value and
/// the position just past its terminal byte.
pub open spec fn vlq_parse(s: Seq<u8>, pos: int) -> Option<(nat, int)> {
    vlq_parse_rec(s, pos, 0, 0)
}

/// The decoded 64-bit value: the parsed value reduced modulo 2^64, as
/// the accumulator of the decoder wraps on oversized input.
pub open spec fn vlq_parse_u64(s: Seq<u8>, pos: int) -> Option<(u64, int)> {
    match vlq_parse(s, pos) {
        Some((n, end)) => Some(((n % 0x1_0000_0000_0000_0000nat) as u64, end)),
        None => None,
    }
}

/// Ten bytes in a row all carrying the continuation bit: the one input
/// shape on which decoding fails with the oversized-varint error.
pub open spec fn vlq_oversized(s: Seq<u8>, pos: int) -> bool {
    &&& pos + 10 <= s.len()
    &&& forall|j: int| 0 <= j < 10 ==> #[trigger] s[pos + j] >= 128
}

/// An unsigned 64-bit value together with its variable-length wire form.
#[derive(Debug, Clone, Copy, PartialEq, Eq, Structural)]
pub struct VLQu64(pub u64);

impl VLQu64 {
    /// Append the varint encoding of the higher groups of `m`, each
    /// with its continuation bit set.
    fn encode_cont(m: u64, output: &mut Vec<u8>)
        ensures
            final(output)@ == old(output)@ + vlq_encode_cont(m as nat),
        decreases m,
    {
        if m != 0 {
            Self::encode_cont(m / 128, output);
            output.push((m % 128 + 128) as u8);
        }
        assert(output@ =~= old(output)@ + vlq_encode_cont(m as nat));
    }

    /// Append the varint encoding of this value to `output` and return
    /// how many bytes were written.
    pub fn encode(&self, output: &mut Vec<u8>) -> (r: usize)
        ensures
            final(output)@ == old(output)@ + vlq_encode(self.0),
            r == vlq_encode(self.0).len(),
            final(output)@.len() == old(output)@.len() + r,
            1 <= r <= 10,
    {
        let len0 = output.len();
        Self::encode_cont(self.0 / 128, output);
        output.push((self.0 % 128) as u8);
        assert(output@ =~= old(output)@ + vlq_encode(self.0));
        proof {
            lemma_vlq_encode_len(self.0);
        }
        output.len() - len0
    }

    /// Decode one unsigned varint from `input` starting at `pos`,
    /// returning the value and the position just past it.
    pub fn decode(input: &[u8], pos: usize) -> (r: Result<(VLQu64, usize), AssetError>)
        ensures
            match r {
                Ok((v, end)) => {
                    &&& vlq_parse_u64(input@, pos as int) == Some((v.0, end as int))
                    &&& pos < end <= input@.len()
                    &&& end - pos <= 10
                    &&& !vlq_oversized(input@, pos as int)
                },
                Err(e) => {
                    &&& vlq_parse(input@, pos as int) is None
                    &&& (e == AssetError::OversizedVarint <==> vlq_oversized(
                        input@,
                        pos as int,
                    ))
                    &&& (e == AssetError::OversizedVarint || e == AssetError::UnexpectedEof)
                },
            },
    {
        let ghost s = input@;
        let mut acc: u128 = 0;
        let mut i: usize = 0;
        let mut p: usize = pos;
        proof {
            lemma_pow2_pos(0);
        }
        while i < VLQ_MAX_SIZE
            invariant
                0 <= i <= 9,
                p == pos + i,
                pos <= p,
                s == input@,
                (acc as nat) < pow2((7 * i) as nat),
                vlq_parse_rec(s, pos as int, 0, 0) == vlq_parse_rec(s, p as int, acc as nat, i as int),
                forall|j: int| pos <= j < p ==> s[j] >= 128,
            decreases 10 - i,
        {
            if p >= input.len() {
                assert(vlq_parse_rec(s, p as int, acc as nat, i as int) is None);
                assert(!vlq_oversized(s, pos as int));
                return Err(AssetError::UnexpectedEof);
            }
            let b = input[p];
            proof {
                lemma_pow2_adds((7 * i) as nat, 7);
                lemma2_to64();
                lemma2_to64_rest();
                assert(pow2((7 * i) as nat) <= pow2(63)) by {
                    if 7 * i < 63 {
                        vstd::arithmetic::power2::lemma_pow2_strictly_increases(
                            (7 * i) as nat,
                            63,
                        );
                    }
                }
                assert((acc as nat) * 128 + ((b % 128) as nat) < pow2((7 * (i + 1)) as nat))
                    by (nonlinear_arith)
                    requires
                        (acc as nat) < pow2((7 * i) as nat),
                        ((b % 128) as nat) < 128,
                        pow2((7 * i) as nat) * 128 == pow2((7 * (i + 1)) as nat),
                ;
                assert((acc as nat) * 128 + ((b % 128) as nat)
                    < 0x8000_0000_0000_0000u128 * 128) by (nonlinear_arith)
                    requires
                        (acc as nat) < pow2((7 * i) as nat),
                        pow2((7 * i) as nat) <= 0x8000_0000_0000_0000,
                        ((b % 128) as nat) < 128,
                ;
            }
            let acc2: u128 = acc * 128 + (b % 128) as u128;
            if b < 128 {
                let value: u64 = (acc2 % 0x1_0000_0000_0000_0000u128) as u64;
                assert(vlq_parse_rec(s, p as int, acc as nat, i as int) == Some(
                    (acc2 as nat, p + 1int),
                ));
                assert(!vlq_oversized(s, pos as int)) by {
                    if vlq_oversized(s, pos as int) {
                        assert(s[pos + (i as int)] >= 128);
                    }
                }
                return Ok((VLQu64(value), p + 1));
            }
            if i == 9 {
                assert(vlq_oversized(s, pos as int)) by {
                    assert(forall|j: int| pos <= j <= p ==> s[j] >= 128);
                }
                assert(vlq_parse_rec(s, p as int, acc as nat, 9) is None);
                return Err(AssetError::OversizedVarint);
            }
            assert(vlq_parse_rec(s, p as int, acc as nat, i as int) == vlq_parse_rec(
                s,
                p + 1int,
                acc2 as nat,
                i + 1int,
            ));
            acc = acc2;
            i = i + 1;
            p = p + 1;
        }
        proof {
            assert(false);
        }
        Err(AssetError::UnexpectedEof)
    }
}

/// An encoded varint takes one terminal byte and at most nine
/// continuation bytes.
pub proof fn lemma_vlq_encode_len(n: u64)
    ensures
        1 <= vlq_encode(n).len() <= 10,
        vlq_encode(n).len() == vlq_encode_cont(n as nat / 128).len() + 1,
{
    lemma2_to64_rest();
    assert((n as nat) / 128 < pow2(63)) by (nonlinear_arith)
        requires
            (n as nat) < 0x1_0000_0000_0000_0000,
            pow2(63) == 0x8000_0000_0000_0000,
    ;
    lemma_vlq_cont_len_bound(n as nat / 128, 9);
}

/// `m < 2^(7k)` bounds the number of continuation groups by `k`.
proof fn lemma_vlq_cont_len_bound(m: nat, k: nat)
    requires
        m < pow2((7 * k) as nat),
    ensures
        vlq_encode_cont(m).len() <= k,
    decreases m,
{
    if m > 0 {
        assert(k > 0) by {
            if k == 0 {
                lemma2_to64();
            }
        }
        lemma_pow2_adds((7 * (k - 1)) as nat, 7);
        lemma2_to64();
        assert(m / 128 < pow2((7 * (k - 1)) as nat)) by (nonlinear_arith)
            requires
                m < pow2((7 * (k - 1)) as nat) * 128,
        ;
        lemma_vlq_cont_len_bound(m / 128, (k - 1) as nat);
    }
}

/// A positive value's continuation groups bracket it between adjacent
/// powers of one hundred twenty-eight.
proof fn lemma_vlq_cont_bounds(m: nat)
    requires
        m > 0,
    ensures
        vlq_encode_cont(m).len() >= 1,
        pow2((7 * (vlq_encode_cont(m).len() - 1)) as nat) <= m,
        m < pow2((7 * vlq_encode_cont(m).len()) as nat),
    decreases m,
{
    lemma2_to64();
    assert(vlq_encode_cont(0nat) == Seq::<u8>::empty());
    let k = vlq_encode_cont(m).len();
    if m < 128 {
        assert(vlq_encode_cont(m) == vlq_encode_cont(m / 128).push((m % 128 + 128) as u8));
        assert(m / 128 == 0) by (nonlinear_arith)
            requires
                0 < m < 128,
        ;
        assert(k == 1);
    } else {
        lemma_vlq_cont_bounds(m / 128);
        let kq = vlq_encode_cont(m / 128).len();
        lemma_pow2_adds((7 * (kq - 1)) as nat, 7);
        lemma_pow2_adds((7 * kq) as nat, 7);
        assert(pow2((7 * (k - 1)) as nat) <= m) by (nonlinear_arith)
            requires
                k == kq + 1,
                pow2((7 * kq) as nat) == pow2((7 * (kq - 1)) as nat) * 128,
                pow2((7 * (kq - 1)) as nat) <= m / 128,
                m >= (m / 128) * 128,
        ;
        assert(m >= (m / 128) * 128) by (nonlinear_arith);
        assert(m < pow2((7 * k) as nat)) by (nonlinear_arith)
            requires
                k == kq + 1,
                pow2((7 * k) as nat) == pow2((7 * kq) as nat) * 128,
                m / 128 < pow2((7 * kq) as nat),
                m < (m / 128) * 128 + 128,
        ;
        assert(m < (m / 128) * 128 + 128) by (nonlinear_arith);
    }
}

/// The encoding is canonical: a value fits in exactly as many
/// seven-bit groups as its encoding spends bytes, so no shorter
/// encoding of it exists.
pub proof fn lemma_vlq_encode_minimal(n: u64)
    ensures
        1 <= vlq_encode(n).len() <= 10,
        (n as nat) < pow2((7 * vlq_encode(n).len()) as nat),
        vlq_encode(n).len() > 1 ==> (n as nat) >= pow2(
            (7 * (vlq_encode(n).len() - 1)) as nat,
        ),
{
    lemma_vlq_encode_len(n);
    lemma2_to64();
    let len = vlq_encode(n).len();
    if n < 128 {
        assert(len == 1);
    } else {
        lemma_vlq_cont_bounds(n as nat / 128);
        let kq = vlq_encode_cont(n as nat / 128).len();
        lemma_pow2_adds((7 * (kq - 1)) as nat, 7);
        lemma_pow2_adds((7 * kq) as nat, 7);
        assert((n as nat) >= pow2((7 * (len - 1)) as nat)) by (nonlinear_arith)
            requires
                len == kq + 1,
                pow2((7 * kq) as nat) == pow2((7 * (kq - 1)) as nat) * 128,
                pow2((7 * (kq - 1)) as nat) <= (n as nat) / 128,
                (n as nat) >= ((n as nat) / 128) * 128,
        ;
        assert((n as nat) >= ((n as nat) / 128) * 128) by (nonlinear_arith);
        assert((n as nat) < pow2((7 * len) as nat)) by (nonlinear_arith)
            requires
                len == kq + 1,
                pow2((7 * len) as nat) == pow2((7 * kq) as nat) * 128,
                (n as nat) / 128 < pow2((7 * kq) as nat),
                (n as nat) < ((n as nat) / 128) * 128 + 128,
        ;
        assert((n as nat) < ((n as nat) / 128) * 128 + 128) by (nonlinear_arith);
    }
}

/// Walking the parser over the continuation groups of `m` multiplies the
/// accumulator by the groups' weight and adds `m`.
proof fn lemma_vlq_parse_cont(s: Seq<u8>, pos: int, acc: nat, count: int, m: nat)
    requires
        crate::asset::bytes_at(s, pos, vlq_encode_cont(m)),
        count >= 0,
        count + vlq_encode_cont(m).len() < 10,
    ensures
        vlq_parse_rec(s, pos, acc, count) == vlq_parse_rec(
            s,
            pos + vlq_encode_cont(m).len(),
            acc * pow2((7 * vlq_encode_cont(m).len()) as nat) + m,
            count + vlq_encode_cont(m).len(),
        ),
    decreases m,
{
    let c = vlq_encode_cont(m);
    if m == 0 {
        lemma2_to64();
        assert(acc * pow2(0) + 0 == acc) by (nonlinear_arith)
            requires
                pow2(0) == 1,
        ;
    } else {
        let cq = vlq_encode_cont(m / 128);
        let k = cq.len();
        assert(c == cq.push((m % 128 + 128) as u8));
        assert(crate::asset::bytes_at(s, pos, cq)) by {
            assert(s.subrange(pos, pos + k as int) =~= c.subrange(0, k as int));
            assert(c.subrange(0, k as int) =~= cq);
        }
        lemma_vlq_parse_cont(s, pos, acc, count, m / 128);
        let acc1 = acc * pow2((7 * k) as nat) + m / 128;
        let b = s[pos + k];
        assert(b == c[k as int]) by {
            assert(s.subrange(pos, pos + c.len() as int) == c);
            assert(s.subrange(pos, pos + c.len() as int)[k as int] == s[pos + k]);
        }
        assert(b == (m % 128 + 128) as u8);
        assert(b >= 128);
        assert(vlq_parse_rec(s, pos + k, acc1, count + k) == vlq_parse_rec(
            s,
            pos + k + 1,
            acc1 * 128 + (b % 128) as nat,
            count + k + 1,
        ));
        lemma_pow2_adds((7 * k) as nat, 7);
        lemma2_to64();
        assert(acc1 * 128 + (m % 128) == acc * pow2((7 * (k + 1)) as nat) + m) by (nonlinear_arith)
            requires
                acc1 == acc * pow2((7 * k) as nat) + m / 128,
                pow2((7 * (k + 1)) as nat) == pow2((7 * k) as nat) * 128,
                m == (m / 128) * 128 + m % 128,
        ;
        assert(m == (m / 128) * 128 + m % 128) by (nonlinear_arith);
        assert((b % 128) as nat == m % 128);
    }
}

/// Decoding reads back exactly the value that encoding wrote: the
/// parser consumes the encoded bytes and returns `n`.
pub proof fn lemma_vlq_round_trip(s: Seq<u8>, pos: int, n: u64)
    requires
        crate::asset::bytes_at(s, pos, vlq_encode(n)),
    ensures
        vlq_parse(s, pos) == Some((n as nat, pos + vlq_encode(n).len())),
        vlq_parse_u64(s, pos) == Some((n, pos + vlq_encode(n).len())),
    decreases n,
{
    let e = vlq_encode(n);
    let cq = vlq_encode_cont(n as nat / 128);
    let k = cq.len();
    assert(e == cq.push((n as nat % 128) as u8));
    lemma_vlq_encode_len(n);
    assert(crate::asset::bytes_at(s, pos, cq)) by {
        assert(s.subrange(pos, pos + k as int) =~= e.subrange(0, k as int));
        assert(e.subrange(0, k as int) =~= cq);
    }
    lemma_vlq_parse_cont(s, pos, 0, 0, n as nat / 128);
    let acc1 = 0 * pow2((7 * k) as nat) + n as nat / 128;
    assert(acc1 == n as nat / 128) by {
        assert(0 * pow2((7 * k) as nat) == 0) by (nonlinear_arith);
    }
    let b = s[pos + k];
    assert(b == e[k as int]) by {
        assert(s.subrange(pos, pos + e.len() as int) == e);
        assert(s.subrange(pos, pos + e.len() as int)[k as int] == s[pos + k]);
    }
    assert(b == (n as nat % 128) as u8);
    assert(b < 128);
    assert(vlq_parse_rec(s, pos + k, acc1, k as int) == Some(
        ((n as nat / 128) * 128 + (b % 128) as nat, pos + k + 1),
    ));
    assert((n as nat / 128) * 128 + (n as nat % 128) == n as nat) by (nonlinear_arith);
    assert((n as nat) % 0x1_0000_0000_0000_0000nat == n as nat);
}

/// A signed 64-bit value together with its zig-zag variable-length
/// wire form.
#[derive(Debug, Clone, Copy, PartialEq, Eq, Structural)]
pub struct VLQi64(pub i64);

/// The zig-zag image of a signed value: non-negative `n` maps to `2n`,
/// negative `n` to `2(-(n+1)) + 1`, so small magnitudes stay small.
pub open spec fn zigzag(n: i64) -> u64 {
    if n >= 0 {
        (2 * (n as int)) as u64
    } else {
        (2 * (-(n as int + 1)) + 1) as u64
    }
}

/// The signed value a zig-zag image stands for.
pub open spec fn unzigzag(v: u64) -> i64 {
    if v % 2 == 0 {
        ((v as int) / 2) as i64
    } else {
        (-((v as int) / 2) - 1) as i64
    }
}

/// The wire bytes of a signed varint.
pub open spec fn vlq_encode_i64(n: i64) -> Seq<u8> {
    vlq_encode(zigzag(n))
}

/// The signed varint read from `s` at `pos`.
pub open spec fn vlq_parse_i64(s: Seq<u8>, pos: int) -> Option<(i64, int)> {
    match vlq_parse_u64(s, pos) {
        Some((v, end)) => Some((unzigzag(v), end)),
        None => None,
    }
}

/// The zig-zag mapping loses nothing: unmapping the image of any
/// signed value gives that value back.
pub proof fn lemma_zigzag_round_trip(n: i64)
    ensures
        unzigzag(zigzag(n)) == n,
{
}

/// Decoding reads back exactly the signed value that encoding wrote.
pub proof fn lemma_vlq_i64_round_trip(s: Seq<u8>, pos: int, n: i64)
    requires
        crate::asset::bytes_at(s, pos, vlq_encode_i64(n)),
    ensures
        vlq_parse_i64(s, pos) == Some((n, pos + vlq_encode_i64(n).len())),
{
    lemma_vlq_round_trip(s, pos, zigzag(n));
    lemma_zigzag_round_trip(n);
}

impl VLQi64 {
    /// Append the zig-zag varint encoding of this value to `output`
    /// and return how many bytes were written.
    pub fn encode(&self, output: &mut Vec<u8>) -> (r: usize)
        ensures
            final(output)@ == old(output)@ + vlq_encode_i64(self.0),
            r == vlq_encode_i64(self.0).len(),
            final(output)@.len() == old(output)@.len() + r,
            1 <= r <= 10,
    {
        let target: u64 = if self.0 < 0 {
            ((-(self.0 + 1)) as u64) * 2 + 1
        } else {
            (self.0 as u64) * 2
        };
        assert(target == zigzag(self.0));
        VLQu64(target).encode(output)
    }

    /// Decode one signed varint from `input` starting at `pos`,
    /// returning the value and the position just past it.
    pub fn decode(input: &[u8], pos: usize) -> (r: Result<(VLQi64, usize), AssetError>)
        ensures
            match r {
                Ok((v, end)) => {
                    &&& vlq_parse_i64(input@, pos as int) == Some((v.0, end as int))
                    &&& pos < end <= input@.len()
                    &&& end - pos <= 10
                    &&& !vlq_oversized(input@, pos as int)
                },
                Err(e) => {
                    &&& vlq_parse(input@, pos as int) is None
                    &&& (e == AssetError::OversizedVarint <==> vlq_oversized(
                        input@,
                        pos as int,
                    ))
                    &&& (e == AssetError::OversizedVarint || e == AssetError::UnexpectedEof)
                },
            },
    {
        let (VLQu64(value), end) = VLQu64::decode(input, pos)?;
        if value % 2 == 0 {
            Ok((VLQi64((value / 2) as i64), end))
        } else {
            Ok((VLQi64(-((value / 2) as i64) - 1), end))
        }
    }
}

} // verus!
