use vstd::arithmetic::power2::{lemma2_to64, lemma2_to64_rest, pow2};
use vstd::prelude::*;
use vstd::slice::{slice_subrange, slice_to_vec};
use vstd::utf8::{decode_utf8, encode_utf8, valid_utf8};

use crate::asset::vlq::{
    lemma_vlq_i64_round_trip, lemma_vlq_round_trip, vlq_encode, vlq_encode_i64, vlq_oversized,
    vlq_parse, vlq_parse_i64, vlq_parse_u64, VLQi64, VLQu64,
};
use crate::asset::{
    enc_items, enc_pairs, enc_str, enc_value, items_wf, lemma_pairs_view_from,
    lemma_seq_view_from, obj_keys_unique, pairs_view_from, pairs_wf, seq_view_from, u64_be_bytes,
    u64_from_be, value_wf, SBType, SpecValue,
};
use crate::error::AssetError;

verus! {

/// Some pair of `m` carries the key `k`.
pub open spec fn assoc_has<V>(m: Seq<(Seq<char>, V)>, k: Seq<char>) -> bool {
    exists|j: int| 0 <= j < m.len() && m[j].0 == k
}

/// The value of the pair of `m` that carries `k`, if one does.
pub open spec fn assoc_get<V>(m: Seq<(Seq<char>, V)>, k: Seq<char>) -> V {
    m[choose|j: int| 0 <= j < m.len() && m[j].0 == k].1
}

/// No two pairs of `m` share a key.
pub open spec fn assoc_unique<V>(m: Seq<(Seq<char>, V)>) -> bool {
    forall|i: int, j: int| 0 <= i < j < m.len() ==> m[i].0 != m[j].0
}

/// `m` with `k` bound to `v`: the pair carrying `k` is replaced where
/// one exists, and appended otherwise.
pub open spec fn assoc_insert<V>(
    m: Seq<(Seq<char>, V)>,
    k: Seq<char>,
    v: V,
) -> Seq<(Seq<char>, V)> {
    if assoc_has(m, k) {
        Seq::new(
            m.len(),
            |i: int|
                if m[i].0 == k {
                    (k, v)
                } else {
                    m[i]
                },
        )
    } else {
        m.push((k, v))
    }
}

/// The length-prefixed byte run read from `s` at `pos`.
pub open spec fn dec_bytes(s: Seq<u8>, pos: int) -> Option<(Seq<u8>, int)> {
    match vlq_parse_u64(s, pos) {
        Some((n, p1)) => if p1 + n <= s.len() {
            Some((s.subrange(p1, p1 + n as int), p1 + n as int))
        } else {
            None
        },
        None => None,
    }
}

/// The length-prefixed UTF-8 string read from `s` at `pos`.
pub open spec fn dec_str(s: Seq<u8>, pos: int) -> Option<(Seq<char>, int)> {
    match dec_bytes(s, pos) {
        Some((b, end)) => if valid_utf8(b) {
            Some((decode_utf8(b), end))
        } else {
            None
        },
        None => None,
    }
}

/// The tagged value read from `s` at `pos`: one tag byte, then the
/// payload its kind dictates.  Every failure is `None`; the decoder
/// never consumes without advancing.
pub open spec fn dec_value(s: Seq<u8>, pos: int) -> Option<(SpecValue, int)>
    decreases s.len() - pos, 1int, 0nat,
{
    if pos < 0 || pos >= s.len() {
        None
    } else {
        let tag = s[pos];
        let p1 = pos + 1;
        if tag == 1 {
            Some((SpecValue::Nil, p1))
        } else if tag == 2 {
            if p1 + 8 <= s.len() {
                Some(
                    (
                        SpecValue::Float((u64_from_be(s.subrange(p1, p1 + 8)) % 0x1_0000_0000_0000_0000nat) as u64),
                        p1 + 8,
                    ),
                )
            } else {
                None
            }
        } else if tag == 3 {
            if p1 < s.len() {
                Some((SpecValue::Boolean(s[p1] != 0), p1 + 1))
            } else {
                None
            }
        } else if tag == 4 {
            match vlq_parse_i64(s, p1) {
                Some((v, end)) => Some((SpecValue::Int(v), end)),
                None => None,
            }
        } else if tag == 5 {
            match dec_str(s, p1) {
                Some((cs, end)) => Some((SpecValue::Str(cs), end)),
                None => None,
            }
        } else if tag == 6 {
            match dec_array(s, p1) {
                Some((items, end)) => Some((SpecValue::Arr(items), end)),
                None => None,
            }
        } else if tag == 7 {
            match dec_map(s, p1) {
                Some((pairs, end)) => Some((SpecValue::Obj(pairs), end)),
                None => None,
            }
        } else {
            None
        }
    }
}

/// An array payload read from `s` at `pos`: a varint count, then that
/// many tagged values.
pub open spec fn dec_array(s: Seq<u8>, pos: int) -> Option<(Seq<SpecValue>, int)>
    decreases s.len() - pos, 2int, 0nat,
{
    match vlq_parse_u64(s, pos) {
        Some((n, p2)) => if p2 <= pos || p2 > s.len() {
            None
        } else {
            dec_items(s, p2, n as nat)
        },
        None => None,
    }
}

/// An object payload read from `s` at `pos`: a varint count, then that
/// many key/value pairs, folded left to right.
pub open spec fn dec_map(s: Seq<u8>, pos: int) -> Option<(Seq<(Seq<char>, SpecValue)>, int)>
    decreases s.len() - pos, 2int, 0nat,
{
    match vlq_parse_u64(s, pos) {
        Some((n, p2)) => if p2 <= pos || p2 > s.len() {
            None
        } else {
            dec_pairs(s, p2, n as nat, Seq::<(Seq<char>, SpecValue)>::empty())
        },
        None => None,
    }
}

/// `n` tagged values read in sequence from `s` at `pos`.
pub open spec fn dec_items(s: Seq<u8>, pos: int, n: nat) -> Option<(Seq<SpecValue>, int)>
    decreases s.len() - pos, 3int, n,
{
    if n == 0 {
        Some((Seq::<SpecValue>::empty(), pos))
    } else {
        match dec_value(s, pos) {
            Some((v, e)) => if e <= pos || e > s.len() {
                None
            } else {
                match dec_items(s, e, (n - 1) as nat) {
                    Some((rest, end)) => Some((seq![v] + rest, end)),
                    None => None,
                }
            },
            None => None,
        }
    }
}

/// `n` key/value pairs read in sequence from `s` at `pos` and folded
/// into the accumulator `m`, a later binding of a key replacing an
/// earlier one.
pub open spec fn dec_pairs(
    s: Seq<u8>,
    pos: int,
    n: nat,
    m: Seq<(Seq<char>, SpecValue)>,
) -> Option<(Seq<(Seq<char>, SpecValue)>, int)>
    decreases s.len() - pos, 3int, n,
{
    if n == 0 {
        Some((m, pos))
    } else {
        match dec_str(s, pos) {
            Some((k, e1)) => if e1 <= pos {
                None
            } else {
                match dec_value(s, e1) {
                    Some((v, e2)) => if e2 <= pos || e2 > s.len() {
                        None
                    } else {
                        dec_pairs(s, e2, (n - 1) as nat, assoc_insert(m, k, v))
                    },
                    None => None,
                }
            },
            None => None,
        }
    }
}

/// Read one unsigned varint.
pub fn read_vlq_u64(input: &[u8], pos: usize) -> (r: Result<(u64, usize), AssetError>)
    ensures
        match r {
            Ok((v, end)) => {
                &&& vlq_parse_u64(input@, pos as int) == Some((v, end as int))
                &&& pos < end <= input@.len()
                &&& !vlq_oversized(input@, pos as int)
            },
            Err(e) => {
                &&& vlq_parse(input@, pos as int) is None
                &&& (e == AssetError::OversizedVarint <==> vlq_oversized(input@, pos as int))
                &&& (e == AssetError::OversizedVarint || e == AssetError::UnexpectedEof)
            },
        },
{
    let (VLQu64(value), end) = VLQu64::decode(input, pos)?;
    Ok((value, end))
}

/// Read one zig-zag signed varint.
pub fn read_vlq_i64(input: &[u8], pos: usize) -> (r: Result<(i64, usize), AssetError>)
    ensures
        match r {
            Ok((v, end)) => {
                &&& vlq_parse_i64(input@, pos as int) == Some((v, end as int))
                &&& pos < end <= input@.len()
                &&& !vlq_oversized(input@, pos as int)
            },
            Err(e) => {
                &&& vlq_parse(input@, pos as int) is None
                &&& (e == AssetError::OversizedVarint <==> vlq_oversized(input@, pos as int))
                &&& (e == AssetError::OversizedVarint || e == AssetError::UnexpectedEof)
            },
        },
{
    let (VLQi64(value), end) = VLQi64::decode(input, pos)?;
    Ok((value, end))
}

/// Read eight big-endian bytes as an unsigned 64-bit value.
#[verifier::loop_isolation(false)]
pub fn read_u64_be(input: &[u8], pos: usize) -> (r: Result<(u64, usize), AssetError>)
    ensures
        match r {
            Ok((v, end)) => {
                &&& pos + 8 <= input@.len()
                &&& end == pos + 8
                &&& v as nat == u64_from_be(input@.subrange(pos as int, pos + 8))
            },
            Err(e) => {
                &&& pos + 8 > input@.len()
                &&& e == AssetError::UnexpectedEof
            },
        },
{
    if input.len() < 8 || pos > input.len() - 8 {
        return Err(AssetError::UnexpectedEof);
    }
    let ghost s = input@;
    let mut acc: u64 = 0;
    let mut i: usize = 0;
    proof {
        lemma2_to64();
        lemma2_to64_rest();
    }
    while i < 8
        invariant
            0 <= i <= 8,
            acc as nat == u64_from_be(s.subrange(pos as int, pos + i)),
        decreases 8 - i,
    {
        let b = input[pos + i];
        proof {
            let prefix = s.subrange(pos as int, pos + i);
            let longer = s.subrange(pos as int, pos + i + 1);
            assert(longer.drop_last() =~= prefix);
            assert(longer.last() == b);
            assert(u64_from_be(longer) == u64_from_be(prefix) * 256 + b as nat);
            crate::asset::lemma_be_from_bound(prefix);
            assert(pow2((8 * i) as nat) <= pow2(56)) by {
                if 8 * i < 56 {
                    vstd::arithmetic::power2::lemma_pow2_strictly_increases((8 * i) as nat, 56);
                }
            }
            assert((acc as nat) * 256 + (b as nat) < 0x1_0000_0000_0000_0000) by (nonlinear_arith)
                requires
                    (acc as nat) < pow2(56),
                    (b as nat) < 256,
                    pow2(56) == 0x100_0000_0000_0000,
            ;
        }
        acc = acc * 256 + (b as u64);
        i = i + 1;
    }
    assert(s.subrange(pos as int, pos + 8) =~= input@.subrange(pos as int, pos + 8));
    Ok((acc, pos + 8))
}

/// Read a length-prefixed byte run into a fresh vector.
pub fn read_bytes(input: &[u8], pos: usize) -> (r: Result<(Vec<u8>, usize), AssetError>)
    ensures
        match r {
            Ok((v, end)) => {
                &&& dec_bytes(input@, pos as int) == Some((v@, end as int))
                &&& pos < end <= input@.len()
            },
            Err(e) => {
                &&& dec_bytes(input@, pos as int) is None
                &&& (e == AssetError::OversizedVarint <==> vlq_oversized(input@, pos as int))
                &&& (e == AssetError::OversizedVarint || e == AssetError::UnexpectedEof)
            },
        },
{
    let (length, p1) = read_vlq_u64(input, pos)?;
    if length > (input.len() - p1) as u64 {
        return Err(AssetError::UnexpectedEof);
    }
    let end = p1 + (length as usize);
    let slice = slice_subrange(input, p1, end);
    let buffer = slice_to_vec(slice);
    Ok((buffer, end))
}

/// Read a length-prefixed UTF-8 string.
pub fn read_string(input: &[u8], pos: usize) -> (r: Result<(String, usize), AssetError>)
    ensures
        match r {
            Ok((v, end)) => {
                &&& dec_str(input@, pos as int) == Some((v@, end as int))
                &&& pos < end <= input@.len()
            },
            Err(e) => {
                &&& dec_str(input@, pos as int) is None
                &&& (e == AssetError::InvalidUtf8 <==> (dec_bytes(input@, pos as int) matches
                    Some(p) && !valid_utf8(p.0)))
            },
        },
{
    let (bytes, end) = read_bytes(input, pos)?;
    match string_from_utf8(bytes) {
        Some(text) => Ok((text, end)),
        None => Err(AssetError::InvalidUtf8),
    }
}


/// Bind `key` to `value` in `map`: replace the pair that carries the
/// key, or append a new pair.
#[verifier::loop_isolation(false)]
fn insert_pair(map: &mut Vec<(String, SBType)>, key: String, value: SBType)
    requires
        obj_keys_unique(pairs_view_from(old(map)@, 0)),
    ensures
        pairs_view_from(final(map)@, 0) == assoc_insert(
            pairs_view_from(old(map)@, 0),
            key@,
            value@,
        ),
        obj_keys_unique(pairs_view_from(final(map)@, 0)),
{
    let ghost pv = pairs_view_from(old(map)@, 0);
    proof {
        lemma_pairs_view_from(old(map)@, 0);
    }
    let mut j: usize = 0;
    while j < map.len()
        invariant
            0 <= j <= map@.len(),
            map@ == old(map)@,
            forall|jj: int| 0 <= jj < j ==> (#[trigger] pv[jj]).0 != key@,
        decreases map@.len() - j,
    {
        if map[j].0 == key {
            assert(pv[j as int].0 == key@);
            assert(assoc_has(pv, key@));
            map.set(j, (key, value));
            proof {
                lemma_pairs_view_from(map@, 0);
                assert forall|i: int| 0 <= i < pv.len() implies pairs_view_from(map@, 0)[i]
                    == assoc_insert(pv, key@, value@)[i] by {
                    if i != j {
                        assert(pv[i].0 != key@);
                    }
                }
                assert(pairs_view_from(map@, 0) =~= assoc_insert(pv, key@, value@));
                assert forall|a: int, b: int|
                    0 <= a < b < pairs_view_from(map@, 0).len() implies (#[trigger] pairs_view_from(
                    map@,
                    0,
                )[a]).0 != (#[trigger] pairs_view_from(map@, 0)[b]).0 by {
                    assert(pv[a].0 != pv[b].0);
                }
            }
            return ;
        }
        j = j + 1;
    }
    assert(!assoc_has(pv, key@));
    map.push((key, value));
    proof {
        lemma_pairs_view_from(map@, 0);
        assert(pairs_view_from(map@, 0) =~= assoc_insert(pv, key@, value@));
        assert forall|a: int, b: int|
            0 <= a < b < pairs_view_from(map@, 0).len() implies (#[trigger] pairs_view_from(
            map@,
            0,
        )[a]).0 != (#[trigger] pairs_view_from(map@, 0)[b]).0 by {
            if b < pv.len() {
                assert(pv[a].0 != pv[b].0);
            } else {
                assert(pv[a].0 != key@);
            }
        }
    }
}

/// Read an array payload: a varint count, then that many tagged
/// values.
#[verifier::loop_isolation(false)]
pub fn read_array(input: &[u8], pos: usize) -> (r: Result<(Vec<SBType>, usize), AssetError>)
    ensures
        match r {
            Ok((v, end)) => {
                &&& dec_array(input@, pos as int) == Some((seq_view_from(v@, 0), end as int))
                &&& pos < end <= input@.len()
            },
            Err(e) => dec_array(input@, pos as int) is None,
        },
    decreases input@.len() - pos, 2int,
{
    let ghost s = input@;
    let (count, p2) = read_vlq_u64(input, pos)?;
    let mut out: Vec<SBType> = Vec::new();
    let mut i: u64 = 0;
    let mut p: usize = p2;
    proof {
        lemma_seq_view_from(out@, 0);
        assert(seq_view_from(out@, 0) =~= Seq::<SpecValue>::empty());
    }
    while i < count
        invariant
            0 <= i <= count,
            pos < p2 <= p <= s.len(),
            dec_items(s, p2 as int, count as nat) == (match dec_items(
                s,
                p as int,
                (count - i) as nat,
            ) {
                Some((rest, end)) => Some((seq_view_from(out@, 0) + rest, end)),
                None => None,
            }),
        decreases count - i,
    {
        let ghost out0 = out@;
        let ghost p0 = p;
        match read_object(input, p) {
            Ok((v, e)) => {
                out.push(v);
                p = e;
                i = i + 1;
                proof {
                    lemma_seq_view_from(out0, 0);
                    lemma_seq_view_from(out@, 0);
                    assert(seq_view_from(out@, 0) =~= seq_view_from(out0, 0) + seq![v@]);
                    assert(dec_items(s, p0 as int, (count - i + 1) as nat) == (match dec_items(
                        s,
                        p as int,
                        (count - i) as nat,
                    ) {
                        Some((rest, end)) => Some((seq![v@] + rest, end)),
                        None => None,
                    }));
                    if dec_items(s, p as int, (count - i) as nat) is Some {
                        let (rest, end) = dec_items(s, p as int, (count - i) as nat)->Some_0;
                        assert(seq_view_from(out0, 0) + (seq![v@] + rest) =~= seq_view_from(
                            out@,
                            0,
                        ) + rest);
                    }
                }
            },
            Err(e) => {
                assert(dec_items(s, p as int, (count - i) as nat) is None);
                return Err(e);
            },
        }
    }
    assert(dec_items(s, p as int, 0nat) == Some((Seq::<SpecValue>::empty(), p as int)));
    assert(seq_view_from(out@, 0) + Seq::<SpecValue>::empty() =~= seq_view_from(out@, 0));
    Ok((out, p))
}

/// Read an object payload: a varint count, then that many key/value
/// pairs, a later binding of a key replacing an earlier one.
#[verifier::loop_isolation(false)]
pub fn read_map(input: &[u8], pos: usize) -> (r: Result<(Vec<(String, SBType)>, usize), AssetError>)
    ensures
        match r {
            Ok((v, end)) => {
                &&& dec_map(input@, pos as int) == Some((pairs_view_from(v@, 0), end as int))
                &&& obj_keys_unique(pairs_view_from(v@, 0))
                &&& pos < end <= input@.len()
            },
            Err(e) => dec_map(input@, pos as int) is None,
        },
    decreases input@.len() - pos, 2int,
{
    let ghost s = input@;
    let (count, p2) = read_vlq_u64(input, pos)?;
    let mut out: Vec<(String, SBType)> = Vec::new();
    let mut i: u64 = 0;
    let mut p: usize = p2;
    proof {
        lemma_pairs_view_from(out@, 0);
        assert(pairs_view_from(out@, 0) =~= Seq::<(Seq<char>, SpecValue)>::empty());
    }
    while i < count
        invariant
            0 <= i <= count,
            pos < p2 <= p <= s.len(),
            obj_keys_unique(pairs_view_from(out@, 0)),
            dec_pairs(s, p2 as int, count as nat, Seq::<(Seq<char>, SpecValue)>::empty())
                == dec_pairs(s, p as int, (count - i) as nat, pairs_view_from(out@, 0)),
        decreases count - i,
    {
        let ghost p0 = p;
        let key = match read_string(input, p) {
            Ok((k, e1)) => {
                p = e1;
                k
            },
            Err(e) => {
                assert(dec_pairs(s, p as int, (count - i) as nat, pairs_view_from(out@, 0))
                    is None);
                return Err(e);
            },
        };
        match read_object(input, p) {
            Ok((v, e2)) => {
                proof {
                    assert(dec_pairs(s, p0 as int, (count - i) as nat, pairs_view_from(out@, 0))
                        == dec_pairs(
                        s,
                        e2 as int,
                        (count - i - 1) as nat,
                        assoc_insert(pairs_view_from(out@, 0), key@, v@),
                    ));
                }
                insert_pair(&mut out, key, v);
                p = e2;
                i = i + 1;
            },
            Err(e) => {
                assert(dec_pairs(s, p0 as int, (count - i) as nat, pairs_view_from(out@, 0))
                    is None);
                return Err(e);
            },
        }
    }
    assert(dec_pairs(s, p as int, 0nat, pairs_view_from(out@, 0)) == Some(
        (pairs_view_from(out@, 0), p as int),
    ));
    Ok((out, p))
}

/// Read one whole tagged value: its tag byte, then the payload its
/// kind dictates.
pub fn read_object(input: &[u8], pos: usize) -> (r: Result<(SBType, usize), AssetError>)
    ensures
        match r {
            Ok((v, end)) => {
                &&& dec_value(input@, pos as int) == Some((v@, end as int))
                &&& pos < end <= input@.len()
            },
            Err(e) => dec_value(input@, pos as int) is None,
        },
        pos >= input@.len() ==> r == Err::<(SBType, usize), AssetError>(
            AssetError::UnexpectedEof,
        ),
        pos < input@.len() && (input@[pos as int] == 0 || input@[pos as int] > 7) ==> r
            == Err::<(SBType, usize), AssetError>(AssetError::UnsupportedType),
    decreases input@.len() - pos, 1int,
{
    if pos >= input.len() {
        return Err(AssetError::UnexpectedEof);
    }
    let tag = input[pos];
    let p1 = pos + 1;
    if tag == 1 {
        Ok((SBType::Nil, p1))
    } else if tag == 2 {
        let (bits, end) = read_u64_be(input, p1)?;
        proof {
            crate::asset::lemma_be_from_bound(input@.subrange(p1 as int, p1 + 8));
        }
        Ok((SBType::Float(bits), end))
    } else if tag == 3 {
        if p1 >= input.len() {
            return Err(AssetError::UnexpectedEof);
        }
        let b = input[p1];
        Ok((SBType::Boolean(b != 0), p1 + 1))
    } else if tag == 4 {
        let (v, end) = read_vlq_i64(input, p1)?;
        Ok((SBType::Int(v), end))
    } else if tag == 5 {
        let (v, end) = read_string(input, p1)?;
        Ok((SBType::String(v), end))
    } else if tag == 6 {
        let (v, end) = read_array(input, p1)?;
        let r = SBType::Array(v);
        assert(r@ == SpecValue::Arr(seq_view_from(v@, 0)));
        Ok((r, end))
    } else if tag == 7 {
        let (v, end) = read_map(input, p1)?;
        let r = SBType::Object(v);
        assert(r@ == SpecValue::Obj(pairs_view_from(v@, 0)));
        Ok((r, end))
    } else {
        Err(AssetError::UnsupportedType)
    }
}


/// Decoding a string reads back exactly what encoding wrote.
pub proof fn lemma_str_round_trip(s: Seq<u8>, pos: int, cs: Seq<char>)
    requires
        crate::asset::bytes_at(s, pos, enc_str(cs)),
        encode_utf8(cs).len() < 0x1_0000_0000_0000_0000,
    ensures
        dec_str(s, pos) == Some((cs, pos + enc_str(cs).len())),
{
    broadcast use vstd::utf8::encode_utf8_valid_utf8, vstd::utf8::encode_utf8_decode_utf8;

    let b = encode_utf8(cs);
    let lenb = vlq_encode(b.len() as u64);
    crate::asset::lemma_bytes_at_split(s, pos, lenb, b);
    lemma_vlq_round_trip(s, pos, b.len() as u64);
    let p1 = pos + lenb.len();
    assert(vlq_parse_u64(s, pos) == Some((b.len() as u64, p1)));
    assert(s.subrange(p1, p1 + b.len() as int) == b);
    assert(dec_bytes(s, pos) == Some((b, p1 + b.len())));
    assert(valid_utf8(b));
    assert(decode_utf8(b) == cs);
}

/// Decoding a tagged value reads back exactly the well-formed value
/// that encoding wrote, consuming exactly its bytes.
#[verifier::rlimit(50)]
pub proof fn lemma_value_round_trip(s: Seq<u8>, pos: int, v: SpecValue)
    requires
        value_wf(v),
        crate::asset::bytes_at(s, pos, enc_value(v)),
    ensures
        dec_value(s, pos) == Some((v, pos + enc_value(v).len())),
    decreases v, 0int, 0nat,
{
    let e = enc_value(v);
    assert(s[pos] == e[0]) by {
        assert(s.subrange(pos, pos + e.len() as int)[0] == s[pos]);
    }
    match v {
        SpecValue::Nil => {
            assert(s[pos] == 1);
        },
        SpecValue::Float(bits) => {
            assert(s[pos] == 2);
            crate::asset::lemma_bytes_at_split(s, pos, seq![2u8], u64_be_bytes(bits));
            vstd::arithmetic::power2::lemma2_to64();
            vstd::arithmetic::power2::lemma2_to64_rest();
            crate::asset::lemma_be_round_trip(bits as nat, 8);
            assert(s.subrange(pos + 1, pos + 9) == u64_be_bytes(bits));
            assert(u64_from_be(s.subrange(pos + 1, pos + 9)) == bits as nat);
            assert((bits as nat) % 0x1_0000_0000_0000_0000nat == bits as nat);
        },
        SpecValue::Boolean(b) => {
            assert(s[pos] == 3);
            assert(s[pos + 1] == e[1]) by {
                assert(s.subrange(pos, pos + e.len() as int)[1] == s[pos + 1]);
            }
        },
        SpecValue::Int(n) => {
            assert(s[pos] == 4);
            crate::asset::lemma_bytes_at_split(s, pos, seq![4u8], vlq_encode_i64(n));
            lemma_vlq_i64_round_trip(s, pos + 1, n);
        },
        SpecValue::Str(cs) => {
            assert(s[pos] == 5);
            crate::asset::lemma_bytes_at_split(s, pos, seq![5u8], enc_str(cs));
            lemma_str_round_trip(s, pos + 1, cs);
        },
        SpecValue::Arr(a) => {
            assert(s[pos] == 6);
            assert(e =~= seq![6u8] + (vlq_encode(a.len() as u64) + enc_items(a, 0)));
            crate::asset::lemma_bytes_at_split(
                s,
                pos,
                seq![6u8],
                vlq_encode(a.len() as u64) + enc_items(a, 0),
            );
            let p1 = pos + 1;
            crate::asset::lemma_bytes_at_split(s, p1, vlq_encode(a.len() as u64), enc_items(a, 0));
            lemma_vlq_round_trip(s, p1, a.len() as u64);
            let p2 = p1 + vlq_encode(a.len() as u64).len();
            assert((a.len() as u64) as nat == a.len());
            lemma_items_round_trip(s, p2, a, 0);
            assert(a.subrange(0, a.len() as int) =~= a);
            assert(dec_array(s, p1) == Some((a, p2 + enc_items(a, 0).len())));
        },
        SpecValue::Obj(o) => {
            assert(s[pos] == 7);
            assert(e =~= seq![7u8] + (vlq_encode(o.len() as u64) + enc_pairs(o, 0)));
            crate::asset::lemma_bytes_at_split(
                s,
                pos,
                seq![7u8],
                vlq_encode(o.len() as u64) + enc_pairs(o, 0),
            );
            let p1 = pos + 1;
            crate::asset::lemma_bytes_at_split(s, p1, vlq_encode(o.len() as u64), enc_pairs(o, 0));
            lemma_vlq_round_trip(s, p1, o.len() as u64);
            let p2 = p1 + vlq_encode(o.len() as u64).len();
            assert((o.len() as u64) as nat == o.len());
            lemma_pairs_round_trip(s, p2, o, 0);
            assert(o.subrange(0, 0) =~= Seq::<(Seq<char>, SpecValue)>::empty());
            assert(dec_map(s, p1) == Some((o, p2 + enc_pairs(o, 0).len())));
        },
    }
}

/// Decoding the encoded tail of `a` from index `i` on reads back
/// exactly those elements.
proof fn lemma_items_round_trip(s: Seq<u8>, pos: int, a: Seq<SpecValue>, i: int)
    requires
        0 <= i <= a.len(),
        items_wf(a, i),
        crate::asset::bytes_at(s, pos, enc_items(a, i)),
    ensures
        dec_items(s, pos, (a.len() - i) as nat) == Some(
            (a.subrange(i, a.len() as int), pos + enc_items(a, i).len()),
        ),
    decreases a, 1int, a.len() - i,
{
    if i == a.len() {
        assert(a.subrange(i, a.len() as int) =~= Seq::<SpecValue>::empty());
    } else {
        assert(enc_items(a, i) == enc_value(a[i]) + enc_items(a, i + 1));
        crate::asset::lemma_bytes_at_split(s, pos, enc_value(a[i]), enc_items(a, i + 1));
        lemma_value_round_trip(s, pos, a[i]);
        let e1 = pos + enc_value(a[i]).len();
        assert(enc_value(a[i]).len() > 0);
        lemma_items_round_trip(s, e1, a, i + 1);
        assert(seq![a[i]] + a.subrange(i + 1, a.len() as int) =~= a.subrange(i, a.len() as int));
    }
}

/// Decoding the encoded tail of `o` from index `i` on, into the
/// accumulator holding its first `i` pairs, reads back exactly `o`.
proof fn lemma_pairs_round_trip(s: Seq<u8>, pos: int, o: Seq<(Seq<char>, SpecValue)>, i: int)
    requires
        0 <= i <= o.len(),
        pairs_wf(o, i),
        obj_keys_unique(o),
        crate::asset::bytes_at(s, pos, enc_pairs(o, i)),
    ensures
        dec_pairs(s, pos, (o.len() - i) as nat, o.subrange(0, i)) == Some(
            (o, pos + enc_pairs(o, i).len()),
        ),
    decreases o, 1int, o.len() - i,
{
    if i == o.len() {
        assert(o.subrange(0, i) =~= o);
    } else {
        let k = o[i].0;
        let v = o[i].1;
        assert(enc_pairs(o, i) == enc_str(k) + enc_value(v) + enc_pairs(o, i + 1));
        assert(enc_pairs(o, i) == enc_str(k) + (enc_value(v) + enc_pairs(o, i + 1))) by {
            assert(enc_str(k) + enc_value(v) + enc_pairs(o, i + 1) =~= enc_str(k) + (enc_value(
                v,
            ) + enc_pairs(o, i + 1)));
        }
        crate::asset::lemma_bytes_at_split(
            s,
            pos,
            enc_str(k),
            enc_value(v) + enc_pairs(o, i + 1),
        );
        let e1 = pos + enc_str(k).len();
        crate::asset::lemma_bytes_at_split(s, e1, enc_value(v), enc_pairs(o, i + 1));
        lemma_str_round_trip(s, pos, k);
        lemma_value_round_trip(s, e1, v);
        let e2 = e1 + enc_value(v).len();
        assert(enc_str(k).len() > 0) by {
            crate::asset::vlq::lemma_vlq_encode_len(encode_utf8(k).len() as u64);
        }
        assert(enc_value(v).len() > 0);
        // the key read here is fresh among the pairs already folded
        assert(!assoc_has(o.subrange(0, i), k)) by {
            if assoc_has(o.subrange(0, i), k) {
                let j = choose|j: int| 0 <= j < i && o.subrange(0, i)[j].0 == k;
                assert(o[j].0 == o[i].0);
            }
        }
        assert(assoc_insert(o.subrange(0, i), k, v) =~= o.subrange(0, i + 1));
        lemma_pairs_round_trip(s, e2, o, i + 1);
    }
}

/// A well-formed tagged value decodes back from its own encoding, in
/// front of any trailing bytes, to exactly itself.
pub proof fn lemma_tagged_round_trip(v: SpecValue, rest: Seq<u8>)
    requires
        value_wf(v),
    ensures
        dec_value(enc_value(v) + rest, 0) == Some((v, enc_value(v).len() as int)),
{
    let s = enc_value(v) + rest;
    assert(s.subrange(0, enc_value(v).len() as int) =~= enc_value(v));
    lemma_value_round_trip(s, 0, v);
}


/// Rebinding a key keeps an association list free of repeated keys.
pub proof fn lemma_assoc_insert_unique<V>(m: Seq<(Seq<char>, V)>, k: Seq<char>, v: V)
    requires
        assoc_unique(m),
    ensures
        assoc_unique(assoc_insert(m, k, v)),
{
    let m2 = assoc_insert(m, k, v);
    if assoc_has(m, k) {
        assert forall|a: int, b: int| 0 <= a < b < m2.len() implies (#[trigger] m2[a]).0 != (
        #[trigger] m2[b]).0 by {
            assert(m[a].0 != m[b].0);
        }
    } else {
        assert forall|a: int, b: int| 0 <= a < b < m2.len() implies (#[trigger] m2[a]).0 != (
        #[trigger] m2[b]).0 by {
            if b < m.len() {
                assert(m[a].0 != m[b].0);
            } else {
                assert(m2[b] == (k, v));
                assert(!(m[a].0 == k));
            }
        }
    }
}

/// Folding pairs into an accumulator free of repeated keys yields a
/// list free of repeated keys.
proof fn lemma_dec_pairs_unique(s: Seq<u8>, pos: int, n: nat, m: Seq<(Seq<char>, SpecValue)>)
    requires
        assoc_unique(m),
        dec_pairs(s, pos, n, m) is Some,
    ensures
        assoc_unique(dec_pairs(s, pos, n, m)->Some_0.0),
    decreases n,
{
    if n > 0 {
        let (k, e1) = dec_str(s, pos)->Some_0;
        let (v, e2) = dec_value(s, e1)->Some_0;
        lemma_assoc_insert_unique(m, k, v);
        lemma_dec_pairs_unique(s, e2, (n - 1) as nat, assoc_insert(m, k, v));
    }
}

/// A decoded object carries no repeated keys at its top level.
pub proof fn lemma_dec_value_obj_unique(s: Seq<u8>, pos: int)
    requires
        dec_value(s, pos) is Some,
        dec_value(s, pos)->Some_0.0 is Obj,
    ensures
        obj_keys_unique(dec_value(s, pos)->Some_0.0->Obj_0),
{
    let tag = s[pos];
    assert(tag == 7);
    let p1 = pos + 1;
    let (n, p2) = vlq_parse_u64(s, p1)->Some_0;
    let e: Seq<(Seq<char>, SpecValue)> = Seq::empty();
    assert(assoc_unique(e));
    lemma_dec_pairs_unique(s, p2, n as nat, e);
    assert(obj_keys_unique(dec_value(s, pos)->Some_0.0->Obj_0));
}

/// Relies on `String::from_utf8`: it succeeds exactly on valid UTF-8
/// input, and the string it returns holds that input's decoding.
#[verifier::external_body]
fn string_from_utf8(bytes: Vec<u8>) -> (r: Option<String>)
    ensures
        match r {
            Some(s) => valid_utf8(bytes@) && s@ == decode_utf8(bytes@),
            None => !valid_utf8(bytes@),
        },
{
    String::from_utf8(bytes).ok()
}

} // verus!
