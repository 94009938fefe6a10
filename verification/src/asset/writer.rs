use vstd::prelude::*;

use crate::asset::vlq::{vlq_encode, vlq_encode_i64, VLQi64, VLQu64};
use crate::asset::{
    be_rec, enc_items, enc_pairs, enc_str, enc_value, lemma_pairs_view_from, lemma_seq_view_from,
    pairs_view_from, seq_view_from, u64_be_bytes, SBType, SpecValue,
};

verus! {

/// Append one unsigned varint.
pub fn write_vlq_u64(output: &mut Vec<u8>, value: u64)
    ensures
        final(output)@ == old(output)@ + vlq_encode(value),
{
    VLQu64(value).encode(output);
}

/// Append one zig-zag signed varint.
pub fn write_vlq_i64(output: &mut Vec<u8>, value: i64)
    ensures
        final(output)@ == old(output)@ + vlq_encode_i64(value),
{
    VLQi64(value).encode(output);
}

/// Append the `k` low big-endian base-256 digits of `x`.
fn write_be_rec(x: u64, k: usize, output: &mut Vec<u8>)
    ensures
        final(output)@ == old(output)@ + be_rec(x as nat, k as nat),
    decreases k,
{
    if k > 0 {
        write_be_rec(x / 256, k - 1, output);
        output.push((x % 256) as u8);
    }
    assert(output@ =~= old(output)@ + be_rec(x as nat, k as nat));
}

/// Append the eight big-endian bytes of `value`.
pub fn write_u64_be(output: &mut Vec<u8>, value: u64)
    ensures
        final(output)@ == old(output)@ + u64_be_bytes(value),
{
    write_be_rec(value, 8, output);
}

/// Append every byte of `bytes`, in order.
#[verifier::loop_isolation(false)]
pub(crate) fn append_bytes(output: &mut Vec<u8>, bytes: &[u8])
    ensures
        final(output)@ == old(output)@ + bytes@,
{
    let mut i: usize = 0;
    while i < bytes.len()
        invariant
            0 <= i <= bytes@.len(),
            output@ == old(output)@ + bytes@.subrange(0, i as int),
        decreases bytes@.len() - i,
    {
        output.push(bytes[i]);
        i = i + 1;
        assert(output@ =~= old(output)@ + bytes@.subrange(0, i as int));
    }
    assert(output@ =~= old(output)@ + bytes@);
}

/// Append `bytes` behind its varint length prefix.
pub fn write_bytes(output: &mut Vec<u8>, bytes: &[u8])
    ensures
        final(output)@ == old(output)@ + vlq_encode(bytes@.len() as u64) + bytes@,
{
    write_vlq_u64(output, bytes.len() as u64);
    append_bytes(output, bytes);
}

/// Append `string` as length-prefixed UTF-8.
pub fn write_string(output: &mut Vec<u8>, string: &str)
    ensures
        final(output)@ == old(output)@ + enc_str(string@),
{
    let bytes = string.as_bytes();
    write_bytes(output, bytes);
}

/// Append an array payload: a varint count, then each element as a
/// tagged value.
#[verifier::loop_isolation(false)]
pub fn write_array(output: &mut Vec<u8>, array: &Vec<SBType>)
    ensures
        final(output)@ == old(output)@ + vlq_encode(array@.len() as u64) + enc_items(
            seq_view_from(array@, 0),
            0,
        ),
    decreases seq_view_from(array@, 0), 1int,
{
    let ghost sv = seq_view_from(array@, 0);
    proof {
        lemma_seq_view_from(array@, 0);
    }
    write_vlq_u64(output, array.len() as u64);
    let ghost base = output@;
    let mut i: usize = 0;
    while i < array.len()
        invariant
            0 <= i <= array@.len(),
            output@ + enc_items(sv, i as int) == base + enc_items(sv, 0),
        decreases array@.len() - i,
    {
        proof {
            assert(decreases_to!(sv => sv[i as int]));
            assert(sv[i as int] == array@[i as int]@);
        }
        write_object(output, &array[i]);
        proof {
            assert(enc_items(sv, i as int) == enc_value(sv[i as int]) + enc_items(sv, i + 1));
            assert(output@ + enc_items(sv, i + 1) =~= base + enc_items(sv, 0));
        }
        i = i + 1;
    }
    assert(enc_items(sv, array@.len() as int) == Seq::<u8>::empty());
    assert(output@ =~= old(output)@ + vlq_encode(array@.len() as u64) + enc_items(sv, 0));
}

/// Append an object payload: a varint count, then each pair as a
/// length-prefixed key and a tagged value.
#[verifier::loop_isolation(false)]
pub fn write_map(output: &mut Vec<u8>, map: &Vec<(String, SBType)>)
    ensures
        final(output)@ == old(output)@ + vlq_encode(map@.len() as u64) + enc_pairs(
            pairs_view_from(map@, 0),
            0,
        ),
    decreases pairs_view_from(map@, 0), 1int,
{
    let ghost pv = pairs_view_from(map@, 0);
    proof {
        lemma_pairs_view_from(map@, 0);
    }
    write_vlq_u64(output, map.len() as u64);
    let ghost base = output@;
    let mut i: usize = 0;
    while i < map.len()
        invariant
            0 <= i <= map@.len(),
            output@ + enc_pairs(pv, i as int) == base + enc_pairs(pv, 0),
        decreases map@.len() - i,
    {
        let pair = &map[i];
        write_string(output, pair.0.as_str());
        proof {
            assert(decreases_to!(pv => pv[i as int]));
            assert(decreases_to!(pv[i as int] => pv[i as int].1));
            assert(pv[i as int] == (map@[i as int].0@, map@[i as int].1@));
        }
        write_object(output, &pair.1);
        proof {
            assert(enc_pairs(pv, i as int) == enc_str(pv[i as int].0) + enc_value(
                pv[i as int].1,
            ) + enc_pairs(pv, i + 1));
            assert(output@ + enc_pairs(pv, i + 1) =~= base + enc_pairs(pv, 0));
        }
        i = i + 1;
    }
    assert(enc_pairs(pv, map@.len() as int) == Seq::<u8>::empty());
    assert(output@ =~= old(output)@ + vlq_encode(map@.len() as u64) + enc_pairs(pv, 0));
}

/// Append a whole tagged value: its tag byte, then the payload its
/// kind dictates.
pub fn write_object(output: &mut Vec<u8>, object: &SBType)
    ensures
        final(output)@ == old(output)@ + enc_value(object@),
    decreases object@, 0int,
{
    match object {
        SBType::Nil => {
            output.push(1);
            assert(output@ =~= old(output)@ + enc_value(object@));
        },
        SBType::Float(bits) => {
            output.push(2);
            write_u64_be(output, *bits);
            assert(output@ =~= old(output)@ + enc_value(object@));
        },
        SBType::Boolean(b) => {
            output.push(3);
            output.push(
                if *b {
                    1
                } else {
                    0
                },
            );
            assert(output@ =~= old(output)@ + enc_value(object@));
        },
        SBType::Int(v) => {
            output.push(4);
            write_vlq_i64(output, *v);
            assert(output@ =~= old(output)@ + enc_value(object@));
        },
        SBType::String(s) => {
            output.push(5);
            write_string(output, s.as_str());
            assert(output@ =~= old(output)@ + enc_value(object@));
        },
        SBType::Array(a) => {
            output.push(6);
            proof {
                assert(decreases_to!(object@ => object@->Arr_0));
            }
            write_array(output, a);
            proof {
                lemma_seq_view_from(a@, 0);
                assert(object@ == SpecValue::Arr(seq_view_from(a@, 0)));
                assert(output@ =~= old(output)@ + enc_value(object@));
            }
        },
        SBType::Object(o) => {
            output.push(7);
            proof {
                assert(decreases_to!(object@ => object@->Obj_0));
            }
            write_map(output, o);
            proof {
                lemma_pairs_view_from(o@, 0);
                assert(object@ == SpecValue::Obj(pairs_view_from(o@, 0)));
                assert(output@ =~= old(output)@ + enc_value(object@));
            }
        },
    }
}

} // verus!
