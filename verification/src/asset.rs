pub mod directory;
pub mod file;
pub mod packet;
pub mod reader;
pub mod vlq;
pub mod writer;

use vstd::arithmetic::power2::{lemma2_to64, lemma_pow2_adds, pow2};
use vstd::prelude::*;
use vstd::utf8::encode_utf8;

use crate::asset::vlq::{vlq_encode, vlq_encode_i64};

verus! {

/// The uniform capability set every archive backend offers: an
/// existence check, path enumeration, and metadata lookup, each
/// answering from the backend's model.
pub trait AssetReader {
    /// Whether the backend's answers are pinned down: established by
    /// its constructor.
    spec fn valid(&self) -> bool;

    /// Whether the backend contains the asset path `path`.
    spec fn contains_path(&self, path: Seq<char>) -> bool;

    /// The backend's metadata value.
    spec fn meta_model(&self) -> SpecValue;

    /// A path is reported exactly when the backend contains it.
    fn exist(&self, path: &str) -> (r: bool)
        requires
            self.valid(),
        ensures
            r == self.contains_path(path@),
    ;

    /// Every contained path is listed, and nothing else.
    fn paths(&self) -> (r: Vec<String>)
        requires
            self.valid(),
        ensures
            forall|j: int| 0 <= j < r@.len() ==> self.contains_path((#[trigger] r@[j])@),
            forall|p: Seq<char>| #[trigger] self.contains_path(p) ==> exists|j: int|
                0 <= j < r@.len() && (#[trigger] r@[j])@ == p,
    ;

    /// One key looked up in the metadata: fails when the metadata is
    /// not an object, or the object lacks the key.
    fn meta(&self, key: String) -> (r: Result<SBType, crate::error::AssetError>)
        requires
            self.valid(),
        ensures
            match r {
                Ok(v) => {
                    &&& self.meta_model() is Obj
                    &&& crate::asset::reader::assoc_has(self.meta_model()->Obj_0, key@)
                    &&& (obj_keys_unique(self.meta_model()->Obj_0) ==> v@
                        == crate::asset::reader::assoc_get(self.meta_model()->Obj_0, key@))
                },
                Err(e) => {
                    &&& (e == crate::error::AssetError::MetadataNotObject <==> !(
                    self.meta_model() is Obj))
                    &&& (self.meta_model() is Obj ==> !crate::asset::reader::assoc_has(
                        self.meta_model()->Obj_0,
                        key@,
                    ) && e == crate::error::AssetError::KeyNotFound)
                },
            },
    ;
}

/// The bytes `b` stand in `s` beginning at `pos`.
pub open spec fn bytes_at(s: Seq<u8>, pos: int, b: Seq<u8>) -> bool {
    &&& 0 <= pos
    &&& pos + b.len() <= s.len()
    &&& s.subrange(pos, pos + b.len() as int) == b
}

/// Bytes standing at `pos` split at a concatenation seam.
pub proof fn lemma_bytes_at_split(s: Seq<u8>, pos: int, x: Seq<u8>, y: Seq<u8>)
    requires
        bytes_at(s, pos, x + y),
    ensures
        bytes_at(s, pos, x),
        bytes_at(s, pos + x.len(), y),
{
    let whole = s.subrange(pos, pos + (x + y).len() as int);
    assert forall|k: int| 0 <= k < x.len() implies s.subrange(pos, pos + x.len() as int)[k]
        == x[k] by {
        assert(whole[k] == (x + y)[k]);
    }
    assert(s.subrange(pos, pos + x.len() as int) =~= x);
    assert forall|k: int| 0 <= k < y.len() implies s.subrange(
        pos + x.len(),
        pos + x.len() + y.len() as int,
    )[k] == y[k] by {
        assert(whole[x.len() + k] == (x + y)[x.len() + k]);
    }
    assert(s.subrange(pos + x.len(), pos + x.len() + y.len() as int) =~= y);
}

/// A self-describing value: the seven kinds a tagged-value stream can
/// carry.  A float is held as its IEEE-754 bit pattern, which is what
/// the wire format stores; an object is a key-to-value list whose keys
/// are unique.
#[derive(Debug, PartialEq)]
pub enum SBType {
    Nil,
    Float(u64),
    Boolean(bool),
    Int(i64),
    String(String),
    Array(Vec<SBType>),
    Object(Vec<(String, SBType)>),
}

/// The mathematical shape of a tagged value, with sequences in place
/// of vectors and character sequences in place of strings.
pub enum SpecValue {
    Nil,
    Float(u64),
    Boolean(bool),
    Int(i64),
    Str(Seq<char>),
    Arr(Seq<SpecValue>),
    Obj(Seq<(Seq<char>, SpecValue)>),
}

/// The models of the elements of `a` from index `i` on, in order.
pub open spec fn seq_view_from(a: Seq<SBType>, i: int) -> Seq<SpecValue>
    decreases a, a.len() - i,
{
    if i < 0 || i >= a.len() {
        Seq::<SpecValue>::empty()
    } else {
        seq![a[i]@] + seq_view_from(a, i + 1)
    }
}

/// The models of the key/value pairs of `o` from index `i` on.
pub open spec fn pairs_view_from(o: Seq<(String, SBType)>, i: int) -> Seq<
    (Seq<char>, SpecValue),
>
    decreases o, o.len() - i,
{
    if i < 0 || i >= o.len() {
        Seq::<(Seq<char>, SpecValue)>::empty()
    } else {
        seq![(o[i].0@, o[i].1@)] + pairs_view_from(o, i + 1)
    }
}

/// The models of the elements of `a`, in order.
pub open spec fn seq_view(a: Seq<SBType>) -> Seq<SpecValue> {
    seq_view_from(a, 0)
}

/// The models of the key/value pairs of `o`, in order.
pub open spec fn pairs_view(o: Seq<(String, SBType)>) -> Seq<(Seq<char>, SpecValue)> {
    pairs_view_from(o, 0)
}

/// The model of element list `a` is the elementwise model.
pub proof fn lemma_seq_view_from(a: Seq<SBType>, i: int)
    requires
        0 <= i <= a.len(),
    ensures
        seq_view_from(a, i).len() == a.len() - i,
        forall|j: int| 0 <= j < a.len() - i ==> #[trigger] seq_view_from(a, i)[j] == a[i + j]@,
    decreases a.len() - i,
{
    if i < a.len() {
        lemma_seq_view_from(a, i + 1);
        assert(seq_view_from(a, i) == seq![a[i]@] + seq_view_from(a, i + 1));
        assert forall|j: int| 0 <= j < a.len() - i implies seq_view_from(a, i)[j] == a[i + j]@ by {
            if j > 0 {
                assert(seq_view_from(a, i)[j] == seq_view_from(a, i + 1)[j - 1]);
                assert(seq_view_from(a, i + 1)[j - 1] == a[(i + 1) + (j - 1)]@);
            }
        }
    } else {
        assert(seq_view_from(a, i) == Seq::<SpecValue>::empty());
    }
}

/// The model of pair list `o` is the pairwise model.
pub proof fn lemma_pairs_view_from(o: Seq<(String, SBType)>, i: int)
    requires
        0 <= i <= o.len(),
    ensures
        pairs_view_from(o, i).len() == o.len() - i,
        forall|j: int| 0 <= j < o.len() - i ==> #[trigger] pairs_view_from(o, i)[j] == (
            o[i + j].0@,
            o[i + j].1@,
        ),
    decreases o.len() - i,
{
    if i < o.len() {
        lemma_pairs_view_from(o, i + 1);
        assert(pairs_view_from(o, i) == seq![(o[i].0@, o[i].1@)] + pairs_view_from(o, i + 1));
        assert forall|j: int| 0 <= j < o.len() - i implies pairs_view_from(o, i)[j] == (
            o[i + j].0@,
            o[i + j].1@,
        ) by {
            if j > 0 {
                assert(pairs_view_from(o, i)[j] == pairs_view_from(o, i + 1)[j - 1]);
                assert(pairs_view_from(o, i + 1)[j - 1] == (o[(i + 1) + (j - 1)].0@, o[(i + 1)
                    + (j - 1)].1@));
            }
        }
    } else {
        assert(pairs_view_from(o, i) == Seq::<(Seq<char>, SpecValue)>::empty());
    }
}

impl View for SBType {
    type V = SpecValue;

    open spec fn view(&self) -> SpecValue
        decreases self, 0int,
    {
        match self {
            SBType::Nil => SpecValue::Nil,
            SBType::Float(bits) => SpecValue::Float(*bits),
            SBType::Boolean(b) => SpecValue::Boolean(*b),
            SBType::Int(v) => SpecValue::Int(*v),
            SBType::String(s) => SpecValue::Str(s@),
            SBType::Array(a) => SpecValue::Arr(seq_view_from(a@, 0)),
            SBType::Object(o) => SpecValue::Obj(pairs_view_from(o@, 0)),
        }
    }
}

/// No two pairs of `o` share a key.
pub open spec fn obj_keys_unique(o: Seq<(Seq<char>, SpecValue)>) -> bool {
    forall|i: int, j: int| 0 <= i < j < o.len() ==> o[i].0 != o[j].0
}

/// A value the wire format can carry faithfully: object keys unique
/// throughout, and every length small enough for its varint prefix.
pub open spec fn value_wf(v: SpecValue) -> bool
    decreases v, 0int,
{
    match v {
        SpecValue::Nil => true,
        SpecValue::Float(_) => true,
        SpecValue::Boolean(_) => true,
        SpecValue::Int(_) => true,
        SpecValue::Str(s) => encode_utf8(s).len() < 0x1_0000_0000_0000_0000,
        SpecValue::Arr(a) => a.len() < 0x1_0000_0000_0000_0000 && items_wf(a, 0),
        SpecValue::Obj(o) => {
            &&& o.len() < 0x1_0000_0000_0000_0000
            &&& obj_keys_unique(o)
            &&& pairs_wf(o, 0)
        },
    }
}

/// Every element of `a` from index `i` on is well formed.
pub open spec fn items_wf(a: Seq<SpecValue>, i: int) -> bool
    decreases a, a.len() - i,
{
    if i < 0 || i >= a.len() {
        true
    } else {
        value_wf(a[i]) && items_wf(a, i + 1)
    }
}

/// Every pair of `o` from index `i` on has an encodable key and a well
/// formed value.
pub open spec fn pairs_wf(o: Seq<(Seq<char>, SpecValue)>, i: int) -> bool
    decreases o, o.len() - i,
{
    if i < 0 || i >= o.len() {
        true
    } else {
        encode_utf8(o[i].0).len() < 0x1_0000_0000_0000_0000 && value_wf(o[i].1) && pairs_wf(
            o,
            i + 1,
        )
    }
}

/// The tag byte that announces each kind of value on the wire.
pub open spec fn tag_of(v: SpecValue) -> u8 {
    match v {
        SpecValue::Nil => 1,
        SpecValue::Float(_) => 2,
        SpecValue::Boolean(_) => 3,
        SpecValue::Int(_) => 4,
        SpecValue::Str(_) => 5,
        SpecValue::Arr(_) => 6,
        SpecValue::Obj(_) => 7,
    }
}

/// The big-endian base-256 digits of `x`, `k` of them, most
/// significant first.
pub open spec fn be_rec(x: nat, k: nat) -> Seq<u8>
    decreases k,
{
    if k == 0 {
        Seq::<u8>::empty()
    } else {
        be_rec(x / 256, (k - 1) as nat).push((x % 256) as u8)
    }
}

/// The eight big-endian bytes of a 64-bit value.
pub open spec fn u64_be_bytes(x: u64) -> Seq<u8> {
    be_rec(x as nat, 8)
}

/// The value the big-endian bytes `b` spell.
pub open spec fn u64_from_be(b: Seq<u8>) -> nat
    decreases b.len(),
{
    if b.len() == 0 {
        0
    } else {
        u64_from_be(b.drop_last()) * 256 + b.last() as nat
    }
}

/// Big-endian digits spell a value below `2^(8k)` for `k` digits.
pub proof fn lemma_be_from_bound(b: Seq<u8>)
    ensures
        u64_from_be(b) < pow2((8 * b.len()) as nat),
    decreases b.len(),
{
    if b.len() == 0 {
        lemma2_to64();
    } else {
        lemma_be_from_bound(b.drop_last());
        lemma_pow2_adds((8 * (b.len() - 1)) as nat, 8);
        lemma2_to64();
        assert(u64_from_be(b.drop_last()) * 256 + b.last() < pow2((8 * b.len()) as nat))
            by (nonlinear_arith)
            requires
                u64_from_be(b.drop_last()) < pow2((8 * (b.len() - 1)) as nat),
                b.last() < 256,
                pow2((8 * b.len()) as nat) == pow2((8 * (b.len() - 1)) as nat) * 256,
        ;
    }
}

/// `k` base-256 digits spell back the value they were taken from, for
/// values below `2^(8k)`.
pub proof fn lemma_be_round_trip(x: nat, k: nat)
    requires
        x < pow2((8 * k) as nat),
    ensures
        be_rec(x, k).len() == k,
        u64_from_be(be_rec(x, k)) == x,
    decreases k,
{
    lemma_be_len(x, k);
    if k == 0 {
        lemma2_to64();
    }
    if k > 0 {
        lemma_pow2_adds((8 * (k - 1)) as nat, 8);
        lemma2_to64();
        assert(x / 256 < pow2((8 * (k - 1)) as nat)) by (nonlinear_arith)
            requires
                x < pow2((8 * (k - 1)) as nat) * 256,
        ;
        lemma_be_round_trip(x / 256, (k - 1) as nat);
        let b = be_rec(x, k);
        assert(b == be_rec(x / 256, (k - 1) as nat).push((x % 256) as u8));
        assert(b.drop_last() =~= be_rec(x / 256, (k - 1) as nat));
        assert(b.last() == (x % 256) as u8);
        assert(u64_from_be(b) == u64_from_be(b.drop_last()) * 256 + b.last() as nat);
        assert(u64_from_be(b.drop_last()) == x / 256);
        assert(((x % 256) as u8) as nat == x % 256);
        assert(u64_from_be(b) == (x / 256) * 256 + x % 256);
        assert((x / 256) * 256 + x % 256 == x) by (nonlinear_arith);
    }
}

/// Base-256 expansion produces exactly `k` digits.
pub proof fn lemma_be_len(x: nat, k: nat)
    ensures
        be_rec(x, k).len() == k,
    decreases k,
{
    if k > 0 {
        lemma_be_len(x / 256, (k - 1) as nat);
    }
}

/// The length-prefixed UTF-8 bytes of a string.
pub open spec fn enc_str(s: Seq<char>) -> Seq<u8> {
    vlq_encode(encode_utf8(s).len() as u64) + encode_utf8(s)
}

/// The wire bytes of a tagged value: one tag byte, then the payload
/// that its kind dictates.
pub open spec fn enc_value(v: SpecValue) -> Seq<u8>
    decreases v, 0int,
{
    match v {
        SpecValue::Nil => seq![1u8],
        SpecValue::Float(bits) => seq![2u8] + u64_be_bytes(bits),
        SpecValue::Boolean(b) => seq![
            3u8,
            if b {
                1u8
            } else {
                0u8
            },
        ],
        SpecValue::Int(n) => seq![4u8] + vlq_encode_i64(n),
        SpecValue::Str(s) => seq![5u8] + enc_str(s),
        SpecValue::Arr(a) => seq![6u8] + vlq_encode(a.len() as u64) + enc_items(a, 0),
        SpecValue::Obj(o) => seq![7u8] + vlq_encode(o.len() as u64) + enc_pairs(o, 0),
    }
}

/// The concatenated encodings of the elements of `a` from index `i` on.
pub open spec fn enc_items(a: Seq<SpecValue>, i: int) -> Seq<u8>
    decreases a, a.len() - i,
{
    if i < 0 || i >= a.len() {
        Seq::<u8>::empty()
    } else {
        enc_value(a[i]) + enc_items(a, i + 1)
    }
}

/// The concatenated encodings of the pairs of `o` from index `i` on:
/// each pair is a length-prefixed key, then the value.
pub open spec fn enc_pairs(o: Seq<(Seq<char>, SpecValue)>, i: int) -> Seq<u8>
    decreases o, o.len() - i,
{
    if i < 0 || i >= o.len() {
        Seq::<u8>::empty()
    } else {
        enc_str(o[i].0) + enc_value(o[i].1) + enc_pairs(o, i + 1)
    }
}

impl SBType {
    /// The tag byte this value is announced by on the wire.
    pub fn tag(&self) -> (r: u8)
        ensures
            r == tag_of(self@),
            1 <= r <= 7,
    {
        match self {
            SBType::Nil => 1,
            SBType::Float(_) => 2,
            SBType::Boolean(_) => 3,
            SBType::Int(_) => 4,
            SBType::String(_) => 5,
            SBType::Array(_) => 6,
            SBType::Object(_) => 7,
        }
    }

    /// A structural copy of this value, made by hand so that its model
    /// is known to be the same.
    #[verifier::loop_isolation(false)]
    pub fn duplicate(&self) -> (r: SBType)
        ensures
            r@ == self@,
        decreases self@,
    {
        match self {
            SBType::Nil => SBType::Nil,
            SBType::Float(bits) => SBType::Float(*bits),
            SBType::Boolean(b) => SBType::Boolean(*b),
            SBType::Int(v) => SBType::Int(*v),
            SBType::String(s) => SBType::String(s.clone()),
            SBType::Array(a) => {
                let mut out: Vec<SBType> = Vec::new();
                let mut i: usize = 0;
                while i < a.len()
                    invariant
                        0 <= i <= a@.len(),
                        out@.len() == i,
                        forall|j: int| 0 <= j < i ==> (#[trigger] out@[j])@ == a@[j]@,
                    decreases a@.len() - i,
                {
                    proof {
                        lemma_seq_view_from(a@, 0);
                        assert(self@ == SpecValue::Arr(seq_view_from(a@, 0)));
                        assert(decreases_to!(self@ => self@->Arr_0));
                        assert(self@->Arr_0 == seq_view_from(a@, 0));
                        assert(decreases_to!(self@ => seq_view_from(a@, 0)));
                        assert(decreases_to!(seq_view_from(a@, 0) => seq_view_from(
                            a@,
                            0,
                        )[i as int]));
                        assert(seq_view_from(a@, 0)[i as int] == a@[i as int]@);
                    }
                    out.push(a[i].duplicate());
                    i = i + 1;
                }
                proof {
                    lemma_seq_view_from(out@, 0);
                    lemma_seq_view_from(a@, 0);
                    assert(seq_view_from(out@, 0) =~= seq_view_from(a@, 0));
                }
                SBType::Array(out)
            },
            SBType::Object(o) => {
                let mut out: Vec<(String, SBType)> = Vec::new();
                let mut i: usize = 0;
                while i < o.len()
                    invariant
                        0 <= i <= o@.len(),
                        out@.len() == i,
                        forall|j: int| 0 <= j < i ==> (#[trigger] out@[j]).0@ == o@[j].0@
                            && out@[j].1@ == o@[j].1@,
                    decreases o@.len() - i,
                {
                    proof {
                        lemma_pairs_view_from(o@, 0);
                        assert(self@ == SpecValue::Obj(pairs_view_from(o@, 0)));
                        assert(decreases_to!(self@ => self@->Obj_0));
                        assert(self@->Obj_0 == pairs_view_from(o@, 0));
                        assert(decreases_to!(pairs_view_from(o@, 0) => pairs_view_from(
                            o@,
                            0,
                        )[i as int]));
                        assert(pairs_view_from(o@, 0)[i as int] == (o@[i as int].0@, o@[i as int].1@));
                        assert(decreases_to!(pairs_view_from(o@, 0)[i as int] => pairs_view_from(
                            o@,
                            0,
                        )[i as int].1));
                    }
                    let pair = &o[i];
                    out.push((pair.0.clone(), pair.1.duplicate()));
                    i = i + 1;
                }
                proof {
                    lemma_pairs_view_from(out@, 0);
                    lemma_pairs_view_from(o@, 0);
                    assert(pairs_view_from(out@, 0) =~= pairs_view_from(o@, 0));
                }
                SBType::Object(out)
            },
        }
    }
}

} // verus!
