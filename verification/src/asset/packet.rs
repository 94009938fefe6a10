use vstd::prelude::*;

use crate::asset::file::AssetFile;
use crate::asset::reader::{
    assoc_get, assoc_has, assoc_insert, assoc_unique, dec_value, read_object, read_string,
    read_u64_be, read_vlq_u64,
};
use crate::asset::vlq::{vlq_parse, vlq_parse_u64};
use crate::asset::{
    enc_str, enc_value, pairs_view_from, u64_be_bytes, u64_from_be, value_wf, SBType, SpecValue,
};
use crate::asset::vlq::vlq_encode;
use vstd::utf8::encode_utf8;
use crate::error::AssetError;

verus! {

/// The eight bytes that open every packed archive.
pub open spec fn archive_magic() -> Seq<u8> {
    seq![0x53u8, 0x42u8, 0x41u8, 0x73u8, 0x73u8, 0x65u8, 0x74u8, 0x36u8]
}

/// The five bytes that open the index block.
pub open spec fn index_magic() -> Seq<u8> {
    seq![0x49u8, 0x4eu8, 0x44u8, 0x45u8, 0x58u8]
}

/// The unsigned 64-bit value spelled big-endian at `pos`.
pub open spec fn u64_at_be(s: Seq<u8>, pos: int) -> u64 {
    (u64_from_be(s.subrange(pos, pos + 8)) % 0x1_0000_0000_0000_0000nat) as u64
}

/// The models of the index entries of `v` from index `i` on.
pub open spec fn entries_view_from(v: Seq<(String, (u64, u64))>, i: int) -> Seq<
    (Seq<char>, (u64, u64)),
>
    decreases v.len() - i,
{
    if i < 0 || i >= v.len() {
        Seq::<(Seq<char>, (u64, u64))>::empty()
    } else {
        seq![(v[i].0@, v[i].1)] + entries_view_from(v, i + 1)
    }
}

/// The model of entry list `v` is the pairwise model.
pub proof fn lemma_entries_view_from(v: Seq<(String, (u64, u64))>, i: int)
    requires
        0 <= i <= v.len(),
    ensures
        entries_view_from(v, i).len() == v.len() - i,
        forall|j: int| 0 <= j < v.len() - i ==> #[trigger] entries_view_from(v, i)[j] == (
            v[i + j].0@,
            v[i + j].1,
        ),
    decreases v.len() - i,
{
    if i < v.len() {
        lemma_entries_view_from(v, i + 1);
        assert forall|j: int| 0 <= j < v.len() - i implies #[trigger] entries_view_from(v, i)[j]
            == (v[i + j].0@, v[i + j].1) by {
            if j > 0 {
                assert(entries_view_from(v, i)[j] == entries_view_from(v, i + 1)[j - 1]);
            }
        }
    }
}

/// `n` index entries read in sequence from `s` at `pos` and folded
/// into the accumulator `m`: each is a length-prefixed path, then a
/// big-endian offset and length.
pub open spec fn dec_index_items(
    s: Seq<u8>,
    pos: int,
    n: nat,
    m: Seq<(Seq<char>, (u64, u64))>,
) -> Option<(Seq<(Seq<char>, (u64, u64))>, int)>
    decreases n,
{
    if n == 0 {
        Some((m, pos))
    } else {
        match crate::asset::reader::dec_str(s, pos) {
            Some((k, e1)) => if e1 + 16 > s.len() {
                None
            } else {
                let entry = (u64_at_be(s, e1), u64_at_be(s, e1 + 8));
                dec_index_items(s, e1 + 16, (n - 1) as nat, assoc_insert(m, k, entry))
            },
            None => None,
        }
    }
}

/// The index block's entry table read from `s` at `pos`: a varint
/// count, then that many entries.
pub open spec fn dec_index(s: Seq<u8>, pos: int) -> Option<
    (Seq<(Seq<char>, (u64, u64))>, int),
> {
    match vlq_parse_u64(s, pos) {
        Some((n, p2)) => dec_index_items(
            s,
            p2,
            n as nat,
            Seq::<(Seq<char>, (u64, u64))>::empty(),
        ),
        None => None,
    }
}

/// A whole packed archive: the opening magic, the index offset, and at
/// that offset the index block holding the metadata value and the
/// entry table.
pub open spec fn parse_archive(data: Seq<u8>) -> Option<
    (SpecValue, Seq<(Seq<char>, (u64, u64))>),
> {
    if data.len() < 16 {
        None
    } else if data.subrange(0, 8) != archive_magic() {
        None
    } else {
        let off = u64_at_be(data, 8) as int;
        if off + 5 > data.len() {
            None
        } else if data.subrange(off, off + 5) != index_magic() {
            None
        } else {
            match dec_value(data, off + 5) {
                Some((meta, p6)) => match dec_index(data, p6) {
                    Some((entries, _end)) => Some((meta, entries)),
                    None => None,
                },
                None => None,
            }
        }
    }
}

/// A reader over one packed archive held in memory: the whole file's
/// bytes, plus the index and metadata parsed from them once at open
/// time.
#[derive(Debug)]
pub struct PacketReader {
    index: Vec<(String, (u64, u64))>,
    metadata: SBType,
    buffer: Vec<u8>,
}

/// Bind `key` to `entry` in `map`: replace the pair that carries the
/// key, or append a new pair.
#[verifier::loop_isolation(false)]
fn insert_entry(map: &mut Vec<(String, (u64, u64))>, key: String, entry: (u64, u64))
    requires
        assoc_unique(entries_view_from(old(map)@, 0)),
    ensures
        entries_view_from(final(map)@, 0) == assoc_insert(
            entries_view_from(old(map)@, 0),
            key@,
            entry,
        ),
        assoc_unique(entries_view_from(final(map)@, 0)),
{
    let ghost pv = entries_view_from(old(map)@, 0);
    proof {
        lemma_entries_view_from(old(map)@, 0);
    }
    let mut j: usize = 0;
    while j < map.len()
        invariant
            0 <= j <= map@.len(),
            map@ == old(map)@,
            forall|jj: int| 0 <= jj < j ==> (#[trigger] pv[jj]).0 != key@,
        decreases map@.len() - j,
    {
        if map[j].0 == key {
            assert(pv[j as int].0 == key@);
            assert(assoc_has(pv, key@));
            map.set(j, (key, entry));
            proof {
                lemma_entries_view_from(map@, 0);
                assert forall|i: int| 0 <= i < pv.len() implies entries_view_from(map@, 0)[i]
                    == assoc_insert(pv, key@, entry)[i] by {
                    if i != j {
                        assert(pv[i].0 != key@);
                    }
                }
                assert(entries_view_from(map@, 0) =~= assoc_insert(pv, key@, entry));
                assert forall|a: int, b: int|
                    0 <= a < b < entries_view_from(map@, 0).len() implies (
                #[trigger] entries_view_from(map@, 0)[a]).0 != (#[trigger] entries_view_from(
                    map@,
                    0,
                )[b]).0 by {
                    assert(pv[a].0 != pv[b].0);
                }
            }
            return ;
        }
        j = j + 1;
    }
    assert(!assoc_has(pv, key@));
    map.push((key, entry));
    proof {
        lemma_entries_view_from(map@, 0);
        assert(entries_view_from(map@, 0) =~= assoc_insert(pv, key@, entry));
        assert forall|a: int, b: int|
            0 <= a < b < entries_view_from(map@, 0).len() implies (#[trigger] entries_view_from(
            map@,
            0,
        )[a]).0 != (#[trigger] entries_view_from(map@, 0)[b]).0 by {
            if b < pv.len() {
                assert(pv[a].0 != pv[b].0);
            } else {
                assert(pv[a].0 != key@);
            }
        }
    }
}


/// Read the index entry table: a varint count, then that many
/// length-prefixed paths each followed by a big-endian offset and
/// length, a later binding of a path replacing an earlier one.
#[verifier::loop_isolation(false)]
#[verifier::rlimit(50)]
fn read_index(input: &[u8], pos: usize) -> (r: Result<
    (Vec<(String, (u64, u64))>, usize),
    AssetError,
>)
    ensures
        match r {
            Ok((v, end)) => {
                &&& dec_index(input@, pos as int) == Some(
                    (entries_view_from(v@, 0), end as int),
                )
                &&& assoc_unique(entries_view_from(v@, 0))
            },
            Err(e) => dec_index(input@, pos as int) is None,
        },
{
    let ghost s = input@;
    let (count, p7) = match read_vlq_u64(input, pos) {
        Ok(v) => v,
        Err(e) => {
            return Err(e);
        },
    };
    let mut index: Vec<(String, (u64, u64))> = Vec::new();
    let mut i: u64 = 0;
    let mut p: usize = p7;
    proof {
        lemma_entries_view_from(index@, 0);
        assert(entries_view_from(index@, 0) =~= Seq::<(Seq<char>, (u64, u64))>::empty());
    }
    while i < count
        invariant
            0 <= i <= count,
            p <= s.len(),
            assoc_unique(entries_view_from(index@, 0)),
            dec_index_items(s, p7 as int, count as nat, Seq::<(Seq<char>, (u64, u64))>::empty())
                == dec_index_items(
                s,
                p as int,
                (count - i) as nat,
                entries_view_from(index@, 0),
            ),
        decreases count - i,
    {
        let ghost p0 = p;
        let key = match read_string(input, p) {
            Ok((k, e1)) => {
                p = e1;
                k
            },
            Err(e) => {
                assert(dec_index_items(
                    s,
                    p as int,
                    (count - i) as nat,
                    entries_view_from(index@, 0),
                ) is None);
                return Err(e);
            },
        };
        if input.len() < 16 || p > input.len() - 16 {
            assert(dec_index_items(
                s,
                p0 as int,
                (count - i) as nat,
                entries_view_from(index@, 0),
            ) is None);
            return Err(AssetError::UnexpectedEof);
        }
        let (offset, p_a) = match read_u64_be(input, p) {
            Ok(v) => v,
            Err(e) => {
                return Err(e);
            },
        };
        let (length, p_b) = match read_u64_be(input, p_a) {
            Ok(v) => v,
            Err(e) => {
                return Err(e);
            },
        };
        proof {
            crate::asset::lemma_be_from_bound(s.subrange(p as int, p + 8));
            crate::asset::lemma_be_from_bound(s.subrange(p + 8, p + 16));
            assert(u64_at_be(s, p as int) == offset);
            assert(u64_at_be(s, p + 8) == length);
        }
        insert_entry(&mut index, key, (offset, length));
        p = p_b;
        i = i + 1;
    }
    assert(dec_index_items(s, p as int, 0nat, entries_view_from(index@, 0)) == Some(
        (entries_view_from(index@, 0), p as int),
    ));
    Ok((index, p))
}

impl PacketReader {
    /// The model of this reader's index: each contained path bound to
    /// its byte offset and byte length.
    pub closed spec fn index_view(&self) -> Seq<(Seq<char>, (u64, u64))> {
        entries_view_from(self.index@, 0)
    }

    /// The model of this reader's archive-wide metadata value.
    pub closed spec fn meta_view(&self) -> SpecValue {
        self.metadata@
    }

    /// The bytes of the archive this reader was opened over.
    pub closed spec fn data_view(&self) -> Seq<u8> {
        self.buffer@
    }

    /// The index and metadata are exactly what one parse of the held
    /// bytes yields, and no path repeats in the index.
    pub closed spec fn wf(&self) -> bool {
        &&& parse_archive(self.buffer@) == Some((self.metadata@, self.index_view()))
        &&& assoc_unique(self.index_view())
    }

    /// Open a packed archive held in memory: check the opening magic,
    /// follow the index offset, check the index marker, and parse the
    /// metadata value and the entry table.
    #[verifier::loop_isolation(false)]
    #[verifier::rlimit(80)]
    pub fn new(input: Vec<u8>) -> (r: Result<PacketReader, AssetError>)
        ensures
            match r {
                Ok(reader) => {
                    &&& reader.wf()
                    &&& reader.data_view() == input@
                    &&& parse_archive(input@) == Some(
                        (reader.meta_view(), reader.index_view()),
                    )
                },
                Err(e) => {
                    &&& parse_archive(input@) is None
                    &&& input@.len() >= 8 && input@.subrange(0, 8) != archive_magic() ==> e
                        == AssetError::InvalidHeader
                    &&& {
                        let off = u64_at_be(input@, 8) as int;
                        input@.len() >= 16 && input@.subrange(0, 8) == archive_magic() && off + 5
                            <= input@.len() && input@.subrange(off, off + 5) != index_magic()
                            ==> e == AssetError::InvalidIndexHeader
                    }
                },
            },
    {
        let ghost s = input@;
        if input.len() < 8 {
            return Err(AssetError::UnexpectedEof);
        }
        if !(input[0] == 0x53 && input[1] == 0x42 && input[2] == 0x41 && input[3] == 0x73
            && input[4] == 0x73 && input[5] == 0x65 && input[6] == 0x74 && input[7] == 0x36) {
            assert(s.subrange(0, 8) != archive_magic()) by {
                if s.subrange(0, 8) == archive_magic() {
                    assert(forall|k: int|
                        0 <= k < 8 ==> #[trigger] s.subrange(0, 8)[k] == archive_magic()[k]);
                }
            }
            return Err(AssetError::InvalidHeader);
        }
        assert(s.subrange(0, 8) =~= archive_magic());
        let (index_start, _p) = match read_u64_be(input.as_slice(), 8) {
            Ok(v) => v,
            Err(e) => {
                return Err(e);
            },
        };
        proof {
            crate::asset::lemma_be_from_bound(s.subrange(8, 16));
            assert(u64_at_be(s, 8) == index_start);
        }
        if input.len() < 5 || index_start > (input.len() - 5) as u64 {
            return Err(AssetError::UnexpectedEof);
        }
        let idx = index_start as usize;
        if !(input[idx] == 0x49 && input[idx + 1] == 0x4e && input[idx + 2] == 0x44 && input[idx
            + 3] == 0x45 && input[idx + 4] == 0x58) {
            assert(s.subrange(idx as int, idx + 5) != index_magic()) by {
                if s.subrange(idx as int, idx + 5) == index_magic() {
                    assert(forall|k: int|
                        0 <= k < 5 ==> #[trigger] s.subrange(idx as int, idx + 5)[k]
                            == index_magic()[k]);
                }
            }
            return Err(AssetError::InvalidIndexHeader);
        }
        assert(s.subrange(idx as int, idx + 5) =~= index_magic());
        let (metadata, p6) = match read_object(input.as_slice(), idx + 5) {
            Ok(v) => v,
            Err(e) => {
                return Err(e);
            },
        };
        let (index, _end) = match read_index(input.as_slice(), p6) {
            Ok(v) => v,
            Err(e) => {
                return Err(e);
            },
        };
        let reader = PacketReader { index, metadata, buffer: input };
        Ok(reader)
    }

    /// A path is contained exactly when the index records it.
    #[verifier::loop_isolation(false)]
    pub fn exist(&self, path: &str) -> (r: bool)
        ensures
            r == assoc_has(self.index_view(), path@),
    {
        let ghost iv = self.index_view();
        proof {
            lemma_entries_view_from(self.index@, 0);
        }
        let mut j: usize = 0;
        while j < self.index.len()
            invariant
                0 <= j <= self.index@.len(),
                forall|jj: int| 0 <= jj < j ==> (#[trigger] iv[jj]).0 != path@,
            decreases self.index@.len() - j,
        {
            let entry = &self.index[j];
            if string_eq_str(&entry.0, path) {
                assert(iv[j as int].0 == path@);
                return true;
            }
            j = j + 1;
        }
        assert(!assoc_has(iv, path@));
        false
    }

    /// The recorded offset and length of `path`, if the index holds it.
    #[verifier::loop_isolation(false)]
    fn lookup(&self, path: &str) -> (r: Option<(u64, u64)>)
        requires
            assoc_unique(self.index_view()),
        ensures
            match r {
                Some(entry) => assoc_has(self.index_view(), path@) && entry == assoc_get(
                    self.index_view(),
                    path@,
                ),
                None => !assoc_has(self.index_view(), path@),
            },
    {
        let ghost iv = self.index_view();
        proof {
            lemma_entries_view_from(self.index@, 0);
        }
        let mut j: usize = 0;
        while j < self.index.len()
            invariant
                0 <= j <= self.index@.len(),
                forall|jj: int| 0 <= jj < j ==> (#[trigger] iv[jj]).0 != path@,
            decreases self.index@.len() - j,
        {
            let entry = &self.index[j];
            if string_eq_str(&entry.0, path) {
                assert(iv[j as int].0 == path@);
                assert(assoc_has(iv, path@));
                proof {
                    let w = choose|jj: int| 0 <= jj < iv.len() && iv[jj].0 == path@;
                    if w < j as int {
                        assert(iv[w].0 != path@);
                    }
                    if w > j as int {
                        assert(iv[j as int].0 != iv[w].0);
                    }
                    assert(assoc_get(iv, path@) == iv[j as int].1);
                }
                return Some(self.index[j].1);
            }
            j = j + 1;
        }
        assert(!assoc_has(iv, path@));
        None
    }

    /// Fetch the bytes of one contained asset: fails not-found when
    /// the index lacks the path, and end-of-input when the recorded
    /// range runs past the held bytes.
    pub fn file(&self, path: &str) -> (r: Result<AssetFile, AssetError>)
        requires
            self.wf(),
        ensures
            match r {
                Ok(f) => {
                    &&& assoc_has(self.index_view(), path@)
                    &&& {
                        let entry = assoc_get(self.index_view(), path@);
                        &&& entry.0 + entry.1 <= self.data_view().len()
                        &&& f.bytes@ == self.data_view().subrange(
                            entry.0 as int,
                            entry.0 + entry.1,
                        )
                        &&& f.bytes@.len() == entry.1
                        &&& f.path@ == path@
                    }
                },
                Err(e) => {
                    &&& (e == AssetError::FileNotFound <==> !assoc_has(
                        self.index_view(),
                        path@,
                    ))
                    &&& (assoc_has(self.index_view(), path@) ==> {
                        let entry = assoc_get(self.index_view(), path@);
                        entry.0 + entry.1 > self.data_view().len() && e
                            == AssetError::UnexpectedEof
                    })
                },
            },
    {
        let entry = match self.lookup(path) {
            Some(entry) => entry,
            None => {
                return Err(AssetError::FileNotFound);
            },
        };
        let (offset, length) = entry;
        if length > self.buffer.len() as u64 || offset > self.buffer.len() as u64 - length {
            return Err(AssetError::UnexpectedEof);
        }
        let start = offset as usize;
        let end = start + (length as usize);
        let slice = vstd::slice::slice_subrange(self.buffer.as_slice(), start, end);
        let bytes = vstd::slice::slice_to_vec(slice);
        let path_string = path.to_owned();
        Ok(AssetFile { path: path_string, bytes })
    }

    /// Every contained path, in index order.
    #[verifier::loop_isolation(false)]
    pub fn paths(&self) -> (r: Vec<String>)
        ensures
            r@.len() == self.index_view().len(),
            forall|j: int| 0 <= j < r@.len() ==> (#[trigger] r@[j])@ == self.index_view()[j].0,
    {
        let ghost iv = self.index_view();
        proof {
            lemma_entries_view_from(self.index@, 0);
        }
        let mut out: Vec<String> = Vec::new();
        let mut j: usize = 0;
        while j < self.index.len()
            invariant
                0 <= j <= self.index@.len(),
                out@.len() == j,
                forall|jj: int| 0 <= jj < j ==> (#[trigger] out@[jj])@ == iv[jj].0,
            decreases self.index@.len() - j,
        {
            out.push(self.index[j].0.clone());
            j = j + 1;
        }
        out
    }

    /// Look one key up in the archive metadata: fails when the
    /// metadata is not an object, or the object lacks the key.
    pub fn meta(&self, key: String) -> (r: Result<SBType, AssetError>)
        requires
            self.wf(),
        ensures
            match r {
                Ok(v) => {
                    &&& self.meta_view() is Obj
                    &&& assoc_has(self.meta_view()->Obj_0, key@)
                    &&& v@ == assoc_get(self.meta_view()->Obj_0, key@)
                },
                Err(e) => {
                    &&& (e == AssetError::MetadataNotObject <==> !(self.meta_view() is Obj))
                    &&& (self.meta_view() is Obj ==> !assoc_has(self.meta_view()->Obj_0, key@)
                        && e == AssetError::KeyNotFound)
                },
            },
    {
        proof {
            if self.metadata@ is Obj {
                crate::asset::reader::lemma_dec_value_obj_unique(
                    self.buffer@,
                    u64_at_be(self.buffer@, 8) as int + 5,
                );
            }
        }
        meta_lookup(&self.metadata, key)
    }
}


/// The wire bytes of the index entries of `v` from index `i` on: each
/// a length-prefixed path, then a big-endian offset and length.
pub open spec fn enc_entries(v: Seq<(Seq<char>, (u64, u64))>, i: int) -> Seq<u8>
    decreases v.len() - i,
{
    if i < 0 || i >= v.len() {
        Seq::<u8>::empty()
    } else {
        enc_str(v[i].0) + u64_be_bytes(v[i].1.0) + u64_be_bytes(v[i].1.1) + enc_entries(v, i + 1)
    }
}

/// Every path of `v` from index `i` on is short enough for its varint
/// length prefix.
pub open spec fn entries_wf(v: Seq<(Seq<char>, (u64, u64))>, i: int) -> bool {
    forall|j: int|
        i <= j < v.len() ==> encode_utf8((#[trigger] v[j]).0).len() < 0x1_0000_0000_0000_0000
}

/// Decoding the encoded tail of the entry table `o` from index `i` on,
/// into the accumulator holding its first `i` entries, reads back
/// exactly `o`.
#[verifier::rlimit(50)]
proof fn lemma_entries_round_trip(s: Seq<u8>, pos: int, o: Seq<(Seq<char>, (u64, u64))>, i: int)
    requires
        0 <= i <= o.len(),
        entries_wf(o, i),
        assoc_unique(o),
        crate::asset::bytes_at(s, pos, enc_entries(o, i)),
    ensures
        dec_index_items(s, pos, (o.len() - i) as nat, o.subrange(0, i)) == Some(
            (o, pos + enc_entries(o, i).len()),
        ),
    decreases o.len() - i,
{
    vstd::arithmetic::power2::lemma2_to64();
    vstd::arithmetic::power2::lemma2_to64_rest();
    if i == o.len() {
        assert(o.subrange(0, i) =~= o);
    } else {
        let k = o[i].0;
        let off = o[i].1.0;
        let len = o[i].1.1;
        let e = enc_entries(o, i);
        assert(e =~= enc_str(k) + (u64_be_bytes(off) + (u64_be_bytes(len) + enc_entries(
            o,
            i + 1,
        ))));
        crate::asset::lemma_bytes_at_split(
            s,
            pos,
            enc_str(k),
            u64_be_bytes(off) + (u64_be_bytes(len) + enc_entries(o, i + 1)),
        );
        crate::asset::reader::lemma_str_round_trip(s, pos, k);
        let e1 = pos + enc_str(k).len();
        crate::asset::lemma_bytes_at_split(
            s,
            e1,
            u64_be_bytes(off),
            u64_be_bytes(len) + enc_entries(o, i + 1),
        );
        crate::asset::lemma_be_round_trip(off as nat, 8);
        assert(s.subrange(e1, e1 + 8) == u64_be_bytes(off));
        assert(u64_at_be(s, e1) == off);
        let e2 = e1 + 8;
        crate::asset::lemma_bytes_at_split(s, e2, u64_be_bytes(len), enc_entries(o, i + 1));
        crate::asset::lemma_be_round_trip(len as nat, 8);
        assert(s.subrange(e2, e2 + 8) == u64_be_bytes(len));
        assert(u64_at_be(s, e2) == len);
        assert(e1 + 16 <= s.len());
        assert(!assoc_has(o.subrange(0, i), k)) by {
            if assoc_has(o.subrange(0, i), k) {
                let j = choose|j: int| 0 <= j < i && o.subrange(0, i)[j].0 == k;
                assert(o[j].0 == o[i].0);
            }
        }
        assert(assoc_insert(o.subrange(0, i), k, (off, len)) =~= o.subrange(0, i + 1));
        lemma_entries_round_trip(s, e1 + 16, o, i + 1);
        assert(dec_index_items(s, pos, (o.len() - i) as nat, o.subrange(0, i))
            == dec_index_items(s, e1 + 16, (o.len() - i - 1) as nat, o.subrange(0, i + 1)));
    }
}


/// The wire bytes of a whole index block: the marker, the metadata
/// value, the entry count, and the entry table.
pub open spec fn index_block(meta: SpecValue, ev: Seq<(Seq<char>, (u64, u64))>) -> Seq<u8> {
    index_magic() + enc_value(meta) + vlq_encode(ev.len() as u64) + enc_entries(ev, 0)
}

/// A stream whose header names an index block of `meta` and `ev`
/// parses to exactly those.
#[verifier::rlimit(60)]
proof fn lemma_archive_parses(
    r: Seq<u8>,
    index_offset: u64,
    meta: SpecValue,
    ev: Seq<(Seq<char>, (u64, u64))>,
)
    requires
        r.len() >= 16,
        r.subrange(0, 8) == archive_magic(),
        r.subrange(8, 16) == u64_be_bytes(index_offset),
        crate::asset::bytes_at(r, index_offset as int, index_block(meta, ev)),
        value_wf(meta),
        assoc_unique(ev),
        entries_wf(ev, 0),
        ev.len() < 0x1_0000_0000_0000_0000,
    ensures
        parse_archive(r) == Some((meta, ev)),
{
    vstd::arithmetic::power2::lemma2_to64();
    vstd::arithmetic::power2::lemma2_to64_rest();
    crate::asset::lemma_be_round_trip(index_offset as nat, 8);
    assert(u64_at_be(r, 8) == index_offset);
    let off = index_offset as int;
    let blk = index_block(meta, ev);
    assert(blk =~= index_magic() + (enc_value(meta) + (vlq_encode(ev.len() as u64)
        + enc_entries(ev, 0))));
    crate::asset::lemma_bytes_at_split(
        r,
        off,
        index_magic(),
        enc_value(meta) + (vlq_encode(ev.len() as u64) + enc_entries(ev, 0)),
    );
    assert(r.subrange(off, off + 5) == index_magic());
    crate::asset::lemma_bytes_at_split(
        r,
        off + 5,
        enc_value(meta),
        vlq_encode(ev.len() as u64) + enc_entries(ev, 0),
    );
    crate::asset::reader::lemma_value_round_trip(r, off + 5, meta);
    let p6 = off + 5 + enc_value(meta).len();
    crate::asset::lemma_bytes_at_split(
        r,
        p6,
        vlq_encode(ev.len() as u64),
        enc_entries(ev, 0),
    );
    crate::asset::vlq::lemma_vlq_round_trip(r, p6, ev.len() as u64);
    let p7 = p6 + vlq_encode(ev.len() as u64).len();
    assert(ev.subrange(0, 0) =~= Seq::<(Seq<char>, (u64, u64))>::empty());
    lemma_entries_round_trip(r, p7, ev, 0);
    assert(dec_index(r, p6) == Some((ev, p7 + enc_entries(ev, 0).len())));
}

/// A writer that builds one packed archive in memory: payload bytes
/// are streamed in while each path's offset and length is recorded,
/// and the index block is emitted last.
pub struct PacketWriter {
    buffer: Vec<u8>,
    index: Vec<(String, (u64, u64))>,
}

impl PacketWriter {
    /// The entries recorded so far: each added path bound to the byte
    /// range its payload occupies.
    pub closed spec fn entries(&self) -> Seq<(Seq<char>, (u64, u64))> {
        entries_view_from(self.index@, 0)
    }

    /// The bytes emitted so far: the archive header, then the payloads
    /// in the order they were added.
    pub closed spec fn data(&self) -> Seq<u8> {
        self.buffer@
    }

    /// The header is in place, no path repeats, every path fits its
    /// length prefix, and every recorded range lies inside the payload
    /// emitted so far.
    pub closed spec fn wf(&self) -> bool {
        &&& self.buffer@.len() >= 16
        &&& self.buffer@.subrange(0, 8) == archive_magic()
        &&& assoc_unique(self.entries())
        &&& entries_wf(self.entries(), 0)
        &&& forall|j: int|
            0 <= j < self.entries().len() ==> 16 <= (#[trigger] self.entries()[j]).1.0
                && self.entries()[j].1.0 + self.entries()[j].1.1 <= self.buffer@.len()
    }

    /// Start an empty archive: the magic, then a placeholder for the
    /// index offset.
    pub fn new() -> (r: PacketWriter)
        ensures
            r.wf(),
            r.entries() == Seq::<(Seq<char>, (u64, u64))>::empty(),
            r.data().len() == 16,
    {
        let mut buffer: Vec<u8> = Vec::new();
        buffer.push(0x53);
        buffer.push(0x42);
        buffer.push(0x41);
        buffer.push(0x73);
        buffer.push(0x73);
        buffer.push(0x65);
        buffer.push(0x74);
        buffer.push(0x36);
        let mut k: usize = 0;
        while k < 8
            invariant
                0 <= k <= 8,
                buffer@.len() == 8 + k,
                forall|j: int| 0 <= j < 8 ==> buffer@[j] == archive_magic()[j],
            decreases 8 - k,
        {
            buffer.push(0);
            k = k + 1;
        }
        let index: Vec<(String, (u64, u64))> = Vec::new();
        let r = PacketWriter { buffer, index };
        proof {
            assert(r.data().subrange(0, 8) =~= archive_magic());
            lemma_entries_view_from(r.index@, 0);
            assert(r.entries() =~= Seq::<(Seq<char>, (u64, u64))>::empty());
        }
        r
    }

    /// Stream one asset's bytes into the archive and record its path,
    /// offset and length.  A path may be added only once.
    pub fn add(&mut self, path: String, bytes: &[u8])
        requires
            old(self).wf(),
            !assoc_has(old(self).entries(), path@),
        ensures
            final(self).wf(),
            final(self).entries() == old(self).entries().push(
                (path@, (old(self).data().len() as u64, bytes@.len() as u64)),
            ),
            final(self).data() == old(self).data() + bytes@,
    {
        let ghost ev0 = self.entries();
        let offset = self.buffer.len() as u64;
        let key_bytes = path.as_str().as_bytes();
        let key_len = key_bytes.len();
        assert(encode_utf8(path@).len() == key_len);
        crate::asset::writer::append_bytes(&mut self.buffer, bytes);
        let length = bytes.len() as u64;
        let ghost idx0 = self.index@;
        self.index.push((path, (offset, length)));
        proof {
            assert(self.buffer@.subrange(0, 8) =~= old(self).buffer@.subrange(0, 8));
            lemma_entries_view_from(idx0, 0);
            lemma_entries_view_from(self.index@, 0);
            assert(self.entries() =~= ev0.push((path@, (offset, length))));
            assert forall|a: int, b: int| 0 <= a < b < self.entries().len() implies (
            #[trigger] self.entries()[a]).0 != (#[trigger] self.entries()[b]).0 by {
                if b < ev0.len() {
                    assert(ev0[a].0 != ev0[b].0);
                } else {
                    assert(!(ev0[a].0 == path@));
                }
            }
            assert forall|j: int|
                0 <= j < self.entries().len() implies encode_utf8(
                (#[trigger] self.entries()[j]).0,
            ).len() < 0x1_0000_0000_0000_0000 by {
                if j < ev0.len() {
                    assert(encode_utf8(ev0[j].0).len() < 0x1_0000_0000_0000_0000);
                }
            }
            assert forall|j: int|
                0 <= j < self.entries().len() implies 16 <= (#[trigger] self.entries()[j]).1.0
                    && self.entries()[j].1.0 + self.entries()[j].1.1 <= self.buffer@.len() by {
                if j < ev0.len() {
                    assert(16 <= ev0[j].1.0 && ev0[j].1.0 + ev0[j].1.1 <= old(
                        self,
                    ).buffer@.len());
                }
            }
        }
    }

    /// Emit the index block and hand back the finished archive: the
    /// index offset is patched into the header, then the index marker,
    /// the metadata value, and the entry table follow.  Parsing the
    /// result yields exactly the metadata and the recorded entries,
    /// and every payload byte stands where its entry says.
    #[verifier::loop_isolation(false)]
    #[verifier::rlimit(60)]
    pub fn finish(self, metadata: &SBType) -> (r: Vec<u8>)
        requires
            self.wf(),
            value_wf(metadata@),
        ensures
            parse_archive(r@) == Some((metadata@, self.entries())),
            r@.len() >= self.data().len(),
            forall|j: int| 0 <= j < 8 ==> r@[j] == self.data()[j],
            forall|j: int| 16 <= j < self.data().len() ==> r@[j] == self.data()[j],
    {
        let PacketWriter { mut buffer, index } = self;
        let ghost data0 = buffer@;
        let ghost ev = entries_view_from(index@, 0);
        let index_offset = buffer.len() as u64;
        let mut obytes: Vec<u8> = Vec::new();
        crate::asset::writer::write_u64_be(&mut obytes, index_offset);
        proof {
            crate::asset::lemma_be_len(index_offset as nat, 8);
        }
        let mut k: usize = 0;
        while k < 8
            invariant
                0 <= k <= 8,
                buffer@.len() == data0.len(),
                forall|j: int| 0 <= j < data0.len() && !(8 <= j < 8 + k) ==> buffer@[j]
                    == data0[j],
                forall|j: int| 8 <= j < 8 + k ==> buffer@[j] == obytes@[j - 8],
            decreases 8 - k,
        {
            buffer.set(8 + k, obytes[k]);
            k = k + 1;
        }
        let ghost patched = buffer@;
        proof {
            assert(patched.subrange(8, 16) =~= u64_be_bytes(index_offset));
            assert(patched.subrange(0, 8) =~= data0.subrange(0, 8));
            assert(patched.subrange(0, 8) == archive_magic());
        }
        let nn = index.len();
        emit_index_block(&mut buffer, metadata, &index);
        proof {
            lemma_entries_view_from(index@, 0);
            assert(ev.len() == nn);
            assert(ev.len() < 0x1_0000_0000_0000_0000);
            let r = buffer@;
            assert(r == patched + index_block(metadata@, ev));
            assert(r.subrange(0, 8) =~= archive_magic());
            assert(r.subrange(8, 16) =~= u64_be_bytes(index_offset));
            assert(crate::asset::bytes_at(r, index_offset as int, index_block(metadata@, ev)))
                by {
                assert(r.subrange(
                    index_offset as int,
                    index_offset + index_block(metadata@, ev).len() as int,
                ) =~= index_block(metadata@, ev));
            }
            lemma_entries_view_from(index@, 0);
            lemma_archive_parses(r, index_offset, metadata@, ev);
        }
        buffer
    }
}

/// Append one whole index block: the marker, the metadata value, the
/// entry count, and the entry table.
#[verifier::loop_isolation(false)]
#[verifier::rlimit(60)]
fn emit_index_block(buffer: &mut Vec<u8>, metadata: &SBType, index: &Vec<(String, (u64, u64))>)
    ensures
        final(buffer)@ == old(buffer)@ + index_block(
            metadata@,
            entries_view_from(index@, 0),
        ),
{
    let ghost ev = entries_view_from(index@, 0);
    let ghost start = buffer@;
    proof {
        lemma_entries_view_from(index@, 0);
    }
    buffer.push(0x49);
    buffer.push(0x4e);
    buffer.push(0x44);
    buffer.push(0x45);
    buffer.push(0x58);
    assert(buffer@ =~= start + index_magic());
    crate::asset::writer::write_object(buffer, metadata);
    let n = index.len();
    crate::asset::writer::write_vlq_u64(buffer, n as u64);
    let ghost base = buffer@;
    let mut i: usize = 0;
    while i < n
        invariant
            0 <= i <= n,
            n == index@.len(),
            buffer@ + enc_entries(ev, i as int) == base + enc_entries(ev, 0),
        decreases n - i,
    {
        let entry = &index[i];
        crate::asset::writer::write_string(buffer, entry.0.as_str());
        crate::asset::writer::write_u64_be(buffer, entry.1.0);
        crate::asset::writer::write_u64_be(buffer, entry.1.1);
        proof {
            assert(ev[i as int] == (index@[i as int].0@, index@[i as int].1));
            assert(enc_entries(ev, i as int) == enc_str(ev[i as int].0) + u64_be_bytes(
                ev[i as int].1.0,
            ) + u64_be_bytes(ev[i as int].1.1) + enc_entries(ev, i + 1));
            assert(buffer@ + enc_entries(ev, i + 1) =~= base + enc_entries(ev, 0));
        }
        i = i + 1;
    }
    proof {
        assert(enc_entries(ev, n as int) == Seq::<u8>::empty());
        assert(buffer@ =~= base + enc_entries(ev, 0));
        assert(buffer@ =~= old(buffer)@ + index_block(metadata@, ev));
    }
}

impl crate::asset::AssetReader for PacketReader {
    /// The reader answers exactly from a parse of its bytes.
    open spec fn valid(&self) -> bool {
        self.wf()
    }

    /// A path is contained when the index records it.
    open spec fn contains_path(&self, path: Seq<char>) -> bool {
        assoc_has(self.index_view(), path)
    }

    /// The archive-wide metadata value.
    open spec fn meta_model(&self) -> SpecValue {
        self.meta_view()
    }

    fn exist(&self, path: &str) -> (r: bool) {
        self.exist(path)
    }

    fn paths(&self) -> (r: Vec<String>) {
        let r = self.paths();
        proof {
            assert forall|p: Seq<char>| #[trigger] assoc_has(self.index_view(), p)
                implies exists|j: int| 0 <= j < r@.len() && (#[trigger] r@[j])@ == p by {
                let w = choose|w: int|
                    0 <= w < self.index_view().len() && (#[trigger] self.index_view()[w]).0 == p;
                assert(r@[w]@ == p);
            }
            assert forall|j: int| 0 <= j < r@.len() implies assoc_has(
                self.index_view(),
                (#[trigger] r@[j])@,
            ) by {
                assert(self.index_view()[j].0 == r@[j]@);
            }
        }
        r
    }

    fn meta(&self, key: String) -> (r: Result<SBType, AssetError>) {
        self.meta(key)
    }
}

/// Look one key up in a tagged value expected to be an object: the
/// first pair carrying the key answers, which is the only one wherever
/// the object keeps its keys unique.
#[verifier::loop_isolation(false)]
pub fn meta_lookup(metadata: &SBType, key: String) -> (r: Result<SBType, AssetError>)
    ensures
        match r {
            Ok(v) => {
                &&& metadata@ is Obj
                &&& assoc_has(metadata@->Obj_0, key@)
                &&& (crate::asset::obj_keys_unique(metadata@->Obj_0) ==> v@ == assoc_get(
                    metadata@->Obj_0,
                    key@,
                ))
            },
            Err(e) => {
                &&& (e == AssetError::MetadataNotObject <==> !(metadata@ is Obj))
                &&& (metadata@ is Obj ==> !assoc_has(metadata@->Obj_0, key@) && e
                    == AssetError::KeyNotFound)
            },
        },
{
    match metadata {
        SBType::Object(pairs) => {
            let ghost pv = pairs_view_from(pairs@, 0);
            proof {
                crate::asset::lemma_pairs_view_from(pairs@, 0);
                assert(metadata@ == SpecValue::Obj(pv));
            }
            let mut j: usize = 0;
            while j < pairs.len()
                invariant
                    0 <= j <= pairs@.len(),
                    forall|jj: int| 0 <= jj < j ==> (#[trigger] pv[jj]).0 != key@,
                decreases pairs@.len() - j,
            {
                let pair = &pairs[j];
                if string_eq(&pair.0, &key) {
                    assert(pv[j as int].0 == key@);
                    assert(assoc_has(pv, key@));
                    proof {
                        if crate::asset::obj_keys_unique(pv) {
                            let w = choose|jj: int| 0 <= jj < pv.len() && pv[jj].0 == key@;
                            if w < j as int {
                                assert(pv[w].0 != key@);
                            }
                            if w > j as int {
                                assert(pv[j as int].0 != pv[w].0);
                            }
                            assert(assoc_get(pv, key@) == pv[j as int].1);
                        }
                    }
                    return Ok(pairs[j].1.duplicate());
                }
                j = j + 1;
            }
            assert(!assoc_has(pv, key@));
            Err(AssetError::KeyNotFound)
        },
        _ => Err(AssetError::MetadataNotObject),
    }
}

/// Two strings are equal exactly when their characters are.
fn string_eq(a: &String, b: &String) -> (r: bool)
    ensures
        r == (a@ == b@),
{
    a.eq(b)
}

/// A string equals a string slice exactly when their characters do.
fn string_eq_str(a: &String, b: &str) -> (r: bool)
    ensures
        r == (a@ == b@),
{
    string_eq(a, &b.to_owned())
}

} // verus!
