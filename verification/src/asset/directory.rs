use vstd::prelude::*;
use vstd::string::{StrSliceExecFns, StringExecFns};

use crate::asset::packet::meta_lookup;
use crate::asset::reader::{assoc_get, assoc_has};
use crate::asset::{SBType, SpecValue};
use crate::error::AssetError;

verus! {

/// `s` without its leading slashes.
pub open spec fn strip_slashes(s: Seq<char>) -> Seq<char>
    decreases s.len(),
{
    if s.len() > 0 && s[0] == '/' {
        strip_slashes(s.drop_first())
    } else {
        s
    }
}

/// Dropping a run of leading slashes is stripping, once nothing
/// slashed is left in front.
proof fn lemma_strip_slashes(s: Seq<char>, i: int)
    requires
        0 <= i <= s.len(),
        forall|j: int| 0 <= j < i ==> s[j] == '/',
        i == s.len() || s[i] != '/',
    ensures
        strip_slashes(s) == s.subrange(i, s.len() as int),
    decreases i,
{
    if i == 0 {
        assert(s.subrange(0, s.len() as int) =~= s);
        if s.len() > 0 {
            assert(s[0] != '/');
        }
    } else {
        assert(s[0] == '/');
        let t = s.drop_first();
        assert(t =~= s.subrange(1, s.len() as int));
        lemma_strip_slashes(t, i - 1);
        assert(t.subrange(i - 1, t.len() as int) =~= s.subrange(i, s.len() as int));
    }
}

/// A path names an asset only when it starts at the virtual root.
pub open spec fn is_absolute(path: Seq<char>) -> bool {
    path.len() > 0 && path[0] == '/'
}

/// The filesystem path an absolute asset path maps to under `base`.
pub open spec fn fs_path_of(base: Seq<char>, path: Seq<char>) -> Seq<char> {
    base + seq!['/'] + strip_slashes(path)
}

/// A reader presenting one directory tree as an archive: the virtual
/// asset paths found by a walk of the tree, and the metadata read from
/// an optional sidecar file, both fixed at open time.
#[derive(Debug)]
pub struct DirectoryReader {
    base_directory: String,
    metadata_file: Option<String>,
    metadata: SBType,
    assets_paths: Vec<String>,
}

impl DirectoryReader {
    /// The model of this reader's virtual asset paths.
    pub closed spec fn paths_view(&self) -> Seq<Seq<char>> {
        Seq::new(self.assets_paths@.len(), |i: int| self.assets_paths@[i]@)
    }

    /// The model of this reader's metadata value.
    pub closed spec fn meta_view(&self) -> SpecValue {
        self.metadata@
    }

    /// The base directory this reader resolves against.
    pub closed spec fn base_view(&self) -> Seq<char> {
        self.base_directory@
    }

    /// The sidecar file name the metadata came from, if one was found.
    pub closed spec fn meta_file_view(&self) -> Option<Seq<char>> {
        match self.metadata_file {
            Some(ref name) => Some(name@),
            None => None,
        }
    }

    /// Every held path is absolute and none repeats.
    pub closed spec fn wf(&self) -> bool {
        &&& forall|i: int| 0 <= i < self.paths_view().len() ==> is_absolute(
            #[trigger] self.paths_view()[i],
        )
        &&& forall|i: int, j: int|
            0 <= i < j < self.paths_view().len() ==> self.paths_view()[i]
                != self.paths_view()[j]
    }

    /// A path this reader holds.
    pub open spec fn has_path(&self, path: Seq<char>) -> bool {
        exists|i: int| 0 <= i < self.paths_view().len() && self.paths_view()[i] == path
    }

    /// Open a directory tree from what a walk of it found: the virtual
    /// paths of its files, and the metadata its sidecar held, if any.
    /// A path that does not start at the virtual root is rejected;
    /// a path seen twice is kept once.
    #[verifier::loop_isolation(false)]
    #[verifier::rlimit(100)]
    #[verifier::spinoff_prover]
    pub fn new(
        base_directory: String,
        metadata_file: Option<String>,
        metadata: SBType,
        asset_paths: Vec<String>,
    ) -> (r: Result<DirectoryReader, AssetError>)
        ensures
            match r {
                Ok(reader) => {
                    &&& reader.wf()
                    &&& reader.base_view() == base_directory@
                    &&& reader.meta_view() == metadata@
                    &&& forall|p: Seq<char>| #[trigger] reader.has_path(p) <==> exists|i: int|
                        0 <= i < asset_paths@.len() && (#[trigger] asset_paths@[i])@ == p
                    &&& forall|i: int| 0 <= i < asset_paths@.len() ==> is_absolute(
                        (#[trigger] asset_paths@[i])@,
                    )
                },
                Err(e) => {
                    &&& e == AssetError::PathNotAbsolute
                    &&& exists|i: int|
                        0 <= i < asset_paths@.len() && !is_absolute(
                            (#[trigger] asset_paths@[i])@,
                        )
                },
            },
    {
        let mut kept: Vec<String> = Vec::new();
        let mut i: usize = 0;
        while i < asset_paths.len()
            invariant
                0 <= i <= asset_paths@.len(),
                forall|j: int| 0 <= j < i ==> is_absolute((#[trigger] asset_paths@[j])@),
                forall|j: int| 0 <= j < kept@.len() ==> is_absolute((#[trigger] kept@[j])@),
                forall|a: int, b: int| 0 <= a < b < kept@.len() ==> (#[trigger] kept@[a])@ != (
                #[trigger] kept@[b])@,
                forall|j: int|
                    0 <= j < kept@.len() ==> exists|jj: int|
                        0 <= jj < i && (#[trigger] asset_paths@[jj])@ == (#[trigger] kept@[j])@,
                forall|j: int|
                    0 <= j < i ==> exists|jj: int|
                        0 <= jj < kept@.len() && (#[trigger] kept@[jj])@ == (
                        #[trigger] asset_paths@[j])@,
            decreases asset_paths@.len() - i,
        {
            let ghost kept0 = kept@;
            let path = &asset_paths[i];
            if !starts_with_slash(path.as_str()) {
                return Err(AssetError::PathNotAbsolute);
            }
            if !contains_string(&kept, path.as_str()) {
                kept.push(path.clone());
            }
            proof {
                assert(exists|jj: int|
                    0 <= jj < kept@.len() && (#[trigger] kept@[jj])@ == asset_paths@[i as int]@)
                    by {
                    if exists|jj: int|
                        0 <= jj < kept0.len() && (#[trigger] kept0[jj])@
                            == asset_paths@[i as int]@ {
                        let w = choose|w: int|
                            0 <= w < kept0.len() && (#[trigger] kept0[w])@
                                == asset_paths@[i as int]@;
                        assert(kept@[w]@ == asset_paths@[i as int]@);
                    } else {
                        assert(kept@[kept@.len() - 1]@ == asset_paths@[i as int]@);
                    }
                }
                assert forall|j: int| 0 <= j < i + 1 implies exists|jj: int|
                    0 <= jj < kept@.len() && (#[trigger] kept@[jj])@ == (
                    #[trigger] asset_paths@[j])@ by {
                    if j < i {
                        let w = choose|w: int|
                            0 <= w < kept0.len() && (#[trigger] kept0[w])@ == asset_paths@[j]@;
                        assert(kept@[w]@ == asset_paths@[j]@);
                    }
                }
            }
            i = i + 1;
        }
        let reader = DirectoryReader {
            base_directory,
            metadata_file,
            metadata,
            assets_paths: kept,
        };
        proof {
            assert(reader.paths_view().len() == reader.assets_paths@.len());
            assert forall|p: Seq<char>| #[trigger] reader.has_path(p) implies exists|jj: int|
                0 <= jj < asset_paths@.len() && (#[trigger] asset_paths@[jj])@ == p by {
                let w = choose|w: int|
                    0 <= w < reader.paths_view().len() && reader.paths_view()[w] == p;
                assert(kept@[w]@ == p);
            }
            assert forall|p: Seq<char>|
                (exists|jj: int| 0 <= jj < asset_paths@.len() && (#[trigger] asset_paths@[jj])@
                    == p) implies #[trigger] reader.has_path(p) by {
                let w = choose|w: int|
                    0 <= w < asset_paths@.len() && asset_paths@[w]@ == p;
                let w2 = choose|w2: int| 0 <= w2 < kept@.len() && kept@[w2]@ == asset_paths@[w]@;
                assert(reader.paths_view()[w2] == p);
            }
        }
        Ok(reader)
    }

    /// The filesystem path an asset path resolves to: the base
    /// directory, a separator, and the path without its leading
    /// slashes.  A path that does not start at the virtual root is
    /// rejected before anything is resolved.
    pub fn to_filesystem(&self, path: &str) -> (r: Result<String, AssetError>)
        ensures
            match r {
                Ok(p) => is_absolute(path@) && p@ == fs_path_of(self.base_view(), path@),
                Err(e) => !is_absolute(path@) && e == AssetError::PathNotAbsolute,
            },
    {
        if !starts_with_slash(path) {
            return Err(AssetError::PathNotAbsolute);
        }
        let relative = trim_slashes(path);
        let mut out = self.base_directory.clone();
        out.append("/");
        out.append(relative);
        proof {
            reveal_strlit("/");
            assert("/"@ =~= seq!['/']);
            assert(out@ =~= fs_path_of(self.base_view(), path@));
        }
        Ok(out)
    }

    /// A path is contained exactly when it is absolute and the walk
    /// recorded it.
    #[verifier::loop_isolation(false)]
    pub fn exist(&self, path: &str) -> (r: bool)
        ensures
            r == (is_absolute(path@) && self.has_path(path@)),
    {
        if !starts_with_slash(path) {
            return false;
        }
        let r = contains_string(&self.assets_paths, path);
        proof {
            if r {
                let w = choose|w: int|
                    0 <= w < self.assets_paths@.len() && (#[trigger] self.assets_paths@[w])@
                        == path@;
                assert(self.paths_view()[w] == path@);
            } else {
                if self.has_path(path@) {
                    let w = choose|w: int|
                        0 <= w < self.paths_view().len() && #[trigger] self.paths_view()[w]
                            == path@;
                    assert(self.assets_paths@[w]@ == path@);
                }
            }
        }
        r
    }

    /// The filesystem path holding one contained asset's bytes: fails
    /// not-found when the walk recorded no such path.
    pub fn file_path(&self, path: &str) -> (r: Result<String, AssetError>)
        ensures
            match r {
                Ok(p) => {
                    &&& is_absolute(path@)
                    &&& self.has_path(path@)
                    &&& p@ == fs_path_of(self.base_view(), path@)
                },
                Err(e) => {
                    &&& e == AssetError::FileNotFound
                    &&& !(is_absolute(path@) && self.has_path(path@))
                },
            },
    {
        if !self.exist(path) {
            return Err(AssetError::FileNotFound);
        }
        match self.to_filesystem(path) {
            Ok(p) => Ok(p),
            Err(_) => Err(AssetError::FileNotFound),
        }
    }

    /// Every contained path, in the order the walk recorded them.
    #[verifier::loop_isolation(false)]
    pub fn paths(&self) -> (r: Vec<String>)
        ensures
            r@.len() == self.paths_view().len(),
            forall|j: int| 0 <= j < r@.len() ==> (#[trigger] r@[j])@ == self.paths_view()[j],
    {
        let mut out: Vec<String> = Vec::new();
        let mut j: usize = 0;
        while j < self.assets_paths.len()
            invariant
                0 <= j <= self.assets_paths@.len(),
                out@.len() == j,
                forall|jj: int| 0 <= jj < j ==> (#[trigger] out@[jj])@ == self.paths_view()[jj],
            decreases self.assets_paths@.len() - j,
        {
            out.push(self.assets_paths[j].clone());
            j = j + 1;
        }
        out
    }

    /// Look one key up in the sidecar metadata: fails when the
    /// metadata is not an object, or the object lacks the key.
    pub fn meta(&self, key: String) -> (r: Result<SBType, AssetError>)
        ensures
            match r {
                Ok(v) => {
                    &&& self.meta_view() is Obj
                    &&& assoc_has(self.meta_view()->Obj_0, key@)
                    &&& (crate::asset::obj_keys_unique(self.meta_view()->Obj_0) ==> v@
                        == assoc_get(self.meta_view()->Obj_0, key@))
                },
                Err(e) => {
                    &&& (e == AssetError::MetadataNotObject <==> !(self.meta_view() is Obj))
                    &&& (self.meta_view() is Obj ==> !assoc_has(self.meta_view()->Obj_0, key@)
                        && e == AssetError::KeyNotFound)
                },
            },
    {
        meta_lookup(&self.metadata, key)
    }
}

impl crate::asset::AssetReader for DirectoryReader {
    /// The reader answers exactly from what the walk recorded.
    open spec fn valid(&self) -> bool {
        self.wf()
    }

    /// A path is contained when it is absolute and the walk recorded
    /// it.
    open spec fn contains_path(&self, path: Seq<char>) -> bool {
        is_absolute(path) && self.has_path(path)
    }

    /// The sidecar metadata value.
    open spec fn meta_model(&self) -> SpecValue {
        self.meta_view()
    }

    fn exist(&self, path: &str) -> (r: bool) {
        self.exist(path)
    }

    fn paths(&self) -> (r: Vec<String>) {
        let r = self.paths();
        proof {
            assert forall|p: Seq<char>| is_absolute(p) && #[trigger] self.has_path(p)
                implies exists|j: int| 0 <= j < r@.len() && (#[trigger] r@[j])@ == p by {
                let w = choose|w: int|
                    0 <= w < self.paths_view().len() && #[trigger] self.paths_view()[w] == p;
                assert(r@[w]@ == p);
            }
            assert forall|j: int| 0 <= j < r@.len() implies is_absolute((#[trigger] r@[j])@)
                && self.has_path(r@[j]@) by {
                assert(self.paths_view()[j] == r@[j]@);
            }
        }
        r
    }

    fn meta(&self, key: String) -> (r: Result<SBType, AssetError>) {
        self.meta(key)
    }
}

/// The first character is a slash.
fn starts_with_slash(path: &str) -> (r: bool)
    ensures
        r == is_absolute(path@),
{
    if path.unicode_len() == 0 {
        return false;
    }
    path.get_char(0) == '/'
}

/// `path` without its leading slashes.
#[verifier::loop_isolation(false)]
fn trim_slashes(path: &str) -> (r: &str)
    ensures
        r@ == strip_slashes(path@),
{
    let len = path.unicode_len();
    let mut i: usize = 0;
    while i < len
        invariant
            0 <= i <= len,
            len == path@.len(),
            forall|j: int| 0 <= j < i ==> path@[j] == '/',
        decreases len - i,
    {
        if path.get_char(i) != '/' {
            break ;
        }
        i = i + 1;
    }
    assert(i == len || path@[i as int] != '/');
    proof {
        lemma_strip_slashes(path@, i as int);
    }
    path.substring_char(i, len)
}

/// Some held string has exactly the characters of `path`.
#[verifier::loop_isolation(false)]
fn contains_string(held: &Vec<String>, path: &str) -> (r: bool)
    ensures
        r == exists|i: int| 0 <= i < held@.len() && (#[trigger] held@[i])@ == path@,
{
    let mut j: usize = 0;
    while j < held.len()
        invariant
            0 <= j <= held@.len(),
            forall|jj: int| 0 <= jj < j ==> (#[trigger] held@[jj])@ != path@,
        decreases held@.len() - j,
    {
        if str_equal(held[j].as_str(), path) {
            assert(held@[j as int]@ == path@);
            return true;
        }
        j = j + 1;
    }
    false
}

/// Two string slices are equal exactly when their characters are.
fn str_equal(a: &str, b: &str) -> (r: bool)
    ensures
        r == (a@ == b@),
{
    let sa = a.to_owned();
    let sb = b.to_owned();
    sa.eq(&sb)
}

} // verus!
