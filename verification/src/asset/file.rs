use vstd::prelude::*;

use crate::error::AssetError;

verus! {

/// One asset fetched out of a backend: its virtual path and its raw
/// bytes, owned by the caller.
#[derive(Debug, PartialEq)]
pub struct AssetFile {
    pub path: String,
    pub bytes: Vec<u8>,
}

/// The characters of `bytes`, one character per byte, each at the code
/// point the byte names.
pub open spec fn bytes_as_chars(bytes: Seq<u8>) -> Seq<char> {
    Seq::new(bytes.len(), |i: int| bytes[i] as char)
}

impl AssetFile {
    /// The bytes of this asset read as text, one character per byte.
    #[verifier::loop_isolation(false)]
    pub fn as_string(&self) -> (r: Result<String, AssetError>)
        ensures
            r is Ok,
            r->Ok_0@ == bytes_as_chars(self.bytes@),
    {
        let mut chars: Vec<char> = Vec::new();
        let mut i: usize = 0;
        while i < self.bytes.len()
            invariant
                0 <= i <= self.bytes@.len(),
                chars@.len() == i,
                forall|j: int| 0 <= j < i ==> chars@[j] == #[trigger] self.bytes@[j] as char,
            decreases self.bytes@.len() - i,
        {
            let b = self.bytes[i];
            chars.push(b as char);
            i = i + 1;
        }
        let text = chars_to_string(chars);
        assert(text@ =~= bytes_as_chars(self.bytes@));
        Ok(text)
    }
}

/// Relies on `String::from_iter` over characters: the string holding
/// exactly the characters handed in, in order.
#[verifier::external_body]
fn chars_to_string(chars: Vec<char>) -> (r: String)
    ensures
        r@ == chars@,
{
    chars.into_iter().collect()
}

} // verus!
