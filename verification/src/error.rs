use vstd::prelude::*;

verus! {

/// Every way an archive operation can fail.
///
/// Format errors are fatal to the decode or open in progress; the
/// not-found errors are ordinary conditions a caller branches on.
#[derive(Debug, Clone, Copy, PartialEq, Eq, Structural)]
pub enum AssetError {
    /// The first eight bytes of a packed archive are not the expected magic.
    InvalidHeader,
    /// The bytes at the recorded index offset are not the index marker.
    InvalidIndexHeader,
    /// A tagged value began with a tag byte outside the supported range.
    UnsupportedType,
    /// A variable-length integer ran past its ten-byte maximum.
    OversizedVarint,
    /// A length-prefixed string held bytes that are not valid UTF-8.
    InvalidUtf8,
    /// The input ended before a complete value could be decoded.
    UnexpectedEof,
    /// A read was asked for a path that no index entry records.
    FileNotFound,
    /// A metadata lookup was asked for a key the metadata object lacks.
    KeyNotFound,
    /// A metadata lookup was made while the metadata is not an object.
    MetadataNotObject,
    /// An operation was handed an asset path that does not start with `/`.
    PathNotAbsolute,
}

impl AssetError {
    /// A short description of the failure, for callers that report it.
    pub fn message(&self) -> (r: String)
        ensures
            r@.len() > 0,
    {
        let s = match self {
            AssetError::InvalidHeader => "Invalid packed file header",
            AssetError::InvalidIndexHeader => "Invalid index header",
            AssetError::UnsupportedType => "Unsupport type",
            AssetError::OversizedVarint => "OversizedVLQ",
            AssetError::InvalidUtf8 => "Invalid UTF-8 string",
            AssetError::UnexpectedEof => "Unexpected end of input",
            AssetError::FileNotFound => "File is not exist",
            AssetError::KeyNotFound => "Key not found in metadata",
            AssetError::MetadataNotObject => "Metadata is not an object",
            AssetError::PathNotAbsolute => "Asset path must be absolute",
        };
        proof {
            reveal_strlit("Invalid packed file header");
            reveal_strlit("Invalid index header");
            reveal_strlit("Unsupport type");
            reveal_strlit("OversizedVLQ");
            reveal_strlit("Invalid UTF-8 string");
            reveal_strlit("Unexpected end of input");
            reveal_strlit("File is not exist");
            reveal_strlit("Key not found in metadata");
            reveal_strlit("Metadata is not an object");
            reveal_strlit("Asset path must be absolute");
        }
        s.to_owned()
    }
}

} // verus!
