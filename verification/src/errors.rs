//! Error taxonomy shared by the archive reader and the two codecs.

use vstd::prelude::*;

verus! {

/// What went wrong while reading or decoding a resource.
///
/// - `IoError`: the container image is truncated (directory or resource
///   range runs past the end of the file image).
/// - `NotFound`: the requested key has no directory entry.
/// - `FormatError`: a structurally required minimum is missing, such as a
///   payload shorter than the 768 palette bytes it must carry.
/// - `DecodeError`: a corrupt compressed stream or cell table.
#[derive(Clone, Copy, Debug, PartialEq, Eq, Structural)]
pub enum ErrorKind {
    IoError,
    NotFound,
    FormatError,
    DecodeError,
}

impl ErrorKind {
    /// A human-readable description, for callers that report failures.
    pub fn message(&self) -> (r: &'static str)
        ensures
            self is IoError ==> r@ == "truncated container image"@,
            self is NotFound ==> r@ == "item is not found"@,
            self is FormatError ==> r@ == "payload is too short"@,
            self is DecodeError ==> r@ == "corrupt compressed data"@,
    {
        match self {
            ErrorKind::IoError => "truncated container image",
            ErrorKind::NotFound => "item is not found",
            ErrorKind::FormatError => "payload is too short",
            ErrorKind::DecodeError => "corrupt compressed data",
        }
    }
}

} // verus!
