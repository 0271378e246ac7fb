//! The library's error kinds.

use vstd::prelude::*;

verus! {

/// What went wrong, with a message naming the offending input.
#[derive(Debug)]
pub enum EpxError {
    /// The archive or its container structure is not a valid EPUB.
    InvalidEpub(String),
    /// An XML document could not be parsed.
    Xml(String),
    /// A named chapter, asset or spine item does not exist.
    NotFound(String),
    /// An argument is malformed.
    InvalidArgument(String),
}

impl EpxError {
    /// The message carried by the error.
    pub fn message(&self) -> (r: String)
        ensures
            r@ == (match self {
                EpxError::InvalidEpub(m) => m@,
                EpxError::Xml(m) => m@,
                EpxError::NotFound(m) => m@,
                EpxError::InvalidArgument(m) => m@,
            }),
    {
        match self {
            EpxError::InvalidEpub(m) => m.clone(),
            EpxError::Xml(m) => m.clone(),
            EpxError::NotFound(m) => m.clone(),
            EpxError::InvalidArgument(m) => m.clone(),
        }
    }
}

} // verus!
