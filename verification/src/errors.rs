//! The error value surfaced by the fallible operations of this crate.

use vstd::prelude::*;

verus! {

/// A failure of one of the record operations. Every variant carries a
/// human-readable message.
#[derive(Debug)]
pub enum Error {
    /// A member looked up by name was absent from a loosely typed entity.
    LookupFailure(String),
    /// An entity could not be viewed as a `User` record.
    ViewFailure(String),
    /// JSON text was malformed or did not match the record schema.
    DecodingError(String),
    /// A record could not be serialized (defensive; the encoders of this
    /// crate prove that it does not happen).
    EncodingError(String),
}

impl Error {
    /// The message carried by the error.
    pub fn message(&self) -> &String {
        match self {
            Error::LookupFailure(m) => m,
            Error::ViewFailure(m) => m,
            Error::DecodingError(m) => m,
            Error::EncodingError(m) => m,
        }
    }
}

} // verus!
