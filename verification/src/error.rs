//! The error taxonomy of the bridge.
//!
//! Every condition that the reference protocol treats as fatal is surfaced
//! here as a recoverable error instead: one bad call must not take down the
//! whole bridge.

use vstd::prelude::*;

verus! {

/// A recoverable failure of the codec, the registry or the bridge.
#[derive(Clone, Copy, Debug, PartialEq, Eq, Structural)]
pub enum Error {
    /// A write would run past the fixed capacity of a buffer.
    BufferCapacityExceeded,
    /// A dispatch target is not registered.
    UnknownFunction,
    /// A value was narrowed to a variant other than the one stored.
    TypeMismatch,
    /// Buffer content does not decode as a value.
    MalformedPayload,
}

impl Error {
    /// A short human-readable description of the error.
    pub fn describe(&self) -> (r: &'static str)
        ensures
            r@.len() > 0,
    {
        let r = match self {
            Error::BufferCapacityExceeded => "buffer has run out of space",
            Error::UnknownFunction => "no function is registered under this name",
            Error::TypeMismatch => "value is not of the expected variant",
            Error::MalformedPayload => "buffer content does not decode as a value",
        };
        proof {
            reveal_strlit("buffer has run out of space");
            reveal_strlit("no function is registered under this name");
            reveal_strlit("value is not of the expected variant");
            reveal_strlit("buffer content does not decode as a value");
        }
        r
    }
}

} // verus!
