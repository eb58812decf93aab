//! The distinct failures the engine can report; never collapsed into one
//! opaque kind.

use vstd::prelude::*;

verus! {

/// Why a session or transport operation failed.
#[derive(Debug, Clone, PartialEq, Eq)]
pub enum DapError {
    /// Reading from or writing to the adapter's pipes failed.
    IoError(Vec<char>),
    /// There is no connected adapter.
    NoDapInstance,
    /// There is no loaded target.
    NoLoadedTarget,
    /// The adapter process gave no usable input pipe.
    NoStdin,
    /// The adapter process gave no usable output pipe.
    NoStdout,
    /// A message could not be encoded to or decoded from JSON.
    JsonEncodingError,
    /// A frame began with something other than a length header.
    BadMessageHeader(Vec<char>),
    /// The length header's value is no usable number.
    InvalidContentLength(Vec<char>),
    /// A frame body was not valid UTF-8.
    BadCharacterEncoding,
}

} // verus!
