//! Small value types shared across the protocol engine.

use vstd::prelude::*;

verus! {

/// An address in the debuggee, carried on the wire as a hexadecimal string.
#[derive(Default, Clone, Copy, PartialEq, Eq, Hash, Debug, Structural)]
pub struct DebugPointer(pub usize);

impl DebugPointer {
    pub fn new(data: usize) -> (r: Self)
        ensures
            r.0 == data,
    {
        Self(data)
    }

    pub fn null() -> (r: Self)
        ensures
            r.0 == 0,
    {
        Self(0)
    }

    pub fn is_null(self) -> (r: bool)
        ensures
            r == (self.0 == 0),
    {
        self.0 == 0
    }

    pub fn as_usize(self) -> (r: usize)
        ensures
            r == self.0,
    {
        self.0
    }
}

/// Identifies an outbound request by the sequence number it was sent with.
#[derive(Clone, Copy, PartialEq, Eq, Hash, Debug, Structural)]
pub struct RequestId(pub u64);

impl RequestId {
    pub fn new(seq: u64) -> (r: Self)
        ensures
            r.0 == seq,
    {
        Self(seq)
    }
}

} // verus!
