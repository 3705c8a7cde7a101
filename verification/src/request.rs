//! Configuration revisions and request kinds.

use vstd::prelude::*;

verus! {

/// Revision number of a configuration snapshot.
#[derive(Debug, Clone, Copy, PartialEq, Eq, Structural, Hash)]
pub struct ConfigRevision {
    /// Monotonically increasing revision value.
    pub value: u64,
}

impl ConfigRevision {
    /// The first configuration revision.
    pub fn initial() -> (r: ConfigRevision)
        ensures
            r.value == 1,
    {
        ConfigRevision { value: 1 }
    }

    /// The revision that follows this one.
    pub fn next(self) -> (r: ConfigRevision)
        requires
            self.value < u64::MAX,
        ensures
            r.value == self.value + 1,
    {
        ConfigRevision { value: self.value + 1 }
    }
}

/// How a request holds its connection.
#[derive(Debug, Clone, Copy, PartialEq, Eq, Structural)]
pub enum RequestKind {
    /// Ordinary short request.
    Unary,
    /// SSE, chunked or upgraded streaming connection.
    Stream,
}

} // verus!
