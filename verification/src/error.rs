//! Errors surfaced by the consensus core.
//!
//! Stale terms, log mismatches and transport failures are handled
//! inside the protocol (term adoption, backward-stepping retry, retry
//! on the next cycle) and never surface as errors; the only condition
//! a caller sees is asking a non-leader to do leader-only work.

use vstd::prelude::*;

verus! {

/// Errors that may happen during the operation of the consensus core.
#[derive(Clone, Copy, Debug, PartialEq, Eq, Structural)]
pub enum Error {
    /// A leader-only operation was attempted on a non-leader.  Always
    /// recoverable by redirecting the caller to the current leader.
    NotLeader,
}

impl Error {
    /// A human-readable description of the error.
    pub fn message(&self) -> (r: &'static str)
        ensures
            r@ == "not a leader"@,
    {
        match *self {
            Error::NotLeader => "not a leader",
        }
    }
}

} // verus!
