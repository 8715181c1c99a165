//! The library's error type for per-file and setup failures.

use vstd::prelude::*;

verus! {

/// Why a ledger operation or a candidate failed.
#[derive(Debug)]
pub enum CleanupError {
    /// The durable store refused the operation.
    Store(sled::Error),
    /// The local clock named two instants for one timestamp; the audit
    /// line cannot be formed.
    FoldedTime,
    /// The owner's sequence numbers are exhausted: assigning another
    /// would reuse a destination path.
    CounterExhausted,
}

impl CleanupError {
    /// A short fixed description, for the error stream.
    pub fn describe(&self) -> (r: &'static str)
        ensures
            (self is Store ==> r@ == "durable store error"@),
            (self is FoldedTime ==> r@ == "timestamp maps to two local times"@),
            (self is CounterExhausted ==> r@ == "owner sequence numbers exhausted"@),
    {
        match self {
            CleanupError::Store(_) => "durable store error",
            CleanupError::FoldedTime => "timestamp maps to two local times",
            CleanupError::CounterExhausted => "owner sequence numbers exhausted",
        }
    }
}

} // verus!
