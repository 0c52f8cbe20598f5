//! Lock identities.
use vstd::prelude::*;

verus! {

/// Identifies a lock; the executor hands them out from a counter.
#[derive(Debug, Clone, Copy, PartialEq, Eq, PartialOrd, Ord, Structural)]
pub struct LockId(pub u64);

impl LockId {
    pub fn new(raw: u64) -> (r: LockId)
        ensures
            r.0 == raw,
    {
        LockId(raw)
    }
}

} // verus!
