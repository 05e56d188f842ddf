//! The retry policy for writing a new rate to the database.

use vstd::prelude::*;

verus! {

/// How many times a new rate is written before the write is given up.
pub const PERSIST_RETRIES: u32 = 3;

/// The pause between two writes of the same rate, in milliseconds.
pub const PERSIST_RETRY_DELAY_MS: u64 = 100;

/// What to do after a write of a rate failed.
#[derive(Clone, Copy, Debug, PartialEq, Eq, Structural)]
pub enum PersistStep {
    /// Pause for `PERSIST_RETRY_DELAY_MS` and write again.
    RetryAfterDelay,
    /// Report the failure and stop.
    GiveUp,
}

/// The step after write number `attempt` (counted from zero) failed: the write is
/// given up after the last of `PERSIST_RETRIES` attempts and retried before it.
pub fn after_failed_persist(attempt: u32) -> (step: PersistStep)
    requires
        attempt < PERSIST_RETRIES,
    ensures
        step == (if attempt + 1 == PERSIST_RETRIES { PersistStep::GiveUp } else { PersistStep::RetryAfterDelay }),
{
    if attempt == PERSIST_RETRIES - 1 {
        PersistStep::GiveUp
    } else {
        PersistStep::RetryAfterDelay
    }
}

} // verus!
