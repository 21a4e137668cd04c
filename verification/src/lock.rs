//! The distributed lock coordinator's decision logic.
//!
//! The lock primitive itself is an outside collaborator: a driver calls
//! it and reports each attempt's outcome here. The coordinator decides
//! whether to proceed, sleep and retry, or give up, with a fixed attempt
//! bound and a fixed backoff. A transport fault gives up at once; only
//! "lock currently held" is retried.

use vstd::prelude::*;

use crate::errors::StateError;

verus! {

/// How many times an acquire is attempted before giving up.
pub const LOCK_MAX_ATTEMPTS: u32 = 3;

/// The backoff between attempts, in milliseconds.
pub const LOCK_RETRY_MILLIS: u64 = 100;

/// What one acquire attempt against the lock primitive observed.
#[derive(Debug, PartialEq, Eq)]
pub enum AcquireOutcome {
    /// The lock was granted; the driver holds its handle.
    Acquired,
    /// The lock is currently held elsewhere.
    Busy,
    /// A transport-level fault; not retried.
    Faulted,
}

/// What the driver must do next.
#[derive(Debug, PartialEq, Eq)]
pub enum LockStep {
    /// The lock is held: enter the critical section.
    Proceed,
    /// Sleep this many milliseconds, then attempt again.
    RetryAfter(u64),
    /// Stop with this error; the lock is not held.
    GiveUp(StateError),
}

/// Tracks one bounded-retry acquisition of the namespace lock.
pub struct LockCoordinator {
    /// Attempts spent so far.
    pub attempts: u32,
    /// The attempt bound.
    pub max_attempts: u32,
    /// Whether an attempt was granted the lock.
    pub acquired: bool,
}

impl LockCoordinator {
    /// Starts an acquisition with the given attempt bound.
    pub fn new(max_attempts: u32) -> (r: Self)
        requires
            max_attempts > 0,
        ensures
            r.attempts == 0,
            r.max_attempts == max_attempts,
            !r.acquired,
    {
        LockCoordinator { attempts: 0, max_attempts, acquired: false }
    }

    /// Feeds one attempt's outcome in and decides the next step: proceed
    /// exactly on a grant; give up at once on a fault, with the
    /// connection error; retry after the fixed backoff while attempts
    /// remain, else give up with the lock-timeout error.
    pub fn on_outcome(&mut self, outcome: &AcquireOutcome) -> (step: LockStep)
        requires
            !old(self).acquired,
            old(self).attempts < old(self).max_attempts,
        ensures
            final(self).max_attempts == old(self).max_attempts,
            match outcome {
                AcquireOutcome::Acquired => {
                    &&& step == LockStep::Proceed
                    &&& final(self).acquired
                    &&& final(self).attempts == old(self).attempts + 1
                },
                AcquireOutcome::Busy => {
                    &&& !final(self).acquired
                    &&& final(self).attempts == old(self).attempts + 1
                    &&& step == if old(self).attempts + 1 == old(self).max_attempts {
                        LockStep::GiveUp(StateError::LockTimeout)
                    } else {
                        LockStep::RetryAfter(LOCK_RETRY_MILLIS)
                    }
                },
                AcquireOutcome::Faulted => {
                    &&& !final(self).acquired
                    &&& final(self).attempts == old(self).attempts + 1
                    &&& step == LockStep::GiveUp(StateError::Connection)
                },
            },
    {
        self.attempts = self.attempts + 1;
        match outcome {
            AcquireOutcome::Acquired => {
                self.acquired = true;
                LockStep::Proceed
            },
            AcquireOutcome::Busy => {
                if self.attempts == self.max_attempts {
                    LockStep::GiveUp(StateError::LockTimeout)
                } else {
                    LockStep::RetryAfter(LOCK_RETRY_MILLIS)
                }
            },
            AcquireOutcome::Faulted => LockStep::GiveUp(StateError::Connection),
        }
    }
}

} // verus!
