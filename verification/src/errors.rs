//! The error taxonomy of the state engine.

use vstd::prelude::*;

verus! {

/// Why a state operation failed.
///
/// Every failure surfaces to the caller; none is swallowed.
#[derive(Debug, Clone, PartialEq, Eq)]
pub enum StateError {
    /// The backing store could not be reached. Fatal to the call; this
    /// layer does not retry it.
    Connection,
    /// The namespace lock was not obtained after the bounded retries.
    LockTimeout,
    /// A read asked for a key the store does not hold. Expected and
    /// recoverable by the caller.
    KeyNotFound,
    /// The atomic batch write failed. The local cache and version mirror
    /// are rolled back before this is reported.
    Commit,
    /// A value was not representable and the fallback codec also failed.
    /// No partial write is attempted.
    Encoding,
}

impl StateError {
    /// A short human-readable name for the failure.
    pub fn message(&self) -> (r: &'static str)
        ensures
            r@ == self.message_spec(),
    {
        match self {
            StateError::Connection => "connection error",
            StateError::LockTimeout => "lock timeout",
            StateError::KeyNotFound => "key not found",
            StateError::Commit => "commit error",
            StateError::Encoding => "encoding error",
        }
    }

    /// The text `message` returns for each variant.
    pub open spec fn message_spec(&self) -> Seq<char> {
        match self {
            StateError::Connection => "connection error"@,
            StateError::LockTimeout => "lock timeout"@,
            StateError::KeyNotFound => "key not found"@,
            StateError::Commit => "commit error"@,
            StateError::Encoding => "encoding error"@,
        }
    }
}

} // verus!
