//! A value wrapped with a time-to-live.
//!
//! A bulk write that carries one of these writes the inner value with an
//! expiration instead of a plain write.

use vstd::prelude::*;

use crate::codec::Value;

verus! {

/// A value paired with a time-to-live in seconds.
#[derive(Debug)]
pub struct TempValue {
    /// The wrapped value.
    pub value: Value,
    /// Seconds until the store entry expires.
    pub ttl: u64,
}

impl TempValue {
    /// Wraps a value with a time-to-live.
    pub fn new(value: Value, ttl: u64) -> (r: Self)
        ensures
            r.value == value,
            r.ttl == ttl,
    {
        TempValue { value, ttl }
    }

    /// The wrapped value.
    pub fn value(&self) -> (r: &Value)
        ensures
            *r == self.value,
    {
        &self.value
    }

    /// The time-to-live in seconds.
    pub fn ttl(&self) -> (r: u64)
        ensures
            r == self.ttl,
    {
        self.ttl
    }

    /// Replaces the time-to-live.
    pub fn set_ttl(&mut self, new_ttl: u64)
        ensures
            final(self).ttl == new_ttl,
            final(self).value == old(self).value,
    {
        self.ttl = new_ttl;
    }
}

} // verus!
