//! The versioned store writer: turns a write plan into the atomic batch
//! the driver issues against the backing store.
//!
//! All data writes plus the version-counter update form one all-or-nothing
//! batch. The batch keeps the caller's write order and puts the version
//! write last; a write with a time-to-live becomes an expiring put.

use vstd::prelude::*;

use vstd::slice::slice_to_vec;

use crate::num::int_dec;

verus! {

/// One pending data write: a fully-qualified key, the serialized bytes,
/// and an optional time-to-live in seconds.
#[derive(Debug)]
pub struct StoreWrite {
    /// The fully-qualified storage key.
    pub key: String,
    /// The serialized value bytes.
    pub value: Vec<u8>,
    /// Seconds until expiry; `None` persists indefinitely.
    pub ttl: Option<u64>,
}

/// One command of the atomic batch.
#[derive(Debug)]
pub enum StoreCommand {
    /// A plain write.
    Put {
        /// The storage key.
        key: String,
        /// The value bytes.
        value: Vec<u8>,
    },
    /// A write that expires.
    PutExpiring {
        /// The storage key.
        key: String,
        /// Seconds until expiry.
        ttl: u64,
        /// The value bytes.
        value: Vec<u8>,
    },
}

/// Everything one write call will do, staged before anything happens:
/// the data writes, the version write, and whether the namespace lock
/// must be taken first.
#[derive(Debug)]
pub struct WritePlan {
    /// The data writes, in caller order.
    pub writes: Vec<StoreWrite>,
    /// The version counter's storage key.
    pub version_key: String,
    /// The in-process version the plan was staged against.
    pub base_version: u64,
    /// The version the commit will establish.
    pub new_version: u64,
    /// Whether the driver must hold the namespace lock around the commit.
    pub lock_required: bool,
}

/// The command a data write becomes: expiring exactly when it has a
/// time-to-live, key and bytes kept.
pub open spec fn is_command_for(c: StoreCommand, w: StoreWrite) -> bool {
    match w.ttl {
        Some(t) => c matches StoreCommand::PutExpiring { key, ttl, value } && key@ == w.key@ && ttl
            == t && value@ == w.value@,
        None => c matches StoreCommand::Put { key, value } && key@ == w.key@ && value@
            == w.value@,
    }
}

/// The command that writes the version counter: a plain put of its
/// decimal text.
pub open spec fn is_version_command(c: StoreCommand, version_key: Seq<char>, v: u64) -> bool {
    c matches StoreCommand::Put { key, value } && key@ == version_key && value@ == int_dec(v as int)
}

/// Builds the atomic batch: every data write in caller order, each
/// expiring exactly when it carries a time-to-live, and the version write
/// last.
pub fn batch(plan: &WritePlan) -> (r: Vec<StoreCommand>)
    ensures
        r@.len() == plan.writes@.len() + 1,
        forall|i: int|
            0 <= i < plan.writes@.len() ==> is_command_for(#[trigger] r@[i], plan.writes@[i]),
        is_version_command(
            r@[plan.writes@.len() as int],
            plan.version_key@,
            plan.new_version,
        ),
{
    let mut r: Vec<StoreCommand> = Vec::new();
    let mut j: usize = 0;
    while j < plan.writes.len()
        invariant
            0 <= j <= plan.writes@.len(),
            r@.len() == j,
            forall|i: int| 0 <= i < j ==> is_command_for(#[trigger] r@[i], plan.writes@[i]),
        decreases plan.writes@.len() - j,
    {
        let w = &plan.writes[j];
        let key = w.key.clone();
        let value = slice_to_vec(w.value.as_slice());
        match w.ttl {
            Some(t) => {
                r.push(StoreCommand::PutExpiring { key, ttl: t, value });
            },
            None => {
                r.push(StoreCommand::Put { key, value });
            },
        }
        j = j + 1;
    }
    let version_value = crate::num::u64_to_dec(plan.new_version);
    proof {
        assert(version_value@ == int_dec(plan.new_version as int));
    }
    r.push(StoreCommand::Put { key: plan.version_key.clone(), value: version_value });
    r
}

} // verus!
