//! The state accessor: the public face of the engine.
//!
//! One accessor owns one namespace's in-process state: the version mirror
//! and the write-through cache. The remote store and the distributed lock
//! are outside collaborators, so every operation that touches them is
//! split into verified steps: a *plan* step that stages everything the
//! durable side will be asked to do, and an *apply* step that takes the
//! observed outcome and moves the in-process state — or leaves it exactly
//! as it was, when the outcome was a failure. A driver wires the steps to
//! the real store; every decision in between is verified here.

use vstd::prelude::*;

use vstd::slice::slice_to_vec;

use crate::cache::Cache;
use crate::codec::Val;
use crate::codec::Value;
use crate::codec::decode;
use crate::codec::decode_spec;
use crate::codec::encode;
use crate::codec::encode_spec;
use crate::codec::lemma_round_trip;
use crate::codec::round_trippable;
use crate::errors::StateError;
use crate::keys::fq_key_spec;
use crate::keys::key_pattern_spec;
use crate::keys::key_prefix_spec;
use crate::keys::lock_name_spec;
use crate::keys::strip_prefix_spec;
use crate::keys::version_key_spec;
use crate::lock::LOCK_MAX_ATTEMPTS;
use crate::temp_value::TempValue;
use crate::writer::StoreWrite;
use crate::writer::WritePlan;

verus! {

/// The in-process state of one namespace's accessor.
pub struct AccessorModel {
    /// The component name of the namespace.
    pub component_name: Seq<char>,
    /// The instance id of the namespace.
    pub instance_id: Seq<char>,
    /// How long an acquired lock is held, in milliseconds.
    pub lock_duration: u64,
    /// The in-process mirror of the durable version counter.
    pub version: u64,
    /// The write-through cache: fully-qualified key to serialized bytes.
    pub cache: Map<Seq<char>, Seq<u8>>,
    /// The lock acquisition attempt bound.
    pub max_lock_attempts: u32,
}

/// The accessor for one namespace.
pub struct StateAccessor {
    component_name: String,
    instance_id: String,
    lock_duration: u64,
    version: u64,
    cache: Cache,
    max_lock_attempts: u32,
}

impl View for StateAccessor {
    type V = AccessorModel;

    closed spec fn view(&self) -> AccessorModel {
        AccessorModel {
            component_name: self.component_name@,
            instance_id: self.instance_id@,
            lock_duration: self.lock_duration,
            version: self.version,
            cache: self.cache@,
            max_lock_attempts: self.max_lock_attempts,
        }
    }
}

/// A bulk item's value: plain, or wrapped with a time-to-live.
#[derive(Debug)]
pub enum BulkValue {
    /// Written plainly; the entry persists indefinitely.
    Plain(Value),
    /// Written with an expiration taken from the wrapper.
    Expiring(TempValue),
}

/// The value a bulk item writes.
pub open spec fn bulk_payload(b: BulkValue) -> Value {
    match b {
        BulkValue::Plain(v) => v,
        BulkValue::Expiring(t) => t.value,
    }
}

/// The time-to-live a bulk item writes with.
pub open spec fn bulk_ttl(b: BulkValue) -> Option<u64> {
    match b {
        BulkValue::Plain(_) => None,
        BulkValue::Expiring(t) => Some(t.ttl),
    }
}

/// A plan is staged against this state: the version it read, plus one.
pub open spec fn plan_fits(m: AccessorModel, plan: WritePlan) -> bool {
    plan.base_version == m.version && plan.new_version == m.version + 1
}

/// The cache after applying a plan's writes in order.
pub open spec fn cache_after_writes(
    m: Map<Seq<char>, Seq<u8>>,
    writes: Seq<StoreWrite>,
) -> Map<Seq<char>, Seq<u8>>
    decreases writes.len(),
{
    if writes.len() == 0 {
        m
    } else {
        cache_after_writes(m, writes.drop_last()).insert(
            writes.last().key@,
            writes.last().value@,
        )
    }
}

/// What one store read handed back to a get.
#[derive(Debug)]
pub enum FetchOutcome {
    /// The store holds these bytes for the key.
    Found(Vec<u8>),
    /// The store has no entry for the key.
    Missing,
    /// The store could not be reached.
    Faulted,
}

/// Whether the commit batch landed.
#[derive(Debug, PartialEq, Eq)]
pub enum CommitOutcome {
    /// The whole batch was applied atomically.
    Committed,
    /// The batch failed; nothing durable changed.
    Failed,
}

/// The views of a vector of strings.
pub open spec fn string_views(s: Seq<String>) -> Seq<Seq<char>> {
    Seq::new(s.len(), |i: int| s[i]@)
}

/// The views of a vector of optional fetched bytes.
pub open spec fn fetch_views(s: Seq<Option<Vec<u8>>>) -> Seq<Option<Seq<u8>>> {
    Seq::new(
        s.len(),
        |i: int|
            match s[i] {
                Some(b) => Some(b@),
                None => None,
            },
    )
}

/// The key a listed store key stands for, its namespace prefix stripped.
pub open spec fn stripped_key(m: AccessorModel, listed: Seq<char>) -> Seq<char> {
    strip_prefix_spec(key_prefix_spec(m.component_name, m.instance_id), listed)
}

/// The fully-qualified key an enumeration entry is read back under.
pub open spec fn listed_fq(m: AccessorModel, listed: Seq<char>) -> Seq<char> {
    fq_key_spec(m.component_name, m.instance_id, stripped_key(m, listed))
}

/// The cache after resolving the first `n` listed keys: a key already
/// cached changes nothing; a fetched one is written through; a missing
/// one stops the walk, so it changes nothing either.
pub open spec fn cache_after_items(
    m: AccessorModel,
    listing: Seq<Seq<char>>,
    fetched: Seq<Option<Seq<u8>>>,
    n: int,
) -> Map<Seq<char>, Seq<u8>>
    decreases n,
{
    if n <= 0 {
        m.cache
    } else {
        let c = cache_after_items(m, listing, fetched, n - 1);
        let fq = listed_fq(m, listing[n - 1]);
        if c.contains_key(fq) {
            c
        } else {
            match fetched[n - 1] {
                Some(b) => c.insert(fq, b),
                None => c,
            }
        }
    }
}

/// Whether the first `n` listed keys all resolve, from cache or fetch.
pub open spec fn items_ok(
    m: AccessorModel,
    listing: Seq<Seq<char>>,
    fetched: Seq<Option<Seq<u8>>>,
    n: int,
) -> bool
    decreases n,
{
    if n <= 0 {
        true
    } else {
        items_ok(m, listing, fetched, n - 1) && {
            let c = cache_after_items(m, listing, fetched, n - 1);
            c.contains_key(listed_fq(m, listing[n - 1])) || fetched[n - 1] is Some
        }
    }
}

/// The bytes the `n`-th listed key resolves to (1-based `n`).
pub open spec fn item_bytes(
    m: AccessorModel,
    listing: Seq<Seq<char>>,
    fetched: Seq<Option<Seq<u8>>>,
    n: int,
) -> Seq<u8> {
    let c = cache_after_items(m, listing, fetched, n - 1);
    let fq = listed_fq(m, listing[n - 1]);
    if c.contains_key(fq) {
        c[fq]
    } else {
        fetched[n - 1]->0
    }
}

/// Resolving a longer prefix of the listing resolves every shorter one.
proof fn lemma_items_ok_prefix(
    m: AccessorModel,
    listing: Seq<Seq<char>>,
    fetched: Seq<Option<Seq<u8>>>,
    k: int,
    n: int,
)
    requires
        0 <= k <= n,
        items_ok(m, listing, fetched, n),
    ensures
        items_ok(m, listing, fetched, k),
    decreases n,
{
    if k < n {
        lemma_items_ok_prefix(m, listing, fetched, k, n - 1);
    }
}

impl StateAccessor {
    /// A fresh accessor for the namespace, with an empty cache and the
    /// version the driver read from the store — absent there, zero.
    pub fn new(
        component_name: String,
        instance_id: String,
        lock_duration: u64,
        stored_version: Option<u64>,
    ) -> (r: Self)
        ensures
            r@.component_name == component_name@,
            r@.instance_id == instance_id@,
            r@.lock_duration == lock_duration,
            r@.version == match stored_version {
                Some(v) => v,
                None => 0u64,
            },
            r@.cache == Map::<Seq<char>, Seq<u8>>::empty(),
            r@.max_lock_attempts == LOCK_MAX_ATTEMPTS,
    {
        let version: u64 = match stored_version {
            Some(v) => v,
            None => 0,
        };
        StateAccessor {
            component_name,
            instance_id,
            lock_duration,
            version,
            cache: Cache::new(),
            max_lock_attempts: LOCK_MAX_ATTEMPTS,
        }
    }

    /// The in-process version counter: authoritative only between
    /// explicit resynchronisations.
    pub fn version(&self) -> (r: u64)
        ensures
            r == self@.version,
    {
        self.version
    }

    /// How long an acquired lock is held, in milliseconds.
    pub fn lock_duration(&self) -> (r: u64)
        ensures
            r == self@.lock_duration,
    {
        self.lock_duration
    }

    /// The lock acquisition attempt bound.
    pub fn max_lock_attempts(&self) -> (r: u32)
        ensures
            r == self@.max_lock_attempts,
    {
        self.max_lock_attempts
    }

    /// The fully-qualified storage key for a caller key.
    pub fn fq_key(&self, key: &str) -> (r: String)
        ensures
            r@ == fq_key_spec(self@.component_name, self@.instance_id, key@),
    {
        crate::keys::fq_key(self.component_name.as_str(), self.instance_id.as_str(), key)
    }

    /// The version counter's storage key.
    pub fn version_key(&self) -> (r: String)
        ensures
            r@ == version_key_spec(self@.component_name, self@.instance_id),
    {
        crate::keys::version_key(self.component_name.as_str(), self.instance_id.as_str())
    }

    /// The namespace lock's name.
    pub fn lock_name(&self) -> (r: String)
        ensures
            r@ == lock_name_spec(self@.component_name, self@.instance_id),
    {
        crate::keys::lock_name(self.component_name.as_str(), self.instance_id.as_str())
    }

    /// The enumeration pattern for the namespace's keys.
    pub fn key_pattern(&self) -> (r: String)
        ensures
            r@ == key_pattern_spec(self@.component_name, self@.instance_id),
    {
        crate::keys::key_pattern(self.component_name.as_str(), self.instance_id.as_str())
    }

    /// Stages one write: the encoded value under its fully-qualified key,
    /// the version bump, and the lock the driver must take.
    pub fn set_plan(&self, key: &str, value: &Value, ttl: Option<u64>) -> (plan: WritePlan)
        requires
            self@.version < 0xffff_ffff_ffff_ffff,
        ensures
            plan.writes@.len() == 1,
            plan.writes@[0].key@ == fq_key_spec(self@.component_name, self@.instance_id, key@),
            plan.writes@[0].value@ == encode_spec(value@),
            plan.writes@[0].ttl == ttl,
            plan.version_key@ == version_key_spec(self@.component_name, self@.instance_id),
            plan_fits(self@, plan),
            plan.lock_required,
    {
        let bytes = encode(value);
        let fq = self.fq_key(key);
        let vk = self.version_key();
        let mut writes: Vec<StoreWrite> = Vec::new();
        writes.push(StoreWrite { key: fq, value: bytes, ttl });
        WritePlan {
            writes,
            version_key: vk,
            base_version: self.version,
            new_version: self.version + 1,
            lock_required: true,
        }
    }

    /// Stages a bulk write: every item encoded up front, in caller order,
    /// a wrapped value contributing its time-to-live; one version bump
    /// for the whole call. With `skip_lock` the caller declares it
    /// already holds the namespace lock in an outer operation, and the
    /// plan does not ask for it again.
    pub fn bulk_set_plan(&self, items: &Vec<(String, BulkValue)>, skip_lock: bool) -> (plan:
        WritePlan)
        requires
            self@.version < 0xffff_ffff_ffff_ffff,
        ensures
            plan.writes@.len() == items@.len(),
            forall|i: int|
                0 <= i < items@.len() ==> {
                    &&& (#[trigger] plan.writes@[i]).key@ == fq_key_spec(
                        self@.component_name,
                        self@.instance_id,
                        items@[i].0@,
                    )
                    &&& plan.writes@[i].value@ == encode_spec(bulk_payload(items@[i].1)@)
                    &&& plan.writes@[i].ttl == bulk_ttl(items@[i].1)
                },
            plan.version_key@ == version_key_spec(self@.component_name, self@.instance_id),
            plan_fits(self@, plan),
            plan.lock_required == !skip_lock,
    {
        let mut writes: Vec<StoreWrite> = Vec::new();
        let mut j: usize = 0;
        while j < items.len()
            invariant
                0 <= j <= items@.len(),
                writes@.len() == j,
                forall|i: int|
                    0 <= i < j ==> {
                        &&& (#[trigger] writes@[i]).key@ == fq_key_spec(
                            self@.component_name,
                            self@.instance_id,
                            items@[i].0@,
                        )
                        &&& writes@[i].value@ == encode_spec(bulk_payload(items@[i].1)@)
                        &&& writes@[i].ttl == bulk_ttl(items@[i].1)
                    },
            decreases items@.len() - j,
        {
            let pair = &items[j];
            let fq = self.fq_key(pair.0.as_str());
            match &pair.1 {
                BulkValue::Plain(v) => {
                    let bytes = encode(v);
                    writes.push(StoreWrite { key: fq, value: bytes, ttl: None });
                },
                BulkValue::Expiring(t) => {
                    let bytes = encode(&t.value);
                    writes.push(StoreWrite { key: fq, value: bytes, ttl: Some(t.ttl) });
                },
            }
            j = j + 1;
        }
        let vk = self.version_key();
        WritePlan {
            writes,
            version_key: vk,
            base_version: self.version,
            new_version: self.version + 1,
            lock_required: !skip_lock,
        }
    }

    /// Applies a commit's outcome for a bulk plan. On success the cache
    /// takes every planned write and the version rises by exactly one; on
    /// failure the in-process state is byte-for-byte what it was, and the
    /// commit error is reported.
    pub fn bulk_set(&mut self, plan: &WritePlan, outcome: &CommitOutcome) -> (r: Result<
        (),
        StateError,
    >)
        requires
            plan_fits(old(self)@, *plan),
        ensures
            final(self)@.component_name == old(self)@.component_name,
            final(self)@.instance_id == old(self)@.instance_id,
            final(self)@.lock_duration == old(self)@.lock_duration,
            final(self)@.max_lock_attempts == old(self)@.max_lock_attempts,
            match outcome {
                CommitOutcome::Committed => {
                    &&& r is Ok
                    &&& final(self)@.version == old(self)@.version + 1
                    &&& final(self)@.cache == cache_after_writes(old(self)@.cache, plan.writes@)
                },
                CommitOutcome::Failed => {
                    &&& r == Err::<(), StateError>(StateError::Commit)
                    &&& final(self)@ == old(self)@
                },
            },
    {
        match outcome {
            CommitOutcome::Committed => {
                let mut j: usize = 0;
                while j < plan.writes.len()
                    invariant
                        0 <= j <= plan.writes@.len(),
                        self@.cache == cache_after_writes(
                            old(self)@.cache,
                            plan.writes@.take(j as int),
                        ),
                        self@.version == old(self)@.version,
                        self@.component_name == old(self)@.component_name,
                        self@.instance_id == old(self)@.instance_id,
                        self@.lock_duration == old(self)@.lock_duration,
                        self@.max_lock_attempts == old(self)@.max_lock_attempts,
                    decreases plan.writes@.len() - j,
                {
                    let w = &plan.writes[j];
                    let key = w.key.clone();
                    let bytes = slice_to_vec(w.value.as_slice());
                    self.cache.put(key, bytes);
                    proof {
                        assert(plan.writes@.take(j + 1).drop_last() =~= plan.writes@.take(
                            j as int,
                        ));
                        assert(plan.writes@.take(j + 1).last() == plan.writes@[j as int]);
                    }
                    j = j + 1;
                }
                proof {
                    assert(plan.writes@.take(plan.writes@.len() as int) =~= plan.writes@);
                }
                self.version = self.version + 1;
                Ok(())
            },
            CommitOutcome::Failed => Err(StateError::Commit),
        }
    }

    /// Applies a commit's outcome for a single-key plan; one write, one
    /// version bump, the same rollback guarantee.
    pub fn set(&mut self, plan: &WritePlan, outcome: &CommitOutcome) -> (r: Result<(), StateError>)
        requires
            plan_fits(old(self)@, *plan),
        ensures
            final(self)@.component_name == old(self)@.component_name,
            final(self)@.instance_id == old(self)@.instance_id,
            final(self)@.lock_duration == old(self)@.lock_duration,
            final(self)@.max_lock_attempts == old(self)@.max_lock_attempts,
            match outcome {
                CommitOutcome::Committed => {
                    &&& r is Ok
                    &&& final(self)@.version == old(self)@.version + 1
                    &&& final(self)@.cache == cache_after_writes(old(self)@.cache, plan.writes@)
                },
                CommitOutcome::Failed => {
                    &&& r == Err::<(), StateError>(StateError::Commit)
                    &&& final(self)@ == old(self)@
                },
            },
    {
        self.bulk_set(plan, outcome)
    }

    /// The cached value for a key, decoded; `None` on a cache miss.
    pub fn get_cached(&self, key: &str) -> (r: Option<Value>)
        ensures
            match r {
                Some(v) => {
                    let fq = fq_key_spec(self@.component_name, self@.instance_id, key@);
                    self@.cache.contains_key(fq) && v@ == decode_spec(self@.cache[fq])
                },
                None => !self@.cache.contains_key(
                    fq_key_spec(self@.component_name, self@.instance_id, key@),
                ),
            },
    {
        let fq = self.fq_key(key);
        match self.cache.get(fq.as_str()) {
            Some(bytes) => Some(decode(bytes.as_slice())),
            None => None,
        }
    }

    /// Takes a store read's outcome for a key: found bytes decode and are
    /// written through the cache; an absent key is the distinct missing-key
    /// error; an unreachable store is the connection error. On any error
    /// the state is untouched.
    pub fn get(&mut self, key: &str, fetched: FetchOutcome) -> (r: Result<Value, StateError>)
        ensures
            final(self)@.version == old(self)@.version,
            final(self)@.component_name == old(self)@.component_name,
            final(self)@.instance_id == old(self)@.instance_id,
            final(self)@.lock_duration == old(self)@.lock_duration,
            final(self)@.max_lock_attempts == old(self)@.max_lock_attempts,
            match fetched {
                FetchOutcome::Found(b) => {
                    &&& r matches Ok(v) && v@ == decode_spec(b@)
                    &&& final(self)@.cache == old(self)@.cache.insert(
                        fq_key_spec(old(self)@.component_name, old(self)@.instance_id, key@),
                        b@,
                    )
                },
                FetchOutcome::Missing => r == Err::<Value, StateError>(StateError::KeyNotFound)
                    && final(self)@ == old(self)@,
                FetchOutcome::Faulted => r == Err::<Value, StateError>(StateError::Connection)
                    && final(self)@ == old(self)@,
            },
    {
        match fetched {
            FetchOutcome::Found(b) => {
                let fq = self.fq_key(key);
                let v = decode(b.as_slice());
                self.cache.put(fq, b);
                Ok(v)
            },
            FetchOutcome::Missing => Err(StateError::KeyNotFound),
            FetchOutcome::Faulted => Err(StateError::Connection),
        }
    }

    /// Strips the namespace prefix from every listed store key, in order.
    /// The listing itself comes from the store's pattern enumeration.
    pub fn keys(&self, listing: &Vec<String>) -> (r: Vec<String>)
        ensures
            r@.len() == listing@.len(),
            forall|i: int|
                0 <= i < listing@.len() ==> (#[trigger] r@[i])@ == stripped_key(
                    self@,
                    listing@[i]@,
                ),
    {
        let prefix = crate::keys::key_prefix(
            self.component_name.as_str(),
            self.instance_id.as_str(),
        );
        let mut out: Vec<String> = Vec::new();
        let mut j: usize = 0;
        while j < listing.len()
            invariant
                0 <= j <= listing@.len(),
                out@.len() == j,
                prefix@ == key_prefix_spec(self@.component_name, self@.instance_id),
                forall|i: int|
                    0 <= i < j ==> (#[trigger] out@[i])@ == stripped_key(self@, listing@[i]@),
            decreases listing@.len() - j,
        {
            out.push(crate::keys::strip_prefix(prefix.as_str(), listing[j].as_str()));
            j = j + 1;
        }
        out
    }

    /// Resolves every listed key, in order, each one from the cache or
    /// else from the bytes the driver fetched for it: the pairs of
    /// stripped key and decoded value. A key neither cached nor fetched
    /// is the missing-key error; keys resolved before it stay cached, as
    /// each hit of the walk is written through at once.
    pub fn items(&mut self, listing: &Vec<String>, fetched: &Vec<Option<Vec<u8>>>) -> (r: Result<
        Vec<(String, Value)>,
        StateError,
    >)
        requires
            fetched@.len() == listing@.len(),
        ensures
            final(self)@.version == old(self)@.version,
            final(self)@.component_name == old(self)@.component_name,
            final(self)@.instance_id == old(self)@.instance_id,
            final(self)@.lock_duration == old(self)@.lock_duration,
            final(self)@.max_lock_attempts == old(self)@.max_lock_attempts,
            r is Ok <==> items_ok(
                old(self)@,
                string_views(listing@),
                fetch_views(fetched@),
                listing@.len() as int,
            ),
            r matches Ok(out) ==> {
                let m0 = old(self)@;
                let ls = string_views(listing@);
                let fs = fetch_views(fetched@);
                &&& out@.len() == listing@.len()
                &&& forall|i: int|
                    0 <= i < listing@.len() ==> {
                        &&& (#[trigger] out@[i]).0@ == stripped_key(m0, ls[i])
                        &&& out@[i].1@ == decode_spec(item_bytes(m0, ls, fs, i + 1))
                    }
                &&& final(self)@.cache == cache_after_items(m0, ls, fs, listing@.len() as int)
            },
            r is Err ==> {
                let m0 = old(self)@;
                let ls = string_views(listing@);
                let fs = fetch_views(fetched@);
                &&& r == Err::<Vec<(String, Value)>, StateError>(StateError::KeyNotFound)
                &&& exists|j: int|
                    0 <= j <= listing@.len() && final(self)@.cache == cache_after_items(
                        m0,
                        ls,
                        fs,
                        j,
                    )
            },
    {
        let ghost m0 = self@;
        let ghost ls = string_views(listing@);
        let ghost fs = fetch_views(fetched@);
        let prefix = crate::keys::key_prefix(
            self.component_name.as_str(),
            self.instance_id.as_str(),
        );
        let mut out: Vec<(String, Value)> = Vec::new();
        let mut j: usize = 0;
        while j < listing.len()
            invariant
                0 <= j <= listing@.len(),
                fetched@.len() == listing@.len(),
                m0 == old(self)@,
                ls == string_views(listing@),
                fs == fetch_views(fetched@),
                prefix@ == key_prefix_spec(m0.component_name, m0.instance_id),
                self@.version == m0.version,
                self@.component_name == m0.component_name,
                self@.instance_id == m0.instance_id,
                self@.lock_duration == m0.lock_duration,
                self@.max_lock_attempts == m0.max_lock_attempts,
                self@.cache == cache_after_items(m0, ls, fs, j as int),
                items_ok(m0, ls, fs, j as int),
                out@.len() == j,
                forall|i: int|
                    0 <= i < j ==> {
                        &&& (#[trigger] out@[i]).0@ == stripped_key(m0, ls[i])
                        &&& out@[i].1@ == decode_spec(item_bytes(m0, ls, fs, i + 1))
                    },
            decreases listing@.len() - j,
        {
            let key = crate::keys::strip_prefix(prefix.as_str(), listing[j].as_str());
            let fq = self.fq_key(key.as_str());
            proof {
                assert(ls[j as int] == listing@[j as int]@);
                assert(fq@ == listed_fq(m0, ls[j as int]));
            }
            match self.cache.get(fq.as_str()) {
                Some(bytes) => {
                    let v = decode(bytes.as_slice());
                    out.push((key, v));
                },
                None => {
                    match &fetched[j] {
                        Some(b) => {
                            let bytes = slice_to_vec(b.as_slice());
                            let v = decode(bytes.as_slice());
                            self.cache.put(fq, bytes);
                            out.push((key, v));
                        },
                        None => {
                            proof {
                                assert(fs[j as int] is None);
                                assert(!items_ok(m0, ls, fs, j + 1));
                                if items_ok(m0, ls, fs, listing@.len() as int) {
                                    lemma_items_ok_prefix(
                                        m0,
                                        ls,
                                        fs,
                                        j + 1,
                                        listing@.len() as int,
                                    );
                                }
                            }
                            return Err(StateError::KeyNotFound);
                        },
                    }
                },
            }
            j = j + 1;
        }
        Ok(out)
    }

    /// Resolves every listed key as `items` does and keeps the values, in
    /// listing order.
    pub fn values(&mut self, listing: &Vec<String>, fetched: &Vec<Option<Vec<u8>>>) -> (r: Result<
        Vec<Value>,
        StateError,
    >)
        requires
            fetched@.len() == listing@.len(),
        ensures
            final(self)@.version == old(self)@.version,
            final(self)@.component_name == old(self)@.component_name,
            final(self)@.instance_id == old(self)@.instance_id,
            final(self)@.lock_duration == old(self)@.lock_duration,
            final(self)@.max_lock_attempts == old(self)@.max_lock_attempts,
            r is Ok <==> items_ok(
                old(self)@,
                string_views(listing@),
                fetch_views(fetched@),
                listing@.len() as int,
            ),
            r matches Ok(out) ==> {
                let m0 = old(self)@;
                let ls = string_views(listing@);
                let fs = fetch_views(fetched@);
                &&& out@.len() == listing@.len()
                &&& forall|i: int|
                    0 <= i < listing@.len() ==> (#[trigger] out@[i])@ == decode_spec(
                        item_bytes(m0, ls, fs, i + 1),
                    )
                &&& final(self)@.cache == cache_after_items(m0, ls, fs, listing@.len() as int)
            },
            r is Err ==> r == Err::<Vec<Value>, StateError>(StateError::KeyNotFound),
    {
        match self.items(listing, fetched) {
            Ok(pairs) => {
                let mut pairs = pairs;
                let ghost all = pairs@;
                let mut vs: Vec<Value> = Vec::new();
                while pairs.len() > 0
                    invariant
                        vs@.len() + pairs@.len() == all.len(),
                        pairs@ =~= all.subrange(vs@.len() as int, all.len() as int),
                        forall|i: int| 0 <= i < vs@.len() ==> #[trigger] vs@[i] == all[i].1,
                    decreases pairs@.len(),
                {
                    let p = pairs.remove(0);
                    vs.push(p.1);
                    proof {
                        assert(pairs@ =~= all.subrange(vs@.len() as int, all.len() as int));
                    }
                }
                Ok(vs)
            },
            Err(e) => Err(e),
        }
    }

    /// Drops every cache entry and resynchronises the in-process version
    /// from the durable counter the driver read — absent there, zero. Any
    /// optimistic local bump is discarded.
    pub fn clear_cache(&mut self, stored_version: Option<u64>)
        ensures
            final(self)@.cache == Map::<Seq<char>, Seq<u8>>::empty(),
            final(self)@.version == match stored_version {
                Some(v) => v,
                None => 0u64,
            },
            final(self)@.component_name == old(self)@.component_name,
            final(self)@.instance_id == old(self)@.instance_id,
            final(self)@.lock_duration == old(self)@.lock_duration,
            final(self)@.max_lock_attempts == old(self)@.max_lock_attempts,
    {
        self.cache.clear();
        self.version = match stored_version {
            Some(v) => v,
            None => 0,
        };
    }
}

/// How many of the outcomes are successful commits.
pub open spec fn count_commits(outcomes: Seq<bool>) -> int
    decreases outcomes.len(),
{
    if outcomes.len() == 0 {
        0
    } else {
        (if outcomes[0] {
            1int
        } else {
            0int
        }) + count_commits(outcomes.drop_first())
    }
}

/// The version after a run of write calls: each successful commit adds
/// exactly one; a failed one adds nothing, as the write steps' contracts
/// state.
pub open spec fn version_after_commits(v0: int, outcomes: Seq<bool>) -> int
    decreases outcomes.len(),
{
    if outcomes.len() == 0 {
        v0
    } else {
        version_after_commits(
            if outcomes[0] {
                v0 + 1
            } else {
                v0
            },
            outcomes.drop_first(),
        )
    }
}

/// Version monotonicity: after any run of write calls, the version is the
/// starting version plus exactly the number of successful commits — never
/// more, never less, and never decreasing.
pub proof fn lemma_version_monotonicity(v0: int, outcomes: Seq<bool>)
    ensures
        version_after_commits(v0, outcomes) == v0 + count_commits(outcomes),
        version_after_commits(v0, outcomes) >= v0,
    decreases outcomes.len(),
{
    if outcomes.len() > 0 {
        if outcomes[0] {
            lemma_version_monotonicity(v0 + 1, outcomes.drop_first());
        } else {
            lemma_version_monotonicity(v0, outcomes.drop_first());
        }
        assert(count_commits(outcomes.drop_first()) >= 0) by {
            lemma_count_commits_nonneg(outcomes.drop_first());
        }
    }
}

/// A count of commits is never negative.
proof fn lemma_count_commits_nonneg(outcomes: Seq<bool>)
    ensures
        count_commits(outcomes) >= 0,
    decreases outcomes.len(),
{
    if outcomes.len() > 0 {
        lemma_count_commits_nonneg(outcomes.drop_first());
    }
}

/// Cache coherence: with the cache just cleared, a read of any key cannot
/// be served from memory, and the bytes a write plan stored for a
/// round-trippable value decode back to exactly that value — so the get
/// that follows a `clear_cache` returns what was set, sourced from the
/// store.
pub proof fn lemma_cache_coherence(m: AccessorModel, key: Seq<char>, v: Val)
    requires
        round_trippable(v),
        m.cache == Map::<Seq<char>, Seq<u8>>::empty(),
    ensures
        !m.cache.contains_key(fq_key_spec(m.component_name, m.instance_id, key)),
        decode_spec(encode_spec(v)) == v,
{
    lemma_round_trip(v);
}

} // verus!
