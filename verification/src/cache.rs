//! The local write-through cache.
//!
//! A pure in-memory map from a fully-qualified key to the last known
//! serialized bytes for it. It has no expiration and no size bound of its
//! own; all mutation is serialized by the accessor that owns it.

use vstd::prelude::*;

verus! {

/// The cache: fully-qualified key to serialized bytes.
pub struct Cache {
    entries: vstd::hash_map::StringHashMap<Vec<u8>>,
}

impl View for Cache {
    type V = Map<Seq<char>, Seq<u8>>;

    closed spec fn view(&self) -> Map<Seq<char>, Seq<u8>> {
        self.entries@.map_values(|v: Vec<u8>| v@)
    }
}

impl Cache {
    /// An empty cache.
    pub fn new() -> (r: Self)
        ensures
            r@ == Map::<Seq<char>, Seq<u8>>::empty(),
    {
        let r = Cache { entries: vstd::hash_map::StringHashMap::new() };
        proof {
            assert(r@ =~= Map::<Seq<char>, Seq<u8>>::empty());
        }
        r
    }

    /// The bytes cached for a key, if any.
    pub fn get<'a>(&'a self, key: &str) -> (r: Option<&'a Vec<u8>>)
        ensures
            match r {
                Some(v) => self@.contains_key(key@) && v@ == self@[key@],
                None => !self@.contains_key(key@),
            },
    {
        self.entries.get(key)
    }

    /// Caches bytes for a key, replacing what was there.
    pub fn put(&mut self, key: String, value: Vec<u8>)
        ensures
            final(self)@ == old(self)@.insert(key@, value@),
    {
        let ghost vv = value@;
        self.entries.insert(key, value);
        proof {
            assert(self@ =~= old(self)@.insert(key@, vv));
        }
    }

    /// Drops the entry for a key; no effect when it is absent.
    pub fn remove(&mut self, key: &str)
        ensures
            final(self)@ == old(self)@.remove(key@),
    {
        self.entries.remove(key);
        proof {
            assert(self@ =~= old(self)@.remove(key@));
        }
    }

    /// Drops every entry.
    pub fn clear(&mut self)
        ensures
            final(self)@ == Map::<Seq<char>, Seq<u8>>::empty(),
    {
        self.entries.clear();
        proof {
            assert(self@ =~= Map::<Seq<char>, Seq<u8>>::empty());
        }
    }
}

} // verus!
