//! The response cache: completions remembered by key.
//!
//! Entries never expire. Storing under a key that is present refreshes the
//! entry. How a key is derived is the caller's business.

use vstd::prelude::*;
use crate::strmap::StringMap;

verus! {

/// A mapping from cache keys to completions.
pub struct InMemoryCache {
    entries: StringMap,
}

impl View for InMemoryCache {
    type V = Map<Seq<char>, Seq<char>>;

    closed spec fn view(&self) -> Map<Seq<char>, Seq<char>> {
        self.entries@
    }
}

impl Clone for InMemoryCache {
    fn clone(&self) -> (out: Self)
        ensures
            out@ == self@,
    {
        InMemoryCache { entries: self.entries.clone() }
    }
}

impl InMemoryCache {
    /// An empty cache.
    pub fn new() -> (out: Self)
        ensures
            out@ == Map::<Seq<char>, Seq<char>>::empty(),
    {
        InMemoryCache { entries: StringMap::new() }
    }

    /// The completion stored under `key`, if any.
    pub fn get(&self, key: &String) -> (out: Option<String>)
        ensures
            match out {
                Some(v) => self@.contains_key(key@) && v@ == self@[key@],
                None => !self@.contains_key(key@),
            },
    {
        match self.entries.get(key) {
            Some(v) => Some(v.clone()),
            None => None,
        }
    }

    /// Stores `value` under `key`.
    pub fn set(&mut self, key: String, value: String)
        ensures
            final(self)@ == old(self)@.insert(key@, value@),
    {
        self.entries.insert(key, value);
    }
}

} // verus!
