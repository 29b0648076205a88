//! A small string-to-string mapping kept as an association list.
//!
//! The mapping is used for template inputs, document metadata and cached
//! completions. Keys are compared character by character, so two keys are the
//! same exactly when their texts are equal.

use vstd::prelude::*;

verus! {

/// A finite mapping from strings to strings.
pub struct StringMap {
    entries: Vec<(String, String)>,
}

/// Some position of `entries` holds `key`.
pub open spec fn has_key(entries: Seq<(String, String)>, key: Seq<char>) -> bool {
    exists|i: int| 0 <= i < entries.len() && (#[trigger] entries[i]).0@ == key
}

/// Position `i` is the first one of `entries` that holds `key`.
pub open spec fn is_first(entries: Seq<(String, String)>, key: Seq<char>, i: int) -> bool {
    &&& 0 <= i < entries.len()
    &&& entries[i].0@ == key
    &&& forall|j: int| 0 <= j < i ==> (#[trigger] entries[j]).0@ != key
}

/// The first position of `entries` that holds `key`, where there is one.
pub open spec fn first_position(entries: Seq<(String, String)>, key: Seq<char>) -> int {
    choose|i: int| is_first(entries, key, i)
}

/// The mapping that an association list stands for: each key that occurs is
/// mapped to the value at its first occurrence.
pub open spec fn mapping_of(entries: Seq<(String, String)>) -> Map<Seq<char>, Seq<char>> {
    Map::new(
        |k: Seq<char>| has_key(entries, k),
        |k: Seq<char>| entries[first_position(entries, k)].1@,
    )
}

/// The first position of a key determines what the mapping holds for it.
pub proof fn lemma_mapping_at(entries: Seq<(String, String)>, key: Seq<char>, i: int)
    requires
        is_first(entries, key, i),
    ensures
        mapping_of(entries).contains_key(key),
        mapping_of(entries)[key] == entries[i].1@,
{
    assert(has_key(entries, key));
    let j = first_position(entries, key);
    assert(is_first(entries, key, j));
    assert(j == i) by {
        if j < i {
            assert(entries[j].0@ != key);
        }
        if i < j {
            assert(entries[i].0@ != key);
        }
    }
}

/// A key that occurs has a first position.
pub proof fn lemma_first_exists(entries: Seq<(String, String)>, key: Seq<char>)
    requires
        has_key(entries, key),
    ensures
        is_first(entries, key, first_position(entries, key)),
    decreases entries.len(),
{
    let i = choose|i: int| 0 <= i < entries.len() && (#[trigger] entries[i]).0@ == key;
    lemma_first_below(entries, key, i);
}

/// A key that occurs at position `i` has a first position at or before `i`.
proof fn lemma_first_below(entries: Seq<(String, String)>, key: Seq<char>, i: int)
    requires
        0 <= i < entries.len(),
        entries[i].0@ == key,
    ensures
        exists|f: int| is_first(entries, key, f),
        is_first(entries, key, first_position(entries, key)),
    decreases i,
{
    if forall|j: int| 0 <= j < i ==> (#[trigger] entries[j]).0@ != key {
        assert(is_first(entries, key, i));
    } else {
        let j = choose|j: int| 0 <= j < i && (#[trigger] entries[j]).0@ == key;
        lemma_first_below(entries, key, j);
    }
}

impl View for StringMap {
    type V = Map<Seq<char>, Seq<char>>;

    closed spec fn view(&self) -> Map<Seq<char>, Seq<char>> {
        mapping_of(self.entries@)
    }
}

impl Clone for StringMap {
    /// An independent copy that holds the same mapping.
    fn clone(&self) -> (out: Self)
        ensures
            out@ == self@,
    {
        let mut entries: Vec<(String, String)> = Vec::new();
        let mut i: usize = 0;
        while i < self.entries.len()
            invariant
                i <= self.entries.len(),
                entries@ == self.entries@.take(i as int),
            decreases self.entries.len() - i,
        {
            let key = self.entries[i].0.clone();
            let value = self.entries[i].1.clone();
            entries.push((key, value));
            assert(entries@ =~= self.entries@.take(i + 1));
            i += 1;
        }
        assert(entries@ =~= self.entries@);
        StringMap { entries }
    }
}

impl StringMap {
    /// The empty mapping.
    pub fn new() -> (out: Self)
        ensures
            out@ == Map::<Seq<char>, Seq<char>>::empty(),
    {
        let out = StringMap { entries: Vec::new() };
        assert(out@ =~= Map::<Seq<char>, Seq<char>>::empty());
        out
    }

    /// The first position of `key` in the list, if it is present.
    fn find(&self, key: &String) -> (out: Option<usize>)
        ensures
            match out {
                Some(i) => is_first(self.entries@, key@, i as int),
                None => !has_key(self.entries@, key@),
            },
    {
        let mut i: usize = 0;
        while i < self.entries.len()
            invariant
                i <= self.entries.len(),
                forall|j: int| 0 <= j < i ==> (#[trigger] self.entries@[j]).0@ != key@,
            decreases self.entries.len() - i,
        {
            if self.entries[i].0 == *key {
                return Some(i);
            }
            i += 1;
        }
        None
    }

    /// Whether `key` has a value.
    pub fn contains_key(&self, key: &String) -> (out: bool)
        ensures
            out == self@.contains_key(key@),
    {
        self.find(key).is_some()
    }

    /// The value stored for `key`, if any.
    pub fn get(&self, key: &String) -> (out: Option<&String>)
        ensures
            match out {
                Some(v) => self@.contains_key(key@) && self@[key@] == v@,
                None => !self@.contains_key(key@),
            },
    {
        match self.find(key) {
            Some(i) => {
                proof {
                    lemma_mapping_at(self.entries@, key@, i as int);
                }
                Some(&self.entries[i].1)
            },
            None => None,
        }
    }

    /// Stores `value` for `key`, replacing what was stored for it before.
    pub fn insert(&mut self, key: String, value: String)
        ensures
            final(self)@ == old(self)@.insert(key@, value@),
    {
        let ghost before = self.entries@;
        let ghost key_view = key@;
        let ghost value_view = value@;
        let found = self.find(&key);
        let ghost at: int = match found {
            Some(i) => i as int,
            None => before.len() as int,
        };
        match found {
            Some(i) => {
                self.entries.set(i, (key, value));
            },
            None => {
                self.entries.push((key, value));
            },
        }
        proof {
            let after = self.entries@;
            assert(is_first(after, key_view, at));
            lemma_mapping_at(after, key_view, at);
            assert forall|k: Seq<char>| k != key_view implies (has_key(after, k) <==> has_key(
                before,
                k,
            )) by {
                if has_key(after, k) {
                    let j = choose|j: int| 0 <= j < after.len() && (#[trigger] after[j]).0@ == k;
                    assert(before[j].0@ == k);
                }
                if has_key(before, k) {
                    let j = choose|j: int| 0 <= j < before.len() && (#[trigger] before[j]).0@ == k;
                    assert(after[j].0@ == k);
                }
            }
            assert forall|k: Seq<char>| k != key_view && has_key(before, k) implies mapping_of(
                after,
            )[k] == mapping_of(before)[k] by {
                lemma_first_exists(before, k);
                let f = first_position(before, k);
                assert(after[f] == before[f]);
                assert forall|j: int| 0 <= j < f implies (#[trigger] after[j]).0@ != k by {
                    assert(before[j].0@ != k);
                }
                assert(is_first(after, k, f));
                lemma_mapping_at(after, k, f);
            }
            assert(mapping_of(after) =~= mapping_of(before).insert(key_view, value_view));
        }
    }
}

} // verus!
