//! A small map from text to text that keeps the order in which keys came.

use crate::text::text_eq;
use vstd::prelude::*;

verus! {

/// The entries of a text map, in order.
pub type Entries = Seq<(Seq<char>, Seq<char>)>;

/// What the entries of a `StringMap` denote.
pub open spec fn entries_view(entries: Seq<(String, String)>) -> Entries {
    entries.map_values(|e: (String, String)| (e.0@, e.1@))
}

/// The index of the entry for `key`, if there is one.
pub open spec fn entry_index(entries: Entries, key: Seq<char>) -> Option<int>
    decreases entries.len(),
{
    if entries.len() == 0 {
        None
    } else if entries[0].0 == key {
        Some(0)
    } else {
        match entry_index(entries.drop_first(), key) {
            Some(i) => Some(i + 1),
            None => None,
        }
    }
}

/// The value that the entries hold for `key`.
pub open spec fn value_of(entries: Entries, key: Seq<char>) -> Option<Seq<char>> {
    match entry_index(entries, key) {
        Some(i) => Some(entries[i].1),
        None => None,
    }
}

/// Whether there is an entry for `key`.
pub open spec fn has_key(entries: Entries, key: Seq<char>) -> bool {
    entry_index(entries, key) is Some
}

/// The entries with `key` set to `value`: in place where the key is there, else at the end.
pub open spec fn with_entry(entries: Entries, key: Seq<char>, value: Seq<char>) -> Entries {
    match entry_index(entries, key) {
        Some(i) => entries.update(i, (key, value)),
        None => entries.push((key, value)),
    }
}

/// Whether no key occurs twice.
pub open spec fn distinct_keys(entries: Entries) -> bool {
    forall|i: int, j: int|
        0 <= i < j < entries.len() ==> (#[trigger] entries[i]).0 != (#[trigger] entries[j]).0
}

/// The index of an entry is that of the first with its key.
pub proof fn lemma_entry_index(entries: Entries, key: Seq<char>)
    ensures
        match entry_index(entries, key) {
            Some(i) => 0 <= i < entries.len() && entries[i].0 == key && forall|j: int|
                0 <= j < i ==> (#[trigger] entries[j]).0 != key,
            None => forall|j: int| 0 <= j < entries.len() ==> (#[trigger] entries[j]).0 != key,
        },
    decreases entries.len(),
{
    if entries.len() > 0 && entries[0].0 != key {
        let rest = entries.drop_first();
        lemma_entry_index(rest, key);
        assert forall|j: int|
            0 < j < entries.len() && (entry_index(rest, key) is Some ==> j - 1 < entry_index(
                rest,
                key,
            )->0) implies (#[trigger] entries[j]).0 != key by {
            assert(rest[j - 1] == entries[j]);
        }
    }
}

/// The index of an entry, given that it is the first with its key.
pub proof fn lemma_entry_index_is(entries: Entries, key: Seq<char>, i: int)
    requires
        0 <= i < entries.len(),
        entries[i].0 == key,
        forall|j: int| 0 <= j < i ==> (#[trigger] entries[j]).0 != key,
    ensures
        entry_index(entries, key) == Some(i),
{
    lemma_entry_index(entries, key);
    assert(entries[i].0 == key);
}

/// Setting a key reads back, and leaves every other key as it was.
pub proof fn entry_reads_back(entries: Entries, key: Seq<char>, value: Seq<char>, other: Seq<char>)
    ensures
        value_of(with_entry(entries, key, value), key) == Some(value),
        other != key ==> value_of(with_entry(entries, key, value), other) == value_of(
            entries,
            other,
        ),
{
    let after = with_entry(entries, key, value);
    lemma_entry_index(entries, key);
    lemma_entry_index(after, key);
    let at = match entry_index(entries, key) {
        Some(i) => i,
        None => entries.len() as int,
    };
    assert(after[at] == (key, value));
    assert forall|j: int| 0 <= j < at implies (#[trigger] after[j]).0 != key by {
        assert(after[j] == entries[j]);
    }
    lemma_entry_index_is(after, key, at);
    if other != key {
        lemma_entry_index(entries, other);
        lemma_entry_index(after, other);
        match entry_index(entries, other) {
            Some(k) => {
                assert(after[k] == entries[k]);
                assert forall|j: int| 0 <= j < k implies (#[trigger] after[j]).0 != other by {
                    assert(after[j].0 == entries[j].0);
                }
                lemma_entry_index_is(after, other, k);
            },
            None => {
                assert forall|j: int| 0 <= j < after.len() implies (#[trigger] after[j]).0
                    != other by {
                    if j < entries.len() {
                        assert(after[j].0 == entries[j].0);
                    }
                }
            },
        }
    }
}

/// A map from text to text; no key occurs twice.
#[derive(Debug)]
pub struct StringMap {
    entries: Vec<(String, String)>,
}

impl View for StringMap {
    type V = Entries;

    closed spec fn view(&self) -> Entries {
        entries_view(self.entries@)
    }
}

impl StringMap {
    #[verifier::type_invariant]
    closed spec fn wf(self) -> bool {
        distinct_keys(entries_view(self.entries@))
    }

    /// An empty map.
    pub fn new() -> (m: StringMap)
        ensures
            m@ == (Seq::<(Seq<char>, Seq<char>)>::empty()),
    {
        let m = StringMap { entries: Vec::new() };
        assert(m@ =~= Seq::empty());
        m
    }

    /// The number of entries.
    pub fn len(&self) -> (n: usize)
        ensures
            n == self@.len(),
    {
        self.entries.len()
    }

    /// Whether there is no entry.
    pub fn is_empty(&self) -> (b: bool)
        ensures
            b == (self@.len() == 0),
    {
        self.entries.len() == 0
    }

    /// The index of the entry for a key.
    fn index_of(&self, key: &str) -> (r: Option<usize>)
        ensures
            match r {
                Some(i) => entry_index(self@, key@) == Some(i as int) && i < self@.len(),
                None => entry_index(self@, key@) is None,
            },
    {
        proof {
            lemma_entry_index(self@, key@);
        }
        let mut i: usize = 0;
        while i < self.entries.len()
            invariant
                i <= self.entries.len(),
                self@ == entries_view(self.entries@),
                forall|j: int| 0 <= j < i ==> (#[trigger] self@[j]).0 != key@,
                match entry_index(self@, key@) {
                    Some(k) => 0 <= k < self@.len() && self@[k].0 == key@,
                    None => forall|j: int|
                        0 <= j < self@.len() ==> (#[trigger] self@[j]).0 != key@,
                },
            decreases self.entries.len() - i,
        {
            assert(self@[i as int].0 == self.entries@[i as int].0@);
            if text_eq(self.entries[i].0.as_str(), key) {
                proof {
                    lemma_entry_index_is(self@, key@, i as int);
                }
                return Some(i);
            }
            i += 1;
        }
        None
    }

    /// The value for a key.
    pub fn get(&self, key: &str) -> (r: Option<&String>)
        ensures
            match r {
                Some(v) => value_of(self@, key@) == Some(v@),
                None => value_of(self@, key@) is None,
            },
    {
        match self.index_of(key) {
            Some(i) => Some(&self.entries[i].1),
            None => None,
        }
    }

    /// Whether there is an entry for a key.
    pub fn contains_key(&self, key: &str) -> (b: bool)
        ensures
            b == has_key(self@, key@),
    {
        self.index_of(key).is_some()
    }

    /// Sets the value for a key.
    pub fn insert(&mut self, key: String, value: String)
        ensures
            final(self)@ == with_entry(old(self)@, key@, value@),
    {
        proof {
            use_type_invariant(&*self);
            lemma_entry_index(self@, key@);
        }
        let ghost before = self@;
        let mut entries: Vec<(String, String)> = Vec::new();
        let found = self.index_of(key.as_str());
        std::mem::swap(&mut entries, &mut self.entries);
        match found {
            Some(i) => {
                entries[i] = (key, value);
            },
            None => {
                entries.push((key, value));
            },
        }
        assert(entries_view(entries@) =~= with_entry(before, key@, value@));
        assert(distinct_keys(entries_view(entries@)));
        *self = StringMap { entries };
    }

    /// The entry at an index, in order.
    pub fn entry(&self, i: usize) -> (e: (&String, &String))
        requires
            i < self@.len(),
        ensures
            (e.0@, e.1@) == self@[i as int],
    {
        let e = &self.entries[i];
        (&e.0, &e.1)
    }
}

impl Clone for StringMap {
    fn clone(&self) -> (r: StringMap)
        ensures
            r@ == self@,
    {
        proof {
            use_type_invariant(self);
        }
        let mut entries: Vec<(String, String)> = Vec::new();
        let mut i: usize = 0;
        while i < self.entries.len()
            invariant
                i <= self.entries.len(),
                entries_view(entries@) == entries_view(self.entries@).take(i as int),
            decreases self.entries.len() - i,
        {
            let e = &self.entries[i];
            let ghost before = entries_view(entries@);
            entries.push((e.0.clone(), e.1.clone()));
            assert(entries_view(entries@) =~= before.push((e.0@, e.1@)));
            i += 1;
            assert(entries_view(entries@) =~= entries_view(self.entries@).take(i as int));
        }
        assert(entries_view(entries@) =~= entries_view(self.entries@));
        StringMap { entries }
    }
}

} // verus!
