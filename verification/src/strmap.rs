//! A map from text keys to values, kept as a list of entries with distinct keys.
use vstd::prelude::*;

use crate::text::same_text;

verus! {

/// The value stored under `key` among `entries`: that of the first entry whose
/// key is `key`.
pub open spec fn entry_lookup<V>(entries: Seq<(String, V)>, key: Seq<char>) -> Option<V>
    decreases entries.len(),
{
    if entries.len() == 0 {
        None
    } else if entries[0].0@ == key {
        Some(entries[0].1)
    } else {
        entry_lookup(entries.skip(1), key)
    }
}

/// Whether no two entries have the same key.
pub open spec fn keys_distinct<V>(entries: Seq<(String, V)>) -> bool {
    forall|i: int, j: int|
        0 <= i < entries.len() && 0 <= j < entries.len() && i != j ==> #[trigger] entries[i].0@
            != #[trigger] entries[j].0@
}

proof fn lemma_lookup_found<V>(entries: Seq<(String, V)>, key: Seq<char>, i: int)
    requires
        0 <= i < entries.len(),
        entries[i].0@ == key,
        forall|j: int| 0 <= j < i ==> entries[j].0@ != key,
    ensures
        entry_lookup(entries, key) == Some(entries[i].1),
    decreases i,
{
    if i > 0 {
        lemma_lookup_found(entries.skip(1), key, i - 1);
    }
}

proof fn lemma_lookup_absent<V>(entries: Seq<(String, V)>, key: Seq<char>)
    requires
        forall|j: int| 0 <= j < entries.len() ==> entries[j].0@ != key,
    ensures
        entry_lookup(entries, key) is None,
    decreases entries.len(),
{
    if entries.len() > 0 {
        lemma_lookup_absent(entries.skip(1), key);
    }
}

/// A map from text keys to values. No key occurs twice.
#[derive(Debug)]
pub struct StrMap<V> {
    entries: Vec<(String, V)>,
}

impl<V> StrMap<V> {
    #[verifier::type_invariant]
    spec fn inv(self) -> bool {
        keys_distinct(self.entries@)
    }

    /// The value stored under `key`, if any.
    pub closed spec fn lookup(self, key: Seq<char>) -> Option<V> {
        entry_lookup(self.entries@, key)
    }

    /// The number of keys.
    pub closed spec fn size(self) -> nat {
        self.entries@.len()
    }

    /// The empty map.
    pub fn new() -> (m: StrMap<V>)
        ensures
            forall|k: Seq<char>| #[trigger] m.lookup(k) is None,
            m.size() == 0,
    {
        StrMap { entries: Vec::new() }
    }

    /// The number of keys.
    pub fn len(&self) -> (n: usize)
        ensures
            n == self.size(),
    {
        self.entries.len()
    }

    fn position(&self, key: &str) -> (r: Option<usize>)
        ensures
            match r {
                Some(i) => i < self.entries@.len() && self.entries@[i as int].0@ == key@
                    && forall|j: int| 0 <= j < i ==> self.entries@[j].0@ != key@,
                None => forall|j: int| 0 <= j < self.entries@.len() ==> self.entries@[j].0@ != key@,
            },
    {
        for i in 0..self.entries.len()
            invariant
                forall|j: int| 0 <= j < i ==> self.entries@[j].0@ != key@,
        {
            if same_text(self.entries[i].0.as_str(), key) {
                return Some(i);
            }
        }
        None
    }

    /// The value stored under `key`, if any.
    pub fn get(&self, key: &str) -> (r: Option<&V>)
        ensures
            match r {
                Some(v) => self.lookup(key@) == Some(*v),
                None => self.lookup(key@) is None,
            },
    {
        match self.position(key) {
            Some(i) => {
                proof {
                    lemma_lookup_found(self.entries@, key@, i as int);
                }
                Some(&self.entries[i].1)
            },
            None => {
                proof {
                    lemma_lookup_absent(self.entries@, key@);
                }
                None
            },
        }
    }

    /// The entries, each key once, in the order they were first stored.
    pub fn into_entries(self) -> (v: Vec<(String, V)>)
        ensures
            keys_distinct(v@),
            forall|k: Seq<char>| #[trigger] entry_lookup(v@, k) == self.lookup(k),
            v@.len() == self.size(),
    {
        proof {
            use_type_invariant(&self);
        }
        self.entries
    }

    /// Stores `value` under `key`, replacing what was stored there.
    pub fn insert(&mut self, key: String, value: V)
        ensures
            final(self).lookup(key@) == Some(value),
            forall|k: Seq<char>| k != key@ ==> #[trigger] final(self).lookup(k) == old(self).lookup(k),
    {
        proof {
            use_type_invariant(&*self);
        }
        let pos = self.position(key.as_str());
        let mut entries: Vec<(String, V)> = Vec::new();
        std::mem::swap(&mut entries, &mut self.entries);
        let ghost old_entries = entries@;
        match pos {
            Some(i) => {
                entries.set(i, (key, value));
                proof {
                    assert forall|k: Seq<char>| k != entries@[i as int].0@ implies entry_lookup(entries@, k) == entry_lookup(old_entries, k) by {
                        lemma_lookup_unchanged(old_entries, entries@, k);
                    }
                    lemma_lookup_found(entries@, entries@[i as int].0@, i as int);
                }
            },
            None => {
                entries.push((key, value));
                proof {
                    lemma_lookup_found(entries@, entries@.last().0@, old_entries.len() as int);
                    assert forall|k: Seq<char>| k != entries@.last().0@ implies entry_lookup(entries@, k) == entry_lookup(old_entries, k) by {
                        lemma_lookup_push(old_entries, entries@.last(), k);
                    }
                }
            },
        }
        self.entries = entries;
    }
}

proof fn lemma_lookup_unchanged<V>(a: Seq<(String, V)>, b: Seq<(String, V)>, k: Seq<char>)
    requires
        a.len() == b.len(),
        forall|j: int| 0 <= j < a.len() ==> #[trigger] a[j].0@ == b[j].0@,
        forall|j: int| 0 <= j < a.len() && a[j].0@ == k ==> #[trigger] a[j].1 == b[j].1,
    ensures
        entry_lookup(a, k) == entry_lookup(b, k),
    decreases a.len(),
{
    if a.len() > 0 {
        lemma_lookup_unchanged(a.skip(1), b.skip(1), k);
    }
}

proof fn lemma_lookup_push<V>(a: Seq<(String, V)>, e: (String, V), k: Seq<char>)
    requires
        e.0@ != k,
    ensures
        entry_lookup(a.push(e), k) == entry_lookup(a, k),
    decreases a.len(),
{
    if a.len() > 0 {
        assert(a.push(e).skip(1) == a.skip(1).push(e));
        assert(a.push(e)[0] == a[0]);
        lemma_lookup_push(a.skip(1), e, k);
    } else {
        assert(a.push(e)[0] == e);
        assert(a.push(e).skip(1) == Seq::<(String, V)>::empty());
        assert(entry_lookup(Seq::<(String, V)>::empty(), k) is None);
    }
}

} // verus!
