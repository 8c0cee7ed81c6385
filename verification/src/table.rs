//! A small map over keys that can only be compared for equality.

use crate::types::{contains, Key};
use vstd::prelude::*;

verus! {

/// A map that keeps its entries in the order in which their keys first came.
#[derive(Debug)]
pub struct Table<K, V> {
    entries: Vec<(K, V)>,
}

/// Whether some entry of a list is under a key.
pub open spec fn has_key<K, V>(entries: Seq<(K, V)>, key: K) -> bool {
    exists|i: int| 0 <= i < entries.len() && entries[i].0 == key
}

/// The value that stands under a key of a list.
pub open spec fn value_of<K, V>(entries: Seq<(K, V)>, key: K) -> V {
    entries[choose|i: int| 0 <= i < entries.len() && entries[i].0 == key].1
}

impl<K, V> View for Table<K, V> {
    type V = Map<K, V>;

    closed spec fn view(&self) -> Map<K, V> {
        let entries = self.entries@;
        Map::new(|key: K| has_key(entries, key), |key: K| value_of(entries, key))
    }
}

impl<K: Key, V> Table<K, V> {
    /// No key stands in two entries.
    pub closed spec fn wf(&self) -> bool {
        forall|i: int, j: int|
            0 <= i < j < self.entries@.len() ==> self.entries@[i].0 != self.entries@[j].0
    }

    /// An empty map.
    pub fn new() -> (table: Self)
        ensures
            table.wf(),
            table@ == Map::<K, V>::empty(),
    {
        let table: Self = Table { entries: Vec::new() };
        assert(table@ =~= Map::<K, V>::empty());
        table
    }

    proof fn lemma_entry(&self, i: int)
        requires
            self.wf(),
            0 <= i < self.entries@.len(),
        ensures
            self@.contains_key(self.entries@[i].0),
            self@[self.entries@[i].0] == self.entries@[i].1,
    {
        let key = self.entries@[i].0;
        let at = choose|j: int| 0 <= j < self.entries@.len() && self.entries@[j].0 == key;
        assert(at == i);
    }

    /// The value under a key.
    pub fn get(&self, key: &K) -> (value: Option<&V>)
        requires
            self.wf(),
        ensures
            match value {
                Some(value) => self@.contains_key(*key) && self@[*key] == *value,
                None => !self@.contains_key(*key),
            },
    {
        let mut i: usize = 0;
        while i < self.entries.len()
            invariant
                self.wf(),
                i <= self.entries@.len(),
                forall|j: int| 0 <= j < i ==> self.entries@[j].0 != *key,
            decreases self.entries@.len() - i,
        {
            if self.entries[i].0.same(key) {
                proof {
                    self.lemma_entry(i as int);
                }
                return Some(&self.entries[i].1);
            }
            i += 1;
        }
        None
    }

    /// Whether a key has a value.
    pub fn contains_key(&self, key: &K) -> (found: bool)
        requires
            self.wf(),
        ensures
            found == self@.contains_key(*key),
    {
        self.get(key).is_some()
    }

    /// Whether nothing is held.
    pub fn is_empty(&self) -> (empty: bool)
        requires
            self.wf(),
        ensures
            empty == (self@ == Map::<K, V>::empty()),
    {
        proof {
            if self.entries@.len() == 0 {
                assert(self@ =~= Map::<K, V>::empty());
            } else {
                self.lemma_entry(0);
            }
        }
        self.entries.len() == 0
    }

    /// Puts a value under a key, in place of the one that stood there.
    pub fn insert(&mut self, key: K, value: V)
        requires
            old(self).wf(),
        ensures
            final(self).wf(),
            final(self)@ == old(self)@.insert(key, value),
    {
        let ghost before = *self;
        let mut i: usize = 0;
        while i < self.entries.len()
            invariant
                self.wf(),
                *self == before,
                before == *old(self),
                i <= self.entries@.len(),
                forall|j: int| 0 <= j < i ==> self.entries@[j].0 != key,
            decreases self.entries@.len() - i,
        {
            if self.entries[i].0.same(&key) {
                self.entries.set(i, (key, value));
                proof {
                    self.lemma_inserted(before, i as int, key, value);
                }
                return;
            }
            i += 1;
        }
        self.entries.push((key, value));
        proof {
            self.lemma_inserted(before, i as int, key, value);
        }
    }

    proof fn lemma_inserted(&self, before: Self, at: int, key: K, value: V)
        requires
            before.wf(),
            self.wf(),
            0 <= at < self.entries@.len(),
            self.entries@[at] == (key, value),
            before.entries@.len() <= self.entries@.len() <= before.entries@.len() + 1,
            at < before.entries@.len() ==> self.entries@.len() == before.entries@.len()
                && before.entries@[at].0 == key,
            at >= before.entries@.len() ==> at == before.entries@.len(),
            forall|j: int|
                0 <= j < self.entries@.len() && j != at ==> j < before.entries@.len()
                    && self.entries@[j] == before.entries@[j],
        ensures
            self@ == before@.insert(key, value),
    {
        self.lemma_entry(at);
        assert forall|k: K| #[trigger]
            self@.contains_key(k) == before@.insert(key, value).contains_key(k) by {
            if self@.contains_key(k) && k != key {
                let j = choose|j: int| 0 <= j < self.entries@.len() && self.entries@[j].0 == k;
                assert(before.entries@[j].0 == k);
            }
            if before@.contains_key(k) && k != key {
                let j = choose|j: int| 0 <= j < before.entries@.len() && before.entries@[j].0 == k;
                assert(self.entries@[j].0 == k);
            }
        }
        assert forall|k: K| #[trigger] self@.contains_key(k) implies self@[k] == before@.insert(
            key,
            value,
        )[k] by {
            if k != key {
                let j = choose|j: int| 0 <= j < self.entries@.len() && self.entries@[j].0 == k;
                self.lemma_entry(j);
                before.lemma_entry(j);
            }
        }
        assert(self@ =~= before@.insert(key, value));
    }

    /// Forgets every entry.
    pub fn clear(&mut self)
        ensures
            final(self).wf(),
            final(self)@ == Map::<K, V>::empty(),
    {
        *self = Self::new();
    }

    /// Keeps the entries whose keys stand in a list, and forgets the others.
    pub fn retain(&mut self, keep: &Vec<K>)
        requires
            old(self).wf(),
        ensures
            final(self).wf(),
            final(self)@ == old(self)@.restrict(keep@.to_set()),
    {
        let ghost before = *self;
        let mut i: usize = 0;
        while i < self.entries.len()
            invariant
                self.wf(),
                before.wf(),
                i <= self.entries@.len(),
                forall|j: int|
                    0 <= j < self.entries@.len() ==> before.entries@.contains(
                        #[trigger] self.entries@[j],
                    ),
                forall|j: int| 0 <= j < i ==> keep@.contains((#[trigger] self.entries@[j]).0),
                forall|j: int|
                    0 <= j < before.entries@.len() && keep@.contains(
                        (#[trigger] before.entries@[j]).0,
                    ) ==> self.entries@.contains(before.entries@[j]),
            decreases self.entries@.len() - i,
        {
            if contains(keep, &self.entries[i].0) {
                i += 1;
            } else {
                let ghost whole = self.entries@;
                self.entries.remove(i);
                proof {
                    assert(self.entries@ == whole.remove(i as int));
                    assert forall|j: int| 0 <= j < self.entries@.len() implies whole.contains(
                        #[trigger] self.entries@[j],
                    ) by {
                        if j < i {
                            assert(whole[j] == self.entries@[j]);
                        } else {
                            assert(whole[j + 1] == self.entries@[j]);
                        }
                    }
                    assert forall|j: int|
                        0 <= j < before.entries@.len() && keep@.contains(
                            (#[trigger] before.entries@[j]).0,
                        ) implies self.entries@.contains(before.entries@[j]) by {
                        let at = choose|at: int|
                            0 <= at < whole.len() && whole[at] == before.entries@[j];
                        assert(whole.contains(before.entries@[j]));
                        if at < i {
                            assert(self.entries@[at] == whole[at]);
                        } else {
                            assert(at != i);
                            assert(self.entries@[at - 1] == whole[at]);
                        }
                    }
                }
            }
        }
        proof {
            let kept = before@.restrict(keep@.to_set());
            assert forall|k: K| #[trigger] self@.contains_key(k) == kept.contains_key(k) by {
                if self@.contains_key(k) {
                    let j = choose|j: int| 0 <= j < self.entries@.len() && self.entries@[j].0 == k;
                    assert(before.entries@.contains(self.entries@[j]));
                }
                if kept.contains_key(k) {
                    let j = choose|j: int|
                        0 <= j < before.entries@.len() && before.entries@[j].0 == k;
                    assert(self.entries@.contains(before.entries@[j]));
                }
            }
            assert forall|k: K| #[trigger] self@.contains_key(k) implies self@[k] == kept[k] by {
                let j = choose|j: int| 0 <= j < self.entries@.len() && self.entries@[j].0 == k;
                self.lemma_entry(j);
                assert(before.entries@.contains(self.entries@[j]));
                let b = choose|b: int|
                    0 <= b < before.entries@.len() && before.entries@[b] == self.entries@[j];
                before.lemma_entry(b);
            }
            assert(self@ =~= kept);
        }
    }
}

} // verus!
