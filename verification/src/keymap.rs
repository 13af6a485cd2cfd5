//! A map from pool names to values, kept in the order of the names.
//!
//! The entries lie in a vector, sorted strictly by name, so that a walk over
//! the positions visits the pools in lexicographic order and no name occurs
//! twice.

use vstd::prelude::*;
use crate::key::{
    key_before, key_order, lemma_key_before_irreflexive, lemma_key_before_transitive,
    strictly_sorted, KeyOrder,
};

verus! {

/// One pool name with its value.
#[derive(Clone, Debug)]
struct Entry<V> {
    key: String,
    value: V,
}

/// A map from pool names to values of type `V`, in the order of the names.
#[derive(Clone, Debug)]
pub struct KeyMap<V> {
    entries: Vec<Entry<V>>,
}

/// Where a name is, or where it belongs.
#[derive(Clone, Copy, Debug, PartialEq, Eq, Structural)]
pub(crate) enum Slot {
    /// The name is at this position.
    At(usize),
    /// The name is absent; inserted at this position it keeps the order.
    Free(usize),
}

/// Whether `key` stands after the first `i` names of `keys` and before the rest.
pub open spec fn belongs_at(keys: Seq<Seq<char>>, key: Seq<char>, i: int) -> bool {
    &&& 0 <= i <= keys.len()
    &&& forall|j: int| 0 <= j < i ==> key_before(#[trigger] keys[j], key)
    &&& forall|j: int| i <= j < keys.len() ==> key_before(key, #[trigger] keys[j])
}

/// In a sorted sequence a name occurs at one position only.
pub proof fn lemma_sorted_unique(keys: Seq<Seq<char>>, i: int, j: int)
    requires
        strictly_sorted(keys),
        0 <= i < keys.len(),
        0 <= j < keys.len(),
        keys[i] == keys[j],
    ensures
        i == j,
{
    lemma_key_before_irreflexive(keys[i]);
}

/// In a sorted sequence the position of the name at `i` is `i`.
pub proof fn lemma_sorted_index_of(keys: Seq<Seq<char>>, i: int)
    requires
        strictly_sorted(keys),
        0 <= i < keys.len(),
    ensures
        keys.contains(keys[i]),
        keys.index_of(keys[i]) == i,
{
    let j = keys.index_of(keys[i]);
    lemma_sorted_unique(keys, i, j);
}

/// A name that belongs at a position of a sorted sequence is not in it.
pub proof fn lemma_belongs_absent(keys: Seq<Seq<char>>, key: Seq<char>, i: int)
    requires
        belongs_at(keys, key, i),
    ensures
        !keys.contains(key),
{
    if keys.contains(key) {
        let j = keys.index_of(key);
        lemma_key_before_irreflexive(key);
    }
}

/// Inserting a name where it belongs keeps the sequence sorted.
pub proof fn lemma_insert_sorted(keys: Seq<Seq<char>>, key: Seq<char>, i: int)
    requires
        strictly_sorted(keys),
        belongs_at(keys, key, i),
    ensures
        strictly_sorted(keys.insert(i, key)),
{
    let after = keys.insert(i, key);
    assert forall|a: int, b: int| 0 <= a < b < after.len() implies key_before(
        #[trigger] after[a],
        #[trigger] after[b],
    ) by {
        if a != i {
            let a0 = if a < i { a } else { a - 1 };
            assert(after[a] == keys[a0]);
        }
        if b != i {
            let b0 = if b < i { b } else { b - 1 };
            assert(after[b] == keys[b0]);
        }
    }
}

/// Removing a name keeps the sequence sorted.
pub proof fn lemma_remove_sorted(keys: Seq<Seq<char>>, i: int)
    requires
        strictly_sorted(keys),
        0 <= i < keys.len(),
    ensures
        strictly_sorted(keys.remove(i)),
        !keys.remove(i).contains(keys[i]),
{
    let after = keys.remove(i);
    assert forall|a: int, b: int| 0 <= a < b < after.len() implies key_before(
        #[trigger] after[a],
        #[trigger] after[b],
    ) by {
        let a0 = if a < i { a } else { a + 1 };
        let b0 = if b < i { b } else { b + 1 };
        assert(after[a] == keys[a0]);
        assert(after[b] == keys[b0]);
    }
    if after.contains(keys[i]) {
        let j = after.index_of(keys[i]);
        let j0 = if j < i { j } else { j + 1 };
        assert(after[j] == keys[j0]);
        lemma_sorted_unique(keys, i, j0);
    }
}

impl<V> KeyMap<V> {
    /// The names, in their order.
    pub closed spec fn keys(&self) -> Seq<Seq<char>> {
        Seq::new(self.entries@.len(), |i: int| self.entries@[i].key@)
    }

    /// The values, each at the position of its name.
    pub closed spec fn values(&self) -> Seq<V> {
        Seq::new(self.entries@.len(), |i: int| self.entries@[i].value)
    }

    /// The names are strictly increasing, and each has its value.
    pub open spec fn wf(&self) -> bool {
        &&& strictly_sorted(self.keys())
        &&& self.keys().len() == self.values().len()
    }

    /// Whether the map holds `key`.
    pub open spec fn has(&self, key: Seq<char>) -> bool {
        self.keys().contains(key)
    }

    /// The value of `key`, where the map holds it.
    pub open spec fn value_of(&self, key: Seq<char>) -> V {
        self.values()[self.keys().index_of(key)]
    }

    /// The map as a mathematical map.
    pub open spec fn as_map(&self) -> Map<Seq<char>, V> {
        Map::new(|k: Seq<char>| self.has(k), |k: Seq<char>| self.value_of(k))
    }

    /// In a well-formed map the name at a position has the value at that position.
    pub proof fn lemma_value_at(&self, i: int)
        requires
            self.wf(),
            0 <= i < self.keys().len(),
        ensures
            self.has(self.keys()[i]),
            self.value_of(self.keys()[i]) == self.values()[i],
    {
        lemma_sorted_index_of(self.keys(), i);
    }

    /// The empty map.
    pub fn new() -> (m: KeyMap<V>)
        ensures
            m.wf(),
            m.keys() == Seq::<Seq<char>>::empty(),
            m.values() == Seq::<V>::empty(),
    {
        let m = KeyMap { entries: Vec::new() };
        assert(m.keys() =~= Seq::empty());
        assert(m.values() =~= Seq::empty());
        m
    }

    /// The number of names.
    pub fn len(&self) -> (n: usize)
        ensures
            n == self.keys().len(),
            n == self.values().len(),
    {
        self.entries.len()
    }

    /// Whether the map holds no name.
    pub fn is_empty(&self) -> (b: bool)
        ensures
            b == (self.keys().len() == 0),
    {
        self.entries.len() == 0
    }

    /// The name at position `i`.
    pub fn key_at(&self, i: usize) -> (k: Option<&String>)
        ensures
            i < self.keys().len() ==> k is Some && k->0@ == self.keys()[i as int],
            i >= self.keys().len() ==> k is None,
    {
        if i < self.entries.len() {
            Some(&self.entries[i].key)
        } else {
            None
        }
    }

    /// The value at position `i`.
    pub fn value_at(&self, i: usize) -> (v: Option<&V>)
        ensures
            i < self.values().len() ==> v is Some && *v->0 == self.values()[i as int],
            i >= self.values().len() ==> v is None,
    {
        if i < self.entries.len() {
            Some(&self.entries[i].value)
        } else {
            None
        }
    }

    /// The value at position `i`, to change it in place.
    pub(crate) fn value_mut(&mut self, i: usize) -> (v: &mut V)
        requires
            i < old(self).values().len(),
        ensures
            *v == old(self).values()[i as int],
            final(self).keys() == old(self).keys(),
            final(self).values() == old(self).values().update(i as int, *final(v)),
    {
        &mut self.entries[i].value
    }

    /// Finds the position of `key`, or the position at which it belongs.
    pub(crate) fn search(&self, key: &str) -> (slot: Slot)
        requires
            self.wf(),
        ensures
            match slot {
                Slot::At(i) => i < self.keys().len() && self.keys()[i as int] == key@,
                Slot::Free(i) => belongs_at(self.keys(), key@, i as int),
            },
            (slot is At) == self.has(key@),
    {
        let mut low: usize = 0;
        let mut high: usize = self.entries.len();
        let ghost keys = self.keys();
        while low < high
            invariant
                keys == self.keys(),
                strictly_sorted(keys),
                low <= high <= keys.len(),
                keys.len() == self.entries@.len(),
                forall|j: int| 0 <= j < low ==> key_before(#[trigger] keys[j], key@),
                forall|j: int| high <= j < keys.len() ==> key_before(key@, #[trigger] keys[j]),
            decreases high - low,
        {
            let mid = low + (high - low) / 2;
            let probe = &self.entries[mid].key;
            assert(probe@ == keys[mid as int]);
            match key_order(probe.as_str(), key) {
                KeyOrder::Same => {
                    proof {
                        lemma_sorted_index_of(keys, mid as int);
                    }
                    return Slot::At(mid);
                },
                KeyOrder::Before => {
                    proof {
                        assert forall|j: int| 0 <= j < mid + 1 implies key_before(
                            #[trigger] keys[j],
                            key@,
                        ) by {
                            if j < mid {
                                lemma_key_before_transitive(keys[j], keys[mid as int], key@);
                            }
                        }
                    }
                    low = mid + 1;
                },
                KeyOrder::After => {
                    proof {
                        assert forall|j: int| mid <= j < keys.len() implies key_before(
                            key@,
                            #[trigger] keys[j],
                        ) by {
                            if j > mid {
                                lemma_key_before_transitive(key@, keys[mid as int], keys[j]);
                            }
                        }
                    }
                    high = mid;
                },
            }
        }
        proof {
            lemma_belongs_absent(keys, key@, low as int);
        }
        Slot::Free(low)
    }

    /// Whether the map holds `key`.
    pub fn contains_key(&self, key: &str) -> (b: bool)
        requires
            self.wf(),
        ensures
            b == self.as_map().dom().contains(key@),
    {
        match self.search(key) {
            Slot::At(_) => true,
            Slot::Free(_) => false,
        }
    }

    /// The value of `key`, if the map holds it.
    pub fn get(&self, key: &str) -> (v: Option<&V>)
        requires
            self.wf(),
        ensures
            v is Some == self.as_map().dom().contains(key@),
            v is Some ==> *v->0 == self.as_map()[key@],
    {
        match self.search(key) {
            Slot::At(i) => {
                proof {
                    self.lemma_value_at(i as int);
                }
                Some(&self.entries[i].value)
            },
            Slot::Free(_) => None,
        }
    }

    /// Puts a new name with its value at the position at which it belongs.
    pub(crate) fn insert_at(&mut self, i: usize, key: String, value: V)
        requires
            old(self).wf(),
            belongs_at(old(self).keys(), key@, i as int),
        ensures
            final(self).wf(),
            final(self).keys() == old(self).keys().insert(i as int, key@),
            final(self).values() == old(self).values().insert(i as int, value),
            final(self).as_map() == old(self).as_map().insert(key@, value),
    {
        proof {
            lemma_insert_sorted(self.keys(), key@, i as int);
            lemma_belongs_absent(self.keys(), key@, i as int);
        }
        self.entries.insert(i, Entry { key, value });
        proof {
            assert(self.keys() =~= old(self).keys().insert(i as int, key@));
            assert(self.values() =~= old(self).values().insert(i as int, value));
            self.lemma_as_map_insert(old(self), i as int);
        }
    }

    /// Takes out the name at position `i` with its value.
    pub(crate) fn remove_at(&mut self, i: usize) -> (removed: (String, V))
        requires
            old(self).wf(),
            i < old(self).keys().len(),
        ensures
            final(self).wf(),
            removed.0@ == old(self).keys()[i as int],
            removed.1 == old(self).values()[i as int],
            final(self).keys() == old(self).keys().remove(i as int),
            final(self).values() == old(self).values().remove(i as int),
            final(self).as_map() == old(self).as_map().remove(removed.0@),
    {
        proof {
            lemma_remove_sorted(self.keys(), i as int);
        }
        let entry = self.entries.remove(i);
        proof {
            assert(self.keys() =~= old(self).keys().remove(i as int));
            assert(self.values() =~= old(self).values().remove(i as int));
            self.lemma_as_map_remove(old(self), i as int);
        }
        (entry.key, entry.value)
    }

    /// Gives `key` the value `value`, and returns the value that it had.
    pub fn insert(&mut self, key: String, value: V) -> (previous: Option<V>)
        requires
            old(self).wf(),
        ensures
            final(self).wf(),
            final(self).as_map() == old(self).as_map().insert(key@, value),
            previous is Some == old(self).as_map().dom().contains(key@),
            previous is Some ==> previous->0 == old(self).as_map()[key@],
    {
        match self.search(key.as_str()) {
            Slot::At(i) => {
                proof {
                    self.lemma_value_at(i as int);
                }
                let removed = self.remove_at(i);
                proof {
                    let keys = old(self).keys();
                    assert forall|j: int| 0 <= j < self.keys().len() implies (if j < i {
                        key_before(#[trigger] self.keys()[j], key@)
                    } else {
                        key_before(key@, self.keys()[j])
                    }) by {
                        if j < i {
                            assert(self.keys()[j] == keys[j]);
                        } else {
                            assert(self.keys()[j] == keys[j + 1]);
                        }
                    }
                }
                let ghost mid = self.as_map();
                self.insert_at(i, key, value);
                assert(mid.insert(key@, value) =~= old(self).as_map().insert(key@, value));
                Some(removed.1)
            },
            Slot::Free(i) => {
                self.insert_at(i, key, value);
                None
            },
        }
    }

    /// Takes `key` out of the map, and returns the value that it had.
    pub fn remove(&mut self, key: &str) -> (previous: Option<V>)
        requires
            old(self).wf(),
        ensures
            final(self).wf(),
            final(self).as_map() == old(self).as_map().remove(key@),
            previous is Some == old(self).as_map().dom().contains(key@),
            previous is Some ==> previous->0 == old(self).as_map()[key@],
    {
        match self.search(key) {
            Slot::At(i) => {
                proof {
                    self.lemma_value_at(i as int);
                }
                let removed = self.remove_at(i);
                Some(removed.1)
            },
            Slot::Free(_) => {
                assert(self.as_map() =~= self.as_map().remove(key@));
                None
            },
        }
    }

    /// Adds a name that stands after all the names of the map.
    pub(crate) fn push_last(&mut self, key: String, value: V)
        requires
            old(self).wf(),
            belongs_at(old(self).keys(), key@, old(self).keys().len() as int),
        ensures
            final(self).wf(),
            final(self).keys() == old(self).keys().push(key@),
            final(self).values() == old(self).values().push(value),
            final(self).as_map() == old(self).as_map().insert(key@, value),
    {
        let n = self.entries.len();
        self.insert_at(n, key, value);
        assert(self.keys() =~= old(self).keys().push(key@));
        assert(self.values() =~= old(self).values().push(value));
    }

    /// Takes out the last name with its value.
    pub(crate) fn pop_last(&mut self) -> (removed: Option<(String, V)>)
        requires
            old(self).wf(),
        ensures
            final(self).wf(),
            match removed {
                Some((key, value)) => {
                    &&& old(self).keys().len() > 0
                    &&& key@ == old(self).keys().last()
                    &&& value == old(self).values().last()
                    &&& final(self).keys() == old(self).keys().drop_last()
                    &&& final(self).values() == old(self).values().drop_last()
                    &&& final(self).as_map() == old(self).as_map().remove(key@)
                },
                None => old(self).keys().len() == 0,
            },
            removed is None ==> *final(self) == *old(self),
    {
        let n = self.entries.len();
        if n == 0 {
            None
        } else {
            let removed = self.remove_at(n - 1);
            assert(self.keys() =~= old(self).keys().drop_last());
            assert(self.values() =~= old(self).values().drop_last());
            Some(removed)
        }
    }

    proof fn lemma_as_map_insert(&self, before: &KeyMap<V>, i: int)
        requires
            before.wf(),
            self.wf(),
            0 <= i <= before.keys().len(),
            !before.has(self.keys()[i]),
            self.keys() == before.keys().insert(i, self.keys()[i]),
            self.values() == before.values().insert(i, self.values()[i]),
        ensures
            self.as_map() == before.as_map().insert(self.keys()[i], self.values()[i]),
    {
        let key = self.keys()[i];
        let target = before.as_map().insert(key, self.values()[i]);
        assert forall|k: Seq<char>| self.as_map().dom().contains(k) == target.dom().contains(
            k,
        ) by {
            if self.has(k) {
                let j = self.keys().index_of(k);
                if j < i {
                    assert(before.keys()[j] == k);
                } else if j > i {
                    assert(before.keys()[j - 1] == k);
                }
            }
            if before.has(k) {
                let j = before.keys().index_of(k);
                let j1 = if j < i { j } else { j + 1 };
                assert(self.keys()[j1] == k);
            }
            if k == key {
                assert(self.keys()[i] == k);
            }
        }
        assert forall|k: Seq<char>| self.as_map().dom().contains(k) implies self.as_map()[k]
            == target[k] by {
            let j = self.keys().index_of(k);
            lemma_sorted_index_of(self.keys(), j);
            if j < i {
                assert(before.keys()[j] == k);
                lemma_sorted_index_of(before.keys(), j);
            } else if j > i {
                assert(before.keys()[j - 1] == k);
                lemma_sorted_index_of(before.keys(), j - 1);
            }
        }
        assert(self.as_map() =~= target);
    }

    proof fn lemma_as_map_remove(&self, before: &KeyMap<V>, i: int)
        requires
            before.wf(),
            self.wf(),
            0 <= i < before.keys().len(),
            self.keys() == before.keys().remove(i),
            self.values() == before.values().remove(i),
        ensures
            self.as_map() == before.as_map().remove(before.keys()[i]),
    {
        let key = before.keys()[i];
        let target = before.as_map().remove(key);
        lemma_remove_sorted(before.keys(), i);
        assert forall|k: Seq<char>| self.as_map().dom().contains(k) == target.dom().contains(
            k,
        ) by {
            if self.has(k) {
                let j = self.keys().index_of(k);
                let j0 = if j < i { j } else { j + 1 };
                assert(before.keys()[j0] == k);
            }
            if before.has(k) && k != key {
                let j = before.keys().index_of(k);
                let j1 = if j < i { j } else { j - 1 };
                assert(self.keys()[j1] == k);
            }
        }
        assert forall|k: Seq<char>| self.as_map().dom().contains(k) implies self.as_map()[k]
            == target[k] by {
            let j = self.keys().index_of(k);
            lemma_sorted_index_of(self.keys(), j);
            let j0 = if j < i { j } else { j + 1 };
            assert(before.keys()[j0] == k);
            lemma_sorted_index_of(before.keys(), j0);
        }
        assert(self.as_map() =~= target);
    }
}

} // verus!
