//! The windows of all pools, keyed by pool name.

use vstd::prelude::*;
use crate::key::key_before;
use crate::keymap::{belongs_at, lemma_sorted_unique, KeyMap, Slot};
use crate::model::{
    all_windows_fresh, ingest_all, ingest_one, lemma_ingest_all_push, lemma_merged_empty,
    lemma_pruned_fresh, merged, pruned, stats_of, window_of, without_empty, Windows,
};
use crate::report::{views, Report, ReportView};
use crate::stats::{aggregate_of, AllStats};
use crate::window::{fresh, window_start, WindowedStore};

verus! {

/// The window of every known pool.
#[derive(Debug)]
pub struct Pools {
    stores: KeyMap<WindowedStore>,
}

impl View for Pools {
    type V = Windows;

    closed spec fn view(&self) -> Windows {
        Map::new(|k: Seq<char>| self.stores.has(k), |k: Seq<char>| self.stores.value_of(k)@)
    }
}

impl Pools {
    /// The pool names are strictly increasing.
    pub closed spec fn wf(&self) -> bool {
        self.stores.wf()
    }

    /// The names of the known pools, in their order.
    pub closed spec fn names(&self) -> Seq<Seq<char>> {
        self.stores.keys()
    }

    proof fn lemma_view_at(&self, i: int)
        requires
            self.wf(),
            0 <= i < self.stores.keys().len(),
        ensures
            self@.dom().contains(self.stores.keys()[i]),
            self@[self.stores.keys()[i]] == self.stores.values()[i]@,
            window_of(self@, self.stores.keys()[i]) == self.stores.values()[i]@,
    {
        self.stores.lemma_value_at(i);
    }

    proof fn lemma_view_as_map(&self)
        ensures
            forall|k: Seq<char>| #[trigger]
                self@.dom().contains(k) == self.stores.as_map().dom().contains(k),
            forall|k: Seq<char>|
                self.stores.as_map().dom().contains(k) ==> #[trigger] self@[k]
                    == self.stores.as_map()[k]@,
    {
    }

    proof fn lemma_view_of_insert(&self, before: &Pools, key: Seq<char>, store: WindowedStore)
        requires
            self.stores.as_map() == before.stores.as_map().insert(key, store),
        ensures
            self@ == before@.insert(key, store@),
    {
        self.lemma_view_as_map();
        before.lemma_view_as_map();
        let target = before@.insert(key, store@);
        assert forall|k: Seq<char>| self@.dom().contains(k) == target.dom().contains(k) by {
            assert(before@.dom().contains(k) == before.stores.as_map().dom().contains(k));
        }
        assert forall|k: Seq<char>| self@.dom().contains(k) implies self@[k] == target[k] by {
            assert(self.stores.as_map().dom().contains(k));
            if k != key {
                assert(before.stores.as_map().dom().contains(k));
                assert(before@[k] == before.stores.as_map()[k]@);
            }
        }
        assert(self@ =~= target);
    }

    proof fn lemma_view_of_remove(&self, before: &Pools, key: Seq<char>)
        requires
            self.stores.as_map() == before.stores.as_map().remove(key),
        ensures
            self@ == before@.remove(key),
    {
        self.lemma_view_as_map();
        before.lemma_view_as_map();
        let target = before@.remove(key);
        assert forall|k: Seq<char>| self@.dom().contains(k) == target.dom().contains(k) by {
            assert(before@.dom().contains(k) == before.stores.as_map().dom().contains(k));
        }
        assert forall|k: Seq<char>| self@.dom().contains(k) implies self@[k] == target[k] by {
            assert(self.stores.as_map().dom().contains(k));
            assert(before.stores.as_map().dom().contains(k));
            assert(before@[k] == before.stores.as_map()[k]@);
        }
        assert(self@ =~= target);
    }

    proof fn lemma_view_absent(&self, key: Seq<char>)
        requires
            !self.stores.has(key),
        ensures
            !self@.dom().contains(key),
            window_of(self@, key) == Seq::<ReportView>::empty(),
    {
    }

    /// No pool is known yet.
    pub fn new() -> (pools: Pools)
        ensures
            pools.wf(),
            pools@ == Map::<Seq<char>, Seq<ReportView>>::empty(),
    {
        let pools = Pools { stores: KeyMap::new() };
        assert(pools@ =~= Map::empty());
        pools
    }

    /// The number of known pools.
    pub fn len(&self) -> (n: usize)
        requires
            self.wf(),
        ensures
            n == self@.dom().len(),
            n == self.names().len(),
    {
        proof {
            self.lemma_dom_len();
        }
        self.stores.len()
    }

    proof fn lemma_dom_len(&self)
        requires
            self.wf(),
        ensures
            self@.dom().finite(),
            self@.dom().len() == self.stores.keys().len(),
    {
        let keys = self.stores.keys();
        assert(self@.dom() =~= keys.to_set());
        assert(keys.no_duplicates()) by {
            assert forall|i: int, j: int| 0 <= i < keys.len() && 0 <= j < keys.len() && i
                != j implies keys[i] != keys[j] by {
                if keys[i] == keys[j] {
                    lemma_sorted_unique(keys, i, j);
                }
            }
        }
        keys.unique_seq_to_set();
    }

    /// The window of `key`, if the pool is known.
    pub fn window(&self, key: &str) -> (w: Option<&WindowedStore>)
        requires
            self.wf(),
        ensures
            w is Some == self@.dom().contains(key@),
            w is Some ==> w->0@ == self@[key@],
    {
        self.stores.get(key)
    }

    /// Takes in one report: it goes to the tail of its pool's window, which is
    /// created if the pool was unknown.
    pub fn ingest(&mut self, report: Report)
        requires
            old(self).wf(),
        ensures
            final(self).wf(),
            final(self)@ == ingest_one(old(self)@, report@),
    {
        let ghost r = report@;
        match self.stores.search(report.pool.as_str()) {
            Slot::At(i) => {
                proof {
                    self.lemma_view_at(i as int);
                }
                let store = self.stores.value_mut(i);
                store.append(report);
                proof {
                    assert(self.stores.keys() == old(self).stores.keys());
                    self.lemma_view_at(i as int);
                    assert forall|k: Seq<char>| self@.dom().contains(k) && k
                        != r.pool implies self@[k] == old(self)@[k] by {
                        let j = self.stores.keys().index_of(k);
                        self.stores.lemma_value_at(j);
                        old(self).stores.lemma_value_at(j);
                    }
                    assert(self@ =~= ingest_one(old(self)@, r));
                }
            },
            Slot::Free(i) => {
                proof {
                    self.lemma_view_absent(r.pool);
                }
                let key = report.pool.clone();
                let mut store = WindowedStore::new();
                store.append(report);
                self.stores.insert_at(i, key, store);
                proof {
                    self.lemma_view_of_insert(old(self), r.pool, store);
                }
            },
        }
    }

    /// Takes in a batch of reports, one after the other.
    pub fn ingest_all(&mut self, reports: Vec<Report>)
        requires
            old(self).wf(),
        ensures
            final(self).wf(),
            final(self)@ == ingest_all(old(self)@, views(reports@)),
    {
        let ghost batch = views(reports@);
        let ghost start = self@;
        for report in it: reports
            invariant
                self.wf(),
                it.seq() == reports@,
                batch == views(reports@),
                self@ == ingest_all(start, batch.take(it.index() as int)),
        {
            proof {
                let n = it.index() as int;
                assert(batch.take(n + 1) =~= batch.take(n).push(report@));
                lemma_ingest_all_push(start, batch.take(n), report@);
            }
            self.ingest(report);
        }
        proof {
            assert(batch.take(batch.len() as int) =~= batch);
        }
    }

    /// Adds a whole window to the tail of a pool's window.
    fn absorb(&mut self, key: String, store: WindowedStore)
        requires
            old(self).wf(),
        ensures
            final(self).wf(),
            final(self)@ == old(self)@.insert(key@, window_of(old(self)@, key@) + store@),
    {
        let ghost target = self@.insert(key@, window_of(self@, key@) + store@);
        match self.stores.search(key.as_str()) {
            Slot::At(i) => {
                proof {
                    self.lemma_view_at(i as int);
                }
                let slot = self.stores.value_mut(i);
                slot.extend(store);
                proof {
                    self.lemma_view_at(i as int);
                    assert forall|k: Seq<char>| self@.dom().contains(k) && k
                        != key@ implies self@[k] == old(self)@[k] by {
                        let j = self.stores.keys().index_of(k);
                        self.stores.lemma_value_at(j);
                        old(self).stores.lemma_value_at(j);
                    }
                    assert(self@ =~= target);
                }
            },
            Slot::Free(i) => {
                proof {
                    self.lemma_view_absent(key@);
                    assert(Seq::<ReportView>::empty() + store@ =~= store@);
                }
                let ghost k0 = key@;
                self.stores.insert_at(i, key, store);
                proof {
                    self.lemma_view_of_insert(old(self), k0, store);
                }
            },
        }
    }

    /// Merges the windows of `other` in: each goes to the tail of the window
    /// of the same pool, and pools that only `other` knows become known.
    pub fn merge(&mut self, other: Pools)
        requires
            old(self).wf(),
            other.wf(),
        ensures
            final(self).wf(),
            final(self)@ == merged(old(self)@, other@),
    {
        let mut rest = other;
        while rest.stores.len() > 0
            invariant
                self.wf(),
                rest.wf(),
                merged(self@, rest@) == merged(old(self)@, other@),
            decreases rest.stores.keys().len(),
        {
            let ghost mine = self@;
            let ghost theirs = rest@;
            let ghost before = rest;
            let popped = rest.stores.pop_last();
            let (key, store) = popped.unwrap();
            proof {
                before.lemma_view_at(before.stores.keys().len() - 1);
                rest.lemma_view_of_remove(&before, key@);
            }
            self.absorb(key, store);
            proof {
                let k0 = key@;
                assert(theirs[k0] == store@);
                assert forall|k: Seq<char>| merged(mine, theirs).dom().contains(k) implies merged(
                    self@,
                    rest@,
                )[k] == merged(mine, theirs)[k] by {
                    if k == k0 {
                        assert((window_of(mine, k) + store@) + Seq::<ReportView>::empty() =~= window_of(
                            mine,
                            k,
                        ) + store@);
                    }
                }
                assert(merged(self@, rest@) =~= merged(mine, theirs));
            }
        }
        proof {
            assert(rest@ =~= Map::empty());
            lemma_merged_empty(self@);
        }
    }

    /// Evicts from every window the reports older than the window of
    /// `expiration_secs` seconds that ends at `now`. Every pool stays known.
    pub fn prune(&mut self, now: u64, expiration_secs: u64)
        requires
            old(self).wf(),
        ensures
            final(self).wf(),
            final(self).names() == old(self).names(),
            final(self)@ == pruned(old(self)@, window_start(now, expiration_secs)),
            all_windows_fresh(final(self)@, window_start(now, expiration_secs)),
    {
        let ghost threshold = window_start(now, expiration_secs);
        let n = self.stores.len();
        let mut i: usize = 0;
        while i < n
            invariant
                i <= n,
                n == self.stores.keys().len(),
                n == self.stores.values().len(),
                threshold == window_start(now, expiration_secs),
                self.stores.keys() == old(self).stores.keys(),
                old(self).wf(),
                forall|j: int| 0 <= j < i ==> (#[trigger] self.stores.values()[j])@ == fresh(
                    old(self).stores.values()[j]@,
                    threshold,
                ),
                forall|j: int| i <= j < n ==> #[trigger] self.stores.values()[j] == old(
                    self,
                ).stores.values()[j],
            decreases n - i,
        {
            let ghost prev = self.stores.values();
            let store = self.stores.value_mut(i);
            store.prune(now, expiration_secs);
            proof {
                assert(self.stores.values()[i as int]@ == fresh(prev[i as int]@, threshold));
                assert forall|j: int| 0 <= j < n && j != i implies #[trigger] self.stores.values()[j]
                    == prev[j] by {}
            }
            i = i + 1;
        }
        proof {
            let target = pruned(old(self)@, threshold);
            assert forall|k: Seq<char>| self@.dom().contains(k) implies self@[k] == target[k] by {
                let j = self.stores.keys().index_of(k);
                self.lemma_view_at(j);
                old(self).lemma_view_at(j);
            }
            assert(self@ =~= target);
            lemma_pruned_fresh(old(self)@, threshold);
        }
    }

    /// The aggregate of every known pool, in the order of the pool names.
    pub fn aggregate(&self) -> (stats: AllStats)
        requires
            self.wf(),
        ensures
            stats.wf(),
            stats.pools.keys() == self.names(),
            stats@ == stats_of(self@),
    {
        let mut stats = AllStats { pools: KeyMap::new() };
        let n = self.stores.len();
        let ghost keys = self.stores.keys();
        let mut i: usize = 0;
        proof {
            assert(keys.take(0) =~= Seq::empty());
        }
        while i < n
            invariant
                i <= n,
                self.wf(),
                keys == self.stores.keys(),
                n == keys.len(),
                n == self.stores.values().len(),
                stats.pools.wf(),
                stats.pools.keys() == keys.take(i as int),
                forall|j: int| 0 <= j < i ==> (#[trigger] stats.pools.values()[j])@ == aggregate_of(
                    self.stores.values()[j]@,
                ),
            decreases n - i,
        {
            let key = self.stores.key_at(i).unwrap().clone();
            let pool = self.stores.value_at(i).unwrap().aggregate();
            proof {
                assert(belongs_at(stats.pools.keys(), key@, i as int)) by {
                    assert forall|j: int| 0 <= j < i implies key_before(
                        #[trigger] stats.pools.keys()[j],
                        key@,
                    ) by {
                        assert(stats.pools.keys()[j] == keys[j]);
                    }
                }
                assert(keys.take(i + 1) =~= keys.take(i as int).push(keys[i as int]));
            }
            stats.pools.push_last(key, pool);
            i = i + 1;
        }
        proof {
            assert(keys.take(n as int) =~= keys);
            let target = stats_of(self@);
            assert forall|k: Seq<char>| stats@.dom().contains(k) implies stats@[k] == target[k] by {
                let j = keys.index_of(k);
                self.lemma_view_at(j);
                stats.pools.lemma_value_at(j);
            }
            assert(stats@ =~= target);
        }
        stats
    }

    /// One compute pass: prunes every window, then aggregates what stays.
    pub fn compute(&mut self, now: u64, expiration_secs: u64) -> (stats: AllStats)
        requires
            old(self).wf(),
        ensures
            final(self).wf(),
            final(self).names() == old(self).names(),
            final(self)@ == pruned(old(self)@, window_start(now, expiration_secs)),
            all_windows_fresh(final(self)@, window_start(now, expiration_secs)),
            stats.wf(),
            stats.pools.keys() == final(self).names(),
            stats@ == stats_of(final(self)@),
    {
        self.prune(now, expiration_secs);
        self.aggregate()
    }

    /// Forgets the pools whose window is empty.
    pub fn drop_empty(&mut self)
        requires
            old(self).wf(),
        ensures
            final(self).wf(),
            final(self)@ == without_empty(old(self)@),
    {
        let mut i: usize = self.stores.len();
        while i > 0
            invariant
                self.wf(),
                old(self).wf(),
                i <= self.stores.keys().len(),
                self.stores.keys().len() == self.stores.values().len(),
                forall|k: Seq<char>| #[trigger]
                    self@.dom().contains(k) ==> old(self)@.dom().contains(k) && self@[k] == old(
                        self,
                    )@[k],
                forall|k: Seq<char>| #[trigger]
                    old(self)@.dom().contains(k) && old(self)@[k].len() > 0 ==> self@.dom().contains(
                        k,
                    ),
                forall|j: int|
                    i <= j < self.stores.keys().len() ==> (#[trigger] self.stores.values()[j])@.len()
                        > 0,
            decreases i,
        {
            i = i - 1;
            let empty = self.stores.value_at(i).unwrap().is_empty();
            if empty {
                let ghost before = *self;
                proof {
                    self.lemma_view_at(i as int);
                }
                let removed = self.stores.remove_at(i);
                proof {
                    self.lemma_view_of_remove(&before, removed.0@);
                    assert forall|k: Seq<char>| self@.dom().contains(k) implies old(
                        self,
                    )@.dom().contains(k) && self@[k] == old(self)@[k] by {
                        assert(before@.dom().contains(k));
                        assert(self@[k] == before@[k]);
                    }
                    assert forall|k: Seq<char>| old(self)@.dom().contains(k) && old(self)@[k].len()
                        > 0 implies self@.dom().contains(k) by {
                        assert(before@.dom().contains(k));
                        assert(before@[k] == old(self)@[k]);
                    }
                    assert forall|j: int| i <= j < self.stores.keys().len() implies (
                    #[trigger] self.stores.values()[j])@.len() > 0 by {
                        assert(self.stores.values()[j] == before.stores.values()[j + 1]);
                    }
                }
            }
        }
        proof {
            let target = without_empty(old(self)@);
            assert forall|k: Seq<char>| self@.dom().contains(k) implies self@[k].len() > 0 by {
                let j = self.stores.keys().index_of(k);
                self.lemma_view_at(j);
            }
            assert(self@ =~= target);
        }
    }
}

/// Groups a batch of reports by pool, each pool's in arrival order.
pub fn group(reports: Vec<Report>) -> (groups: Pools)
    ensures
        groups.wf(),
        groups@ == ingest_all(Map::empty(), views(reports@)),
{
    let mut groups = Pools::new();
    groups.ingest_all(reports);
    groups
}

} // verus!
