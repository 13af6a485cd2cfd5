//! The aggregate of one pool's window.

use vstd::prelude::*;
use crate::keymap::KeyMap;
use crate::report::ReportView;

verus! {

/// The aggregate of one pool at one compute pass.
///
/// `workers` counts the distinct workers in the window. The two averages are
/// left to the caller, who divides the sum of the readings by their number
/// (and takes zero where there is none): the readings that enter each average
/// are listed here in arrival order, as bit patterns.
#[derive(Clone, Debug, PartialEq, Eq)]
pub struct PoolStats {
    /// Number of distinct workers in the window.
    pub workers: usize,
    /// Hashrate readings in the window.
    pub hashrate_bits: Vec<u64>,
    /// Temperature readings in the window.
    pub temperature_bits: Vec<u64>,
}

/// What a [`PoolStats`] holds, as mathematical values.
pub struct PoolStatsView {
    pub workers: nat,
    pub hashrate_bits: Seq<u64>,
    pub temperature_bits: Seq<u64>,
}

impl View for PoolStats {
    type V = PoolStatsView;

    open spec fn view(&self) -> PoolStatsView {
        PoolStatsView {
            workers: self.workers as nat,
            hashrate_bits: self.hashrate_bits@,
            temperature_bits: self.temperature_bits@,
        }
    }
}

impl Default for PoolStats {
    /// The aggregate of a pool that retains nothing.
    fn default() -> (stats: PoolStats)
        ensures
            stats@ == empty_stats(),
    {
        PoolStats { workers: 0, hashrate_bits: Vec::new(), temperature_bits: Vec::new() }
    }
}

/// The aggregates of all pools at one compute pass, in the order of the pool
/// names.
#[derive(Clone, Debug)]
pub struct AllStats {
    /// The aggregate of each pool.
    pub pools: KeyMap<PoolStats>,
}

impl View for AllStats {
    type V = Map<Seq<char>, PoolStatsView>;

    open spec fn view(&self) -> Map<Seq<char>, PoolStatsView> {
        Map::new(|k: Seq<char>| self.pools.has(k), |k: Seq<char>| self.pools.value_of(k)@)
    }
}

impl AllStats {
    /// The pool names are strictly increasing.
    pub open spec fn wf(&self) -> bool {
        self.pools.wf()
    }

    /// A snapshot that came from another by giving one pool an aggregate.
    pub proof fn lemma_view_of_insert(&self, before: &AllStats, key: Seq<char>, value: PoolStats)
        requires
            self.pools.as_map() == before.pools.as_map().insert(key, value),
        ensures
            self@ == before@.insert(key, value@),
    {
        let target = before@.insert(key, value@);
        assert forall|k: Seq<char>| self@.dom().contains(k) == target.dom().contains(k) by {
            assert(self@.dom().contains(k) == self.pools.as_map().dom().contains(k));
            assert(before@.dom().contains(k) == before.pools.as_map().dom().contains(k));
        }
        assert forall|k: Seq<char>| self@.dom().contains(k) implies self@[k] == target[k] by {
            assert(self.pools.as_map().dom().contains(k));
            assert(self@[k] == self.pools.as_map()[k]@);
            if k != key {
                assert(before.pools.as_map().dom().contains(k));
                assert(before@[k] == before.pools.as_map()[k]@);
            }
        }
        assert(self@ =~= target);
    }
}

impl Default for AllStats {
    /// The snapshot of an engine that knows no pool.
    fn default() -> (stats: AllStats)
        ensures
            stats.wf(),
            stats@ == Map::<Seq<char>, PoolStatsView>::empty(),
    {
        let stats = AllStats { pools: KeyMap::new() };
        assert(stats@ =~= Map::empty());
        stats
    }
}

/// The workers that occur in a window.
pub open spec fn worker_ids(w: Seq<ReportView>) -> Set<Seq<char>> {
    Set::new(|id: Seq<char>| exists|i: int| 0 <= i < w.len() && (#[trigger] w[i]).worker_id == id)
}

/// The hashrate readings of a window, in arrival order.
pub open spec fn hashrates_of(w: Seq<ReportView>) -> Seq<u64> {
    Seq::new(w.len(), |i: int| w[i].hashrate_bits)
}

/// The temperature readings of a window, in arrival order.
pub open spec fn temperatures_of(w: Seq<ReportView>) -> Seq<u64> {
    Seq::new(w.len(), |i: int| w[i].temperature_bits)
}

/// The aggregate of a window.
pub open spec fn aggregate_of(w: Seq<ReportView>) -> PoolStatsView {
    PoolStatsView {
        workers: worker_ids(w).len(),
        hashrate_bits: hashrates_of(w),
        temperature_bits: temperatures_of(w),
    }
}

/// The aggregate of the empty window: no workers and no readings.
pub open spec fn empty_stats() -> PoolStatsView {
    PoolStatsView { workers: 0, hashrate_bits: Seq::empty(), temperature_bits: Seq::empty() }
}

/// One more report adds its worker to those of the window.
pub proof fn lemma_worker_ids_push(w: Seq<ReportView>, r: ReportView)
    ensures
        worker_ids(w.push(r)) == worker_ids(w).insert(r.worker_id),
{
    let wr = w.push(r);
    assert forall|id: Seq<char>| worker_ids(wr).contains(id) implies worker_ids(w).insert(
        r.worker_id,
    ).contains(id) by {
        let i = choose|i: int| 0 <= i < wr.len() && (#[trigger] wr[i]).worker_id == id;
        if i < w.len() {
            assert(w[i].worker_id == id);
        }
    }
    assert forall|id: Seq<char>| worker_ids(w).insert(r.worker_id).contains(
        id,
    ) implies worker_ids(wr).contains(id) by {
        if id == r.worker_id {
            assert(wr[w.len() as int].worker_id == id);
        } else {
            let i = choose|i: int| 0 <= i < w.len() && (#[trigger] w[i]).worker_id == id;
            assert(wr[i].worker_id == id);
        }
    }
    assert(worker_ids(wr) =~= worker_ids(w).insert(r.worker_id));
}

/// A window has finitely many workers, and no more than it has reports.
pub proof fn lemma_worker_ids_bounded(w: Seq<ReportView>)
    ensures
        worker_ids(w).finite(),
        worker_ids(w).len() <= w.len(),
        w.len() > 0 ==> worker_ids(w).len() > 0,
    decreases w.len(),
{
    if w.len() == 0 {
        assert(worker_ids(w) =~= Set::empty());
    } else {
        let rest = w.drop_last();
        lemma_worker_ids_bounded(rest);
        lemma_worker_ids_push(rest, w.last());
        assert(rest.push(w.last()) =~= w);
    }
}

/// The empty window has the empty aggregate.
pub proof fn lemma_aggregate_of_empty(w: Seq<ReportView>)
    requires
        w.len() == 0,
    ensures
        aggregate_of(w) == empty_stats(),
{
    assert(worker_ids(w) =~= Set::empty());
    assert(hashrates_of(w) =~= Seq::empty());
    assert(temperatures_of(w) =~= Seq::empty());
}

} // verus!
