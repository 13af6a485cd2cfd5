//! The mathematical model of the retained reports of all pools, and of what
//! ingestion and a compute pass do to them.

use vstd::prelude::*;
use crate::report::ReportView;
use crate::stats::{aggregate_of, PoolStatsView};
use crate::window::{all_fresh, fresh, lemma_fresh_all_fresh, lemma_fresh_of_all_fresh};

verus! {

/// The retained reports of every pool, each pool's in arrival order.
pub type Windows = Map<Seq<char>, Seq<ReportView>>;

/// The aggregate of every pool.
pub type Snapshot = Map<Seq<char>, PoolStatsView>;

/// The window of `key`; empty where the pool is unknown.
pub open spec fn window_of(p: Windows, key: Seq<char>) -> Seq<ReportView> {
    if p.dom().contains(key) {
        p[key]
    } else {
        Seq::empty()
    }
}

/// The windows after one report has arrived: it stands at the tail of its
/// pool's window, and the pool is known from then on.
pub open spec fn ingest_one(p: Windows, r: ReportView) -> Windows {
    p.insert(r.pool, window_of(p, r.pool).push(r))
}

/// The windows after a sequence of reports has arrived, one after the other.
pub open spec fn ingest_all(p: Windows, rs: Seq<ReportView>) -> Windows
    decreases rs.len(),
{
    if rs.len() == 0 {
        p
    } else {
        ingest_one(ingest_all(p, rs.drop_last()), rs.last())
    }
}

/// The windows of `p`, each followed by the window that `q` has for the same
/// pool. A pool is known if either side knows it.
pub open spec fn merged(p: Windows, q: Windows) -> Windows {
    Map::new(
        |k: Seq<char>| p.dom().contains(k) || q.dom().contains(k),
        |k: Seq<char>| window_of(p, k) + window_of(q, k),
    )
}

/// The windows with every report older than `threshold` evicted. Every pool
/// stays known.
pub open spec fn pruned(p: Windows, threshold: u64) -> Windows {
    Map::new(|k: Seq<char>| p.dom().contains(k), |k: Seq<char>| fresh(p[k], threshold))
}

/// The windows of the pools that retain at least one report.
pub open spec fn without_empty(p: Windows) -> Windows {
    Map::new(|k: Seq<char>| p.dom().contains(k) && p[k].len() > 0, |k: Seq<char>| p[k])
}

/// The aggregate of every known pool.
pub open spec fn stats_of(p: Windows) -> Snapshot {
    Map::new(|k: Seq<char>| p.dom().contains(k), |k: Seq<char>| aggregate_of(p[k]))
}

/// Every retained report of every pool is inside the window.
pub open spec fn all_windows_fresh(p: Windows, threshold: u64) -> bool {
    forall|k: Seq<char>| p.dom().contains(k) ==> all_fresh(#[trigger] p[k], threshold)
}

/// After pruning, every retained report is inside the window.
pub proof fn lemma_pruned_fresh(p: Windows, threshold: u64)
    ensures
        all_windows_fresh(pruned(p, threshold), threshold),
        all_windows_fresh(without_empty(pruned(p, threshold)), threshold),
{
    assert forall|k: Seq<char>| p.dom().contains(k) implies all_fresh(
        fresh(p[k], threshold),
        threshold,
    ) by {
        lemma_fresh_all_fresh(p[k], threshold);
    }
}

/// Pruning changes nothing where every report is inside the window.
pub proof fn lemma_pruned_of_fresh(p: Windows, threshold: u64)
    requires
        all_windows_fresh(p, threshold),
    ensures
        pruned(p, threshold) == p,
{
    assert forall|k: Seq<char>| p.dom().contains(k) implies fresh(p[k], threshold) == p[k] by {
        lemma_fresh_of_all_fresh(p[k], threshold);
    }
    assert(pruned(p, threshold) =~= p);
}

/// Ingesting one more report after a sequence is ingesting the longer sequence.
pub proof fn lemma_ingest_all_push(p: Windows, rs: Seq<ReportView>, r: ReportView)
    ensures
        ingest_all(p, rs.push(r)) == ingest_one(ingest_all(p, rs), r),
{
    assert(rs.push(r).drop_last() =~= rs);
}

/// Merging with the empty windows changes nothing.
pub proof fn lemma_merged_empty(p: Windows)
    ensures
        merged(p, Map::empty()) == p,
        merged(Map::empty(), p) == p,
{
    assert forall|k: Seq<char>| p.dom().contains(k) implies window_of(p, k) + Seq::empty()
        == p[k] && Seq::empty() + window_of(p, k) == p[k] by {
        assert(p[k] + Seq::empty() =~= p[k]);
        assert(Seq::empty() + p[k] =~= p[k]);
    }
    assert(merged(p, Map::empty()) =~= p);
    assert(merged(Map::empty(), p) =~= p);
}

/// A report that arrives on the right side of a merge arrives in the merge.
pub proof fn lemma_merged_ingest_one(p: Windows, q: Windows, r: ReportView)
    ensures
        merged(p, ingest_one(q, r)) == ingest_one(merged(p, q), r),
{
    let left = merged(p, ingest_one(q, r));
    let right = ingest_one(merged(p, q), r);
    assert forall|k: Seq<char>| left.dom().contains(k) implies #[trigger] left[k] == right[k] by {
        if k == r.pool {
            assert(window_of(p, k) + window_of(q, k).push(r) =~= (window_of(p, k) + window_of(
                q,
                k,
            )).push(r));
        }
    }
    assert(left =~= right);
}

/// Reports that arrive on the right side of a merge arrive in the merge:
/// grouping a batch apart and merging it in is ingesting the batch.
pub proof fn lemma_merged_ingest_all(p: Windows, q: Windows, rs: Seq<ReportView>)
    ensures
        merged(p, ingest_all(q, rs)) == ingest_all(merged(p, q), rs),
    decreases rs.len(),
{
    if rs.len() > 0 {
        lemma_merged_ingest_all(p, q, rs.drop_last());
        lemma_merged_ingest_one(p, ingest_all(q, rs.drop_last()), rs.last());
    }
}

} // verus!
