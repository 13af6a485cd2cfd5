//! What holds of the engines over all inputs.

use vstd::prelude::*;
use crate::model::{
    ingest_all, lemma_pruned_fresh, lemma_pruned_of_fresh, pruned, stats_of, window_of,
    without_empty, Windows,
};
use crate::queue::queue_pass;
use crate::report::ReportView;
use crate::stats::{
    aggregate_of, empty_stats, lemma_aggregate_of_empty, lemma_worker_ids_bounded,
    lemma_worker_ids_push, worker_ids,
};
use crate::window::{
    all_fresh, fresh, is_fresh, lemma_fresh_all_fresh, lemma_fresh_empty,
    lemma_fresh_of_all_fresh, lemma_fresh_stale_len, stale,
};

verus! {

/// The reports of `rs` that belong to the pool `key`, in their order.
pub open spec fn for_pool(rs: Seq<ReportView>, key: Seq<char>) -> Seq<ReportView> {
    rs.filter(|r: ReportView| r.pool == key)
}

/// Windowing: after a pass every retained report is inside the window, and a
/// report that is older than the window is not among those that the pass
/// retains and aggregates.
pub proof fn lemma_windowing(w: Seq<ReportView>, threshold: u64, r: ReportView)
    ensures
        all_fresh(fresh(w, threshold), threshold),
        r.timestamp < threshold ==> !fresh(w, threshold).contains(r),
{
    lemma_fresh_all_fresh(w, threshold);
    if r.timestamp < threshold && fresh(w, threshold).contains(r) {
        let i = fresh(w, threshold).index_of(r);
        assert(is_fresh(fresh(w, threshold)[i], threshold));
    }
}

/// Aggregation: the aggregate of a window of `n` reports lists their `n`
/// hashrate readings and their `n` temperature readings in arrival order,
/// and counts the distinct workers, of which there are at most `n` and, in a
/// window that is not empty, at least one.
pub proof fn lemma_aggregation(w: Seq<ReportView>)
    ensures
        aggregate_of(w).hashrate_bits.len() == w.len(),
        aggregate_of(w).temperature_bits.len() == w.len(),
        forall|i: int|
            0 <= i < w.len() ==> #[trigger] aggregate_of(w).hashrate_bits[i] == w[i].hashrate_bits,
        forall|i: int|
            0 <= i < w.len() ==> #[trigger] aggregate_of(w).temperature_bits[i]
                == w[i].temperature_bits,
        aggregate_of(w).workers == worker_ids(w).len(),
        worker_ids(w).finite(),
        aggregate_of(w).workers <= w.len(),
        w.len() > 0 ==> aggregate_of(w).workers >= 1,
{
    lemma_worker_ids_bounded(w);
}

/// A window in which no worker reports twice has as many workers as reports.
pub proof fn lemma_distinct_workers(w: Seq<ReportView>)
    requires
        forall|i: int, j: int|
            0 <= i < j < w.len() ==> (#[trigger] w[i]).worker_id != (#[trigger] w[j]).worker_id,
    ensures
        aggregate_of(w).workers == w.len(),
    decreases w.len(),
{
    if w.len() == 0 {
        lemma_aggregate_of_empty(w);
    } else {
        let rest = w.drop_last();
        assert forall|i: int, j: int| 0 <= i < j < rest.len() implies (#[trigger] rest[i]).worker_id
            != (#[trigger] rest[j]).worker_id by {
            assert(rest[i] == w[i]);
            assert(rest[j] == w[j]);
        }
        lemma_distinct_workers(rest);
        lemma_worker_ids_push(rest, w.last());
        assert(rest.push(w.last()) =~= w);
        lemma_worker_ids_bounded(rest);
        if worker_ids(rest).contains(w.last().worker_id) {
            let i = choose|i: int| 0 <= i < rest.len() && (#[trigger] rest[i]).worker_id
                == w.last().worker_id;
            assert(rest[i] == w[i]);
            assert(w[w.len() - 1] == w.last());
        }
    }
}

/// Empty pool: a pool that retains nothing has, wherever a snapshot lists it,
/// no workers and no readings.
pub proof fn lemma_empty_pool(p: Windows, key: Seq<char>)
    requires
        p.dom().contains(key),
        p[key].len() == 0,
    ensures
        stats_of(p).dom().contains(key),
        stats_of(p)[key] == empty_stats(),
{
    lemma_aggregate_of_empty(p[key]);
}

/// Pruning twice at the same time is pruning once.
pub proof fn lemma_fresh_idempotent(w: Seq<ReportView>, threshold: u64)
    ensures
        fresh(fresh(w, threshold), threshold) == fresh(w, threshold),
{
    lemma_fresh_all_fresh(w, threshold);
    lemma_fresh_of_all_fresh(fresh(w, threshold), threshold);
}

/// Repeated passes: a second pass at the same time, with no report arrived in
/// between, leaves the windows as the first left them and yields the same
/// snapshot. This is the pass of the single actor and, pool by pool, of the
/// actors of the actor-per-pool engine.
pub proof fn lemma_pass_idempotent(p: Windows, threshold: u64)
    ensures
        pruned(pruned(p, threshold), threshold) == pruned(p, threshold),
        stats_of(pruned(pruned(p, threshold), threshold)) == stats_of(pruned(p, threshold)),
{
    lemma_pruned_fresh(p, threshold);
    lemma_pruned_of_fresh(pruned(p, threshold), threshold);
}

/// Repeated passes of the queue engine: a second pass at the same time over
/// an empty batch leaves the windows as the first left them and yields the
/// same snapshot.
pub proof fn lemma_queue_pass_idempotent(p: Windows, batch: Seq<ReportView>, threshold: u64)
    ensures
        queue_pass(queue_pass(p, batch, threshold), Seq::empty(), threshold) == queue_pass(
            p,
            batch,
            threshold,
        ),
        stats_of(queue_pass(queue_pass(p, batch, threshold), Seq::empty(), threshold)) == stats_of(
            queue_pass(p, batch, threshold),
        ),
{
    let once = queue_pass(p, batch, threshold);
    lemma_pruned_fresh(ingest_all(p, batch), threshold);
    lemma_pruned_of_fresh(once, threshold);
    assert(without_empty(once) =~= once);
}

/// What a batch adds to a pool's window: the reports of the batch that belong
/// to the pool, in arrival order, behind what the window held.
pub proof fn lemma_ingest_all_window(p: Windows, rs: Seq<ReportView>, key: Seq<char>)
    ensures
        window_of(ingest_all(p, rs), key) == window_of(p, key) + for_pool(rs, key),
    decreases rs.len(),
{
    reveal(Seq::filter);
    if rs.len() == 0 {
        assert(window_of(p, key) + for_pool(rs, key) =~= window_of(p, key));
    } else {
        let rest = rs.drop_last();
        let r = rs.last();
        lemma_ingest_all_window(p, rest, key);
        if r.pool == key {
            assert(window_of(p, key) + for_pool(rest, key).push(r) =~= (window_of(p, key)
                + for_pool(rest, key)).push(r));
        }
    }
}

/// No lost update: when the reports of `arrivals`, all of one pool, have
/// arrived at an engine that knew nothing, in whatever order the producers'
/// submissions were interleaved, the pool's window holds them all; and of
/// these a pass retains some and evicts the others, so that retained and
/// evicted together are as many as arrived.
pub proof fn lemma_no_lost_updates(arrivals: Seq<ReportView>, key: Seq<char>, threshold: u64)
    requires
        forall|i: int| 0 <= i < arrivals.len() ==> (#[trigger] arrivals[i]).pool == key,
    ensures
        window_of(ingest_all(Map::empty(), arrivals), key) == arrivals,
        window_of(pruned(ingest_all(Map::empty(), arrivals), threshold), key) == fresh(
            arrivals,
            threshold,
        ),
        fresh(arrivals, threshold).len() + stale(arrivals, threshold).len() == arrivals.len(),
{
    lemma_ingest_all_window(Map::empty(), arrivals, key);
    lemma_for_pool_all(arrivals, key);
    assert(Seq::<ReportView>::empty() + arrivals =~= arrivals);
    lemma_fresh_stale_len(arrivals, threshold);
    lemma_fresh_empty(threshold);
    if arrivals.len() > 0 {
        lemma_ingest_all_known(Map::empty(), arrivals);
        assert(arrivals.last().pool == key);
    } else {
        assert(arrivals =~= Seq::empty());
    }
}

/// Every report of a batch that belongs to one pool belongs to that pool.
proof fn lemma_for_pool_all(rs: Seq<ReportView>, key: Seq<char>)
    requires
        forall|i: int| 0 <= i < rs.len() ==> (#[trigger] rs[i]).pool == key,
    ensures
        for_pool(rs, key) == rs,
    decreases rs.len(),
{
    reveal(Seq::filter);
    if rs.len() > 0 {
        let rest = rs.drop_last();
        assert forall|i: int| 0 <= i < rest.len() implies (#[trigger] rest[i]).pool == key by {
            assert(rest[i] == rs[i]);
        }
        lemma_for_pool_all(rest, key);
        assert(rs.last() == rs[rs.len() - 1]);
        assert(rest.push(rs.last()) =~= rs);
    }
}

/// After a batch has arrived, the pool of its last report is known.
proof fn lemma_ingest_all_known(p: Windows, rs: Seq<ReportView>)
    requires
        rs.len() > 0,
    ensures
        ingest_all(p, rs).dom().contains(rs.last().pool),
{
}

} // verus!
