//! The queue engine: reports arrive through a lock-free queue, and a periodic
//! pass drains it, groups what it held by pool, merges the groups into the
//! windows, prunes, forgets the pools that have become empty and aggregates
//! the others.

use crossbeam_queue::SegQueue;
use vstd::prelude::*;
use crate::data_actor::{Ack, Rejected};
use crate::model::{
    all_windows_fresh, ingest_all, lemma_merged_empty, lemma_merged_ingest_all, lemma_pruned_fresh,
    merged, pruned, stats_of, without_empty, Windows,
};
use crate::pools::{group, Pools};
use crate::report::{views, Report, ReportView};
use crate::stats::AllStats;
use crate::window::window_start;

verus! {

/// The unbounded multi-producer queue of `crossbeam_queue`. Its contents are
/// shared between threads and unknown to the verifier.
#[verifier::external_type_specification]
#[verifier::external_body]
#[verifier::reject_recursive_types(T)]
pub struct ExSegQueue<T>(SegQueue<T>);

/// Calls `SegQueue::push`, which puts the report at the tail of the queue.
/// Nothing is claimed of the call.
#[verifier::external_body]
fn queue_push(queue: &SegQueue<Report>, report: Report) {
    queue.push(report)
}

/// Calls `SegQueue::pop`, which takes the report at the head of the queue, or
/// returns `None` if it finds the queue empty. Other threads may push at the
/// same time, so nothing is claimed of what comes back.
#[verifier::external_body]
fn queue_pop(queue: &SegQueue<Report>) -> (report: Option<Report>) {
    queue.pop()
}

/// Calls `SegQueue::len`, the number of reports in the queue at some moment
/// of the call. Nothing is claimed of the number.
#[verifier::external_body]
fn queue_len(queue: &SegQueue<Report>) -> (n: usize) {
    queue.len()
}

/// The windows after one pass of the queue engine over a drained batch: the
/// batch is taken in, every window is pruned, and the pools that retain
/// nothing are forgotten.
pub open spec fn queue_pass(p: Windows, batch: Seq<ReportView>, threshold: u64) -> Windows {
    without_empty(pruned(ingest_all(p, batch), threshold))
}

/// Hands a report to the engine. The queue is unbounded and never closed, so
/// the report is always taken.
pub fn submit(queue: &SegQueue<Report>, report: Report) -> (outcome: Result<Ack, Rejected>)
    ensures
        outcome is Ok,
{
    queue_push(queue, report);
    Ok(Ack)
}

/// Takes reports from the queue until it is found empty, and returns them in
/// the order in which they were taken.
pub fn drain(queue: &SegQueue<Report>) -> (drained: Vec<Report>) {
    let mut drained: Vec<Report> = Vec::with_capacity(queue_len(queue));
    while drained.len() < usize::MAX
        decreases usize::MAX - drained.len(),
    {
        match queue_pop(queue) {
            Some(report) => {
                drained.push(report);
            },
            None => {
                break ;
            },
        }
    }
    drained
}

/// The periodic task of the queue engine, with the windows that it owns.
/// A pool whose window has become empty is forgotten and not published.
#[derive(Debug)]
pub struct StatsAggregator {
    pools: Pools,
    expiration_secs: u64,
}

impl View for StatsAggregator {
    type V = Windows;

    closed spec fn view(&self) -> Windows {
        self.pools@
    }
}

impl StatsAggregator {
    /// The pools are in order.
    pub closed spec fn wf(&self) -> bool {
        self.pools.wf()
    }

    /// The length of the window, in seconds.
    pub closed spec fn window_secs(&self) -> u64 {
        self.expiration_secs
    }

    /// An aggregator that knows no pool, with a window of `expiration_secs`
    /// seconds.
    pub fn new(expiration_secs: u64) -> (aggregator: StatsAggregator)
        ensures
            aggregator.wf(),
            aggregator@ == Map::<Seq<char>, Seq<ReportView>>::empty(),
            aggregator.window_secs() == expiration_secs,
    {
        StatsAggregator { pools: Pools::new(), expiration_secs }
    }

    /// The windows of all pools.
    pub fn pools(&self) -> (pools: &Pools)
        requires
            self.wf(),
        ensures
            pools.wf(),
            pools@ == self@,
    {
        &self.pools
    }

    /// Merges grouped reports into the windows.
    pub fn absorb(&mut self, groups: Pools)
        requires
            old(self).wf(),
            groups.wf(),
        ensures
            final(self).wf(),
            final(self).window_secs() == old(self).window_secs(),
            final(self)@ == merged(old(self)@, groups@),
    {
        self.pools.merge(groups);
    }

    /// Prunes every window at time `now`, forgets the pools that retain
    /// nothing, and aggregates the others.
    pub fn compute(&mut self, now: u64) -> (stats: AllStats)
        requires
            old(self).wf(),
        ensures
            final(self).wf(),
            final(self).window_secs() == old(self).window_secs(),
            final(self)@ == without_empty(
                pruned(old(self)@, window_start(now, old(self).window_secs())),
            ),
            all_windows_fresh(final(self)@, window_start(now, old(self).window_secs())),
            stats.wf(),
            stats@ == stats_of(final(self)@),
    {
        proof {
            lemma_pruned_fresh(self@, window_start(now, self.window_secs()));
        }
        self.pools.prune(now, self.expiration_secs);
        self.pools.drop_empty();
        self.pools.aggregate()
    }

    /// One pass over a drained batch at time `now`.
    pub fn pass(&mut self, drained: Vec<Report>, now: u64) -> (stats: AllStats)
        requires
            old(self).wf(),
        ensures
            final(self).wf(),
            final(self).window_secs() == old(self).window_secs(),
            final(self)@ == queue_pass(
                old(self)@,
                views(drained@),
                window_start(now, old(self).window_secs()),
            ),
            all_windows_fresh(final(self)@, window_start(now, old(self).window_secs())),
            stats.wf(),
            stats@ == stats_of(final(self)@),
    {
        proof {
            lemma_merged_ingest_all(self@, Map::empty(), views(drained@));
            lemma_merged_empty(self@);
        }
        let groups = group(drained);
        self.absorb(groups);
        self.compute(now)
    }

    /// One pass at time `now` over whatever the queue holds. Which reports
    /// the pass finds in the queue depends on the producers; whatever batch
    /// it is, the pass treats it as [`StatsAggregator::pass`] does.
    pub fn tick(&mut self, queue: &SegQueue<Report>, now: u64) -> (stats: AllStats)
        requires
            old(self).wf(),
        ensures
            final(self).wf(),
            final(self).window_secs() == old(self).window_secs(),
            exists|batch: Seq<ReportView>|
                final(self)@ == #[trigger] queue_pass(
                    old(self)@,
                    batch,
                    window_start(now, old(self).window_secs()),
                ),
            all_windows_fresh(final(self)@, window_start(now, old(self).window_secs())),
            stats.wf(),
            stats@ == stats_of(final(self)@),
    {
        let drained = drain(queue);
        let ghost batch = views(drained@);
        let stats = self.pass(drained, now);
        assert(self@ == queue_pass(
            old(self)@,
            batch,
            window_start(now, old(self).window_secs()),
        ));
        stats
    }
}

} // verus!
