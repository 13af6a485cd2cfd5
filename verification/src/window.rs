//! The reports that one pool retains, and what a compute pass does to them.

use std::collections::VecDeque;
use vstd::hash_set::StringHashSet;
use vstd::prelude::*;
use crate::report::{views, Report, ReportView};
use crate::stats::{
    aggregate_of, hashrates_of, lemma_worker_ids_push, temperatures_of, worker_ids, PoolStats,
};

verus! {

/// The length of the window where none is configured, in seconds.
pub const DEFAULT_EXPIRATION_SECS: u64 = 300;

/// The oldest timestamp that a window of `expiration_secs` seconds ending at
/// `now` still holds. The subtraction saturates at zero.
pub open spec fn window_start(now: u64, expiration_secs: u64) -> u64 {
    if now >= expiration_secs {
        (now - expiration_secs) as u64
    } else {
        0
    }
}

/// Whether a report is inside the window that starts at `threshold`.
pub open spec fn is_fresh(r: ReportView, threshold: u64) -> bool {
    r.timestamp >= threshold
}

/// The reports of `w` that are inside the window, in their order.
pub open spec fn fresh(w: Seq<ReportView>, threshold: u64) -> Seq<ReportView> {
    w.filter(|r: ReportView| is_fresh(r, threshold))
}

/// The reports of `w` that have left the window, in their order.
pub open spec fn stale(w: Seq<ReportView>, threshold: u64) -> Seq<ReportView> {
    w.filter(|r: ReportView| !is_fresh(r, threshold))
}

/// Every report of `w` is inside the window.
pub open spec fn all_fresh(w: Seq<ReportView>, threshold: u64) -> bool {
    forall|i: int| 0 <= i < w.len() ==> is_fresh(#[trigger] w[i], threshold)
}

/// Pruning the empty sequence leaves it empty.
pub proof fn lemma_fresh_empty(threshold: u64)
    ensures
        fresh(Seq::empty(), threshold) == Seq::<ReportView>::empty(),
        stale(Seq::empty(), threshold) == Seq::<ReportView>::empty(),
{
    reveal(Seq::filter);
}

/// Pruning looks at the last report alone to decide on it.
pub proof fn lemma_fresh_push(w: Seq<ReportView>, r: ReportView, threshold: u64)
    ensures
        fresh(w.push(r), threshold) == if is_fresh(r, threshold) {
            fresh(w, threshold).push(r)
        } else {
            fresh(w, threshold)
        },
        stale(w.push(r), threshold) == if is_fresh(r, threshold) {
            stale(w, threshold)
        } else {
            stale(w, threshold).push(r)
        },
{
    reveal(Seq::filter);
    assert(w.push(r).drop_last() =~= w);
}

/// What pruning retains is inside the window.
pub proof fn lemma_fresh_all_fresh(w: Seq<ReportView>, threshold: u64)
    ensures
        all_fresh(fresh(w, threshold), threshold),
    decreases w.len(),
{
    if w.len() == 0 {
        lemma_fresh_empty(threshold);
        assert(w =~= Seq::empty());
    } else {
        lemma_fresh_all_fresh(w.drop_last(), threshold);
        lemma_fresh_push(w.drop_last(), w.last(), threshold);
        assert(w.drop_last().push(w.last()) =~= w);
    }
}

/// Pruning changes nothing where every report is inside the window.
pub proof fn lemma_fresh_of_all_fresh(w: Seq<ReportView>, threshold: u64)
    requires
        all_fresh(w, threshold),
    ensures
        fresh(w, threshold) == w,
    decreases w.len(),
{
    if w.len() == 0 {
        lemma_fresh_empty(threshold);
        assert(w =~= Seq::empty());
    } else {
        let rest = w.drop_last();
        assert forall|i: int| 0 <= i < rest.len() implies is_fresh(#[trigger] rest[i], threshold) by {
            assert(rest[i] == w[i]);
        }
        lemma_fresh_of_all_fresh(rest, threshold);
        lemma_fresh_push(rest, w.last(), threshold);
        assert(rest.push(w.last()) =~= w);
    }
}

/// Every report is either retained or evicted, never both and never neither.
pub proof fn lemma_fresh_stale_len(w: Seq<ReportView>, threshold: u64)
    ensures
        fresh(w, threshold).len() + stale(w, threshold).len() == w.len(),
    decreases w.len(),
{
    if w.len() == 0 {
        lemma_fresh_empty(threshold);
        assert(w =~= Seq::empty());
    } else {
        lemma_fresh_stale_len(w.drop_last(), threshold);
        lemma_fresh_push(w.drop_last(), w.last(), threshold);
        assert(w.drop_last().push(w.last()) =~= w);
    }
}

/// The reports that one pool retains, in arrival order.
#[derive(Debug)]
pub struct WindowedStore {
    reports: VecDeque<Report>,
}

impl View for WindowedStore {
    type V = Seq<ReportView>;

    closed spec fn view(&self) -> Seq<ReportView> {
        views(self.reports@)
    }
}

impl WindowedStore {
    /// A store that retains nothing yet.
    pub fn new() -> (store: WindowedStore)
        ensures
            store@ == Seq::<ReportView>::empty(),
    {
        let store = WindowedStore { reports: VecDeque::new() };
        assert(store@ =~= Seq::empty());
        store
    }

    /// The number of retained reports.
    pub fn len(&self) -> (n: usize)
        ensures
            n == self@.len(),
    {
        self.reports.len()
    }

    /// Whether no report is retained.
    pub fn is_empty(&self) -> (b: bool)
        ensures
            b == (self@.len() == 0),
    {
        self.reports.len() == 0
    }

    /// The retained report at position `i`, counted from the oldest arrival.
    pub fn get(&self, i: usize) -> (r: Option<&Report>)
        ensures
            i < self@.len() ==> r is Some && r->0@ == self@[i as int],
            i >= self@.len() ==> r is None,
    {
        if i < self.reports.len() {
            Some(&self.reports[i])
        } else {
            None
        }
    }

    /// Appends a report at the tail.
    pub fn append(&mut self, report: Report)
        ensures
            final(self)@ == old(self)@.push(report@),
    {
        self.reports.push_back(report);
        assert(self@ =~= old(self)@.push(report@));
    }

    /// Appends all the reports of `other`, in their order.
    pub fn extend(&mut self, other: WindowedStore)
        ensures
            final(self)@ == old(self)@ + other@,
    {
        let ghost tail = other@;
        let mut other = other;
        self.reports.append(&mut other.reports);
        assert(self@ =~= old(self)@ + tail);
    }

    /// Evicts every report older than the window of `expiration_secs` seconds
    /// that ends at `now`. What stays keeps its order.
    pub fn prune(&mut self, now: u64, expiration_secs: u64)
        ensures
            final(self)@ == fresh(old(self)@, window_start(now, expiration_secs)),
            all_fresh(final(self)@, window_start(now, expiration_secs)),
    {
        let threshold = now.saturating_sub(expiration_secs);
        let ghost before = self@;
        let ghost mut done: int = 0;
        let mut kept: VecDeque<Report> = VecDeque::new();
        proof {
            lemma_fresh_empty(threshold);
            assert(before.take(0) =~= Seq::empty());
            assert(views(kept@) =~= Seq::empty());
            assert(before.skip(0) =~= before);
        }
        while self.reports.len() > 0
            invariant
                0 <= done <= before.len(),
                self@ == before.skip(done),
                views(kept@) == fresh(before.take(done), threshold),
            decreases self.reports.len(),
        {
            let ghost queue = self.reports@;
            let popped = self.reports.pop_front();
            let report = popped.unwrap();
            proof {
                assert(views(queue).len() == queue.len());
                assert(report@ == before[done]) by {
                    assert(views(queue)[0] == before.skip(done)[0]);
                }
                assert forall|i: int| 0 <= i < self@.len() implies self@[i] == before.skip(
                    done + 1,
                )[i] by {
                    assert(self.reports@[i] == queue[i + 1]);
                    assert(views(queue)[i + 1] == before.skip(done)[i + 1]);
                }
                assert(self@ =~= before.skip(done + 1));
                assert(before.take(done + 1) =~= before.take(done).push(before[done]));
                lemma_fresh_push(before.take(done), before[done], threshold);
                done = done + 1;
            }
            if report.timestamp >= threshold {
                let ghost kept_before = kept@;
                kept.push_back(report);
                assert(views(kept@) =~= views(kept_before).push(report@));
            }
        }
        proof {
            assert(views(self.reports@).len() == 0);
            assert(before.take(done) =~= before);
            lemma_fresh_all_fresh(before, threshold);
        }
        self.reports = kept;
    }

    /// The aggregate of the retained reports.
    pub fn aggregate(&self) -> (stats: PoolStats)
        ensures
            stats@ == aggregate_of(self@),
    {
        let n = self.reports.len();
        let mut seen = StringHashSet::new();
        let mut hashrate_bits: Vec<u64> = Vec::new();
        let mut temperature_bits: Vec<u64> = Vec::new();
        let mut i: usize = 0;
        proof {
            assert(worker_ids(self@.take(0)) =~= Set::empty());
        }
        while i < n
            invariant
                n == self.reports@.len(),
                n == self@.len(),
                i <= n,
                seen@ == worker_ids(self@.take(i as int)),
                hashrate_bits@ == hashrates_of(self@.take(i as int)),
                temperature_bits@ == temperatures_of(self@.take(i as int)),
            decreases n - i,
        {
            let report = &self.reports[i];
            proof {
                assert(report@ == self@[i as int]);
                assert(self@.take(i + 1) =~= self@.take(i as int).push(self@[i as int]));
                lemma_worker_ids_push(self@.take(i as int), self@[i as int]);
            }
            seen.insert(report.worker_id.clone());
            hashrate_bits.push(report.hashrate_bits);
            temperature_bits.push(report.temperature_bits);
            proof {
                assert(hashrate_bits@ =~= hashrates_of(self@.take(i + 1)));
                assert(temperature_bits@ =~= temperatures_of(self@.take(i + 1)));
            }
            i = i + 1;
        }
        proof {
            assert(self@.take(n as int) =~= self@);
        }
        PoolStats { workers: seen.len(), hashrate_bits, temperature_bits }
    }

    /// One compute pass over this pool: prunes, then aggregates what stays.
    pub fn compute(&mut self, now: u64, expiration_secs: u64) -> (stats: PoolStats)
        ensures
            final(self)@ == fresh(old(self)@, window_start(now, expiration_secs)),
            all_fresh(final(self)@, window_start(now, expiration_secs)),
            stats@ == aggregate_of(final(self)@),
    {
        self.prune(now, expiration_secs);
        self.aggregate()
    }
}

} // verus!
