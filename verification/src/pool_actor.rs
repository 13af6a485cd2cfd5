//! The worker of the actor-per-pool engine: it owns the window of one pool
//! and answers two commands.

use vstd::prelude::*;
use crate::report::{Report, ReportView};
use crate::stats::{aggregate_of, PoolStats};
use crate::window::{all_fresh, fresh, window_start, WindowedStore};

verus! {

/// What a pool's actor can be told.
#[derive(Debug)]
pub enum PoolActorCommand {
    /// Take this report in.
    AddReport(Report),
    /// Run a compute pass; the clock shows this many seconds since the epoch.
    CalculateStats(u64),
}

/// The actor of one pool. It lives until its owner drops it, also when its
/// window has become empty.
#[derive(Debug)]
pub struct PoolActor {
    reports: WindowedStore,
    expiration_secs: u64,
}

impl View for PoolActor {
    type V = Seq<ReportView>;

    /// The retained reports, in arrival order.
    closed spec fn view(&self) -> Seq<ReportView> {
        self.reports@
    }
}

impl PoolActor {
    /// The length of the window, in seconds.
    pub closed spec fn window_secs(&self) -> u64 {
        self.expiration_secs
    }

    /// An actor that retains nothing yet, with a window of `expiration_secs`
    /// seconds.
    pub fn new(expiration_secs: u64) -> (actor: PoolActor)
        ensures
            actor@ == Seq::<ReportView>::empty(),
            actor.window_secs() == expiration_secs,
    {
        PoolActor { reports: WindowedStore::new(), expiration_secs }
    }

    /// The window that the actor owns.
    pub fn window(&self) -> (w: &WindowedStore)
        ensures
            w@ == self@,
    {
        &self.reports
    }

    /// Handles one command. A report is appended and nothing is replied; a
    /// compute pass prunes the window and replies with the aggregate of what
    /// stays.
    pub fn handle(&mut self, command: PoolActorCommand) -> (reply: Option<PoolStats>)
        ensures
            final(self).window_secs() == old(self).window_secs(),
            match command {
                PoolActorCommand::AddReport(report) => {
                    &&& reply is None
                    &&& final(self)@ == old(self)@.push(report@)
                },
                PoolActorCommand::CalculateStats(now) => {
                    &&& final(self)@ == fresh(
                        old(self)@,
                        window_start(now, old(self).window_secs()),
                    )
                    &&& all_fresh(final(self)@, window_start(now, old(self).window_secs()))
                    &&& reply is Some
                    &&& reply->0@ == aggregate_of(final(self)@)
                },
            },
    {
        match command {
            PoolActorCommand::AddReport(report) => {
                self.reports.append(report);
                None
            },
            PoolActorCommand::CalculateStats(now) => {
                Some(self.reports.compute(now, self.expiration_secs))
            },
        }
    }
}

} // verus!
