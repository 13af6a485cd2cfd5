//! The single-actor engine: one owner of all windows, driven by two kinds of
//! events, the arrival of a report and the tick of the timer.

use vstd::prelude::*;
use crate::model::{all_windows_fresh, ingest_one, pruned, stats_of, Windows};
use crate::pools::Pools;
use crate::report::{Report, ReportView};
use crate::stats::AllStats;
use crate::window::window_start;

verus! {

/// The engine has taken the report in.
#[derive(Clone, Copy, Debug, PartialEq, Eq, Structural)]
pub struct Ack;

/// The engine is shutting down and takes no more reports.
#[derive(Clone, Copy, Debug, PartialEq, Eq, Structural)]
pub struct Rejected;

/// What can happen to the actor.
#[derive(Debug)]
pub enum ActorEvent {
    /// A report has arrived.
    Report(Report),
    /// The timer has ticked; the clock shows this many seconds since the epoch.
    Tick(u64),
    /// The source of reports is closed.
    Closed,
}

/// What the actor's owner has to do after an event.
#[derive(Debug)]
pub enum ActorAction {
    /// Nothing; wait for the next event.
    Continue,
    /// Publish this snapshot.
    Publish(AllStats),
    /// Stop: the actor has shut down.
    Stop,
}

/// The single actor. It keeps every pool that it has seen, also when the
/// pool's window has become empty: such a pool is published with the empty
/// aggregate.
#[derive(Debug)]
pub struct DataActor {
    pools: Pools,
    expiration_secs: u64,
    closed: bool,
}

impl View for DataActor {
    type V = Windows;

    closed spec fn view(&self) -> Windows {
        self.pools@
    }
}

impl DataActor {
    /// The pools are in order.
    pub closed spec fn wf(&self) -> bool {
        self.pools.wf()
    }

    /// The length of the window, in seconds.
    pub closed spec fn window_secs(&self) -> u64 {
        self.expiration_secs
    }

    /// Whether the actor has shut down.
    pub closed spec fn is_closed(&self) -> bool {
        self.closed
    }

    /// An actor that knows no pool, with a window of `expiration_secs` seconds.
    pub fn new(expiration_secs: u64) -> (actor: DataActor)
        ensures
            actor.wf(),
            actor@ == Map::<Seq<char>, Seq<ReportView>>::empty(),
            actor.window_secs() == expiration_secs,
            !actor.is_closed(),
    {
        DataActor { pools: Pools::new(), expiration_secs, closed: false }
    }

    /// Whether the actor has shut down.
    pub fn closed(&self) -> (b: bool)
        ensures
            b == self.is_closed(),
    {
        self.closed
    }

    /// The windows of all pools.
    pub fn pools(&self) -> (pools: &Pools)
        requires
            self.wf(),
        ensures
            pools.wf(),
            pools@ == self@,
    {
        &self.pools
    }

    /// Takes a report in, unless the actor has shut down.
    pub fn ingest(&mut self, report: Report) -> (outcome: Result<Ack, Rejected>)
        requires
            old(self).wf(),
        ensures
            final(self).wf(),
            final(self).window_secs() == old(self).window_secs(),
            final(self).is_closed() == old(self).is_closed(),
            outcome is Err == old(self).is_closed(),
            outcome is Err ==> final(self)@ == old(self)@,
            outcome is Ok ==> final(self)@ == ingest_one(old(self)@, report@),
    {
        if self.closed {
            Err(Rejected)
        } else {
            self.pools.ingest(report);
            Ok(Ack)
        }
    }

    /// One compute pass at time `now`: prunes every window and aggregates
    /// every pool.
    pub fn tick(&mut self, now: u64) -> (stats: AllStats)
        requires
            old(self).wf(),
        ensures
            final(self).wf(),
            final(self).window_secs() == old(self).window_secs(),
            final(self).is_closed() == old(self).is_closed(),
            final(self)@ == pruned(old(self)@, window_start(now, old(self).window_secs())),
            all_windows_fresh(final(self)@, window_start(now, old(self).window_secs())),
            stats.wf(),
            stats@ == stats_of(final(self)@),
    {
        self.pools.compute(now, self.expiration_secs)
    }

    /// Shuts the actor down. Its windows stay as they are.
    pub fn shutdown(&mut self)
        requires
            old(self).wf(),
        ensures
            final(self).wf(),
            final(self).window_secs() == old(self).window_secs(),
            final(self).is_closed(),
            final(self)@ == old(self)@,
    {
        self.closed = true;
    }

    /// Handles one event and says what to do next.
    ///
    /// A report is taken in and a tick is answered with the snapshot to
    /// publish. When the source of reports is closed the actor shuts down;
    /// once it has, every event is answered with `Stop` and changes nothing.
    pub fn step(&mut self, event: ActorEvent) -> (action: ActorAction)
        requires
            old(self).wf(),
        ensures
            final(self).wf(),
            final(self).window_secs() == old(self).window_secs(),
            old(self).is_closed() ==> action is Stop && final(self).is_closed() && final(self)@
                == old(self)@,
            !old(self).is_closed() ==> match event {
                ActorEvent::Report(report) => {
                    &&& action is Continue
                    &&& !final(self).is_closed()
                    &&& final(self)@ == ingest_one(old(self)@, report@)
                },
                ActorEvent::Tick(now) => {
                    &&& !final(self).is_closed()
                    &&& final(self)@ == pruned(
                        old(self)@,
                        window_start(now, old(self).window_secs()),
                    )
                    &&& all_windows_fresh(
                        final(self)@,
                        window_start(now, old(self).window_secs()),
                    )
                    &&& action is Publish
                    &&& action->Publish_0.wf()
                    &&& action->Publish_0@ == stats_of(final(self)@)
                },
                ActorEvent::Closed => {
                    &&& action is Stop
                    &&& final(self).is_closed()
                    &&& final(self)@ == old(self)@
                },
            },
    {
        if self.closed {
            return ActorAction::Stop;
        }
        match event {
            ActorEvent::Report(report) => {
                let _ = self.ingest(report);
                ActorAction::Continue
            },
            ActorEvent::Tick(now) => ActorAction::Publish(self.tick(now)),
            ActorEvent::Closed => {
                self.shutdown();
                ActorAction::Stop
            },
        }
    }
}

} // verus!
