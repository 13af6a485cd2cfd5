//! Sliding-window statistics for pools of workers.
//!
//! Workers report their hashrate and temperature under the name of their
//! pool. For each pool the engine retains the reports of a trailing window of
//! time and computes, once per pass, how many distinct workers the window
//! holds and which readings enter the pool's averages. The aggregates of all
//! pools make a snapshot, listed in the order of the pool names.
//!
//! Three engines share these rules and differ in how reports reach the
//! windows: [`data_actor`] is a single owner of all windows driven by events,
//! [`pool_actor`] and [`aggregator`] are the worker and the coordinator of an
//! engine with one actor per pool, and [`queue`] is fed through a lock-free
//! queue that a periodic pass drains. [`model`] says what ingestion and a
//! pass do to the windows, and [`laws`] what follows for every input.
//!
//! Time is an input everywhere: a pass is told what the clock shows. The two
//! measured values of a report are carried as bit patterns and never
//! interpreted; averaging them is left to the caller.

pub mod aggregator;
pub mod data_actor;
pub mod endpoint;
pub mod key;
pub mod keymap;
pub mod laws;
pub mod model;
pub mod pool_actor;
pub mod pools;
pub mod publisher;
pub mod queue;
pub mod report;
pub mod stats;
pub mod window;
