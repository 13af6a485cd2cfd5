//! One telemetry reading of a worker.

use vstd::prelude::*;

verus! {

/// One reading of a worker, as its pool received it.
///
/// The two measured values are carried as the bit patterns of their binary64
/// encoding. They are handed through unchanged and never interpreted: no
/// arithmetic is done on them here.
#[derive(Clone, Debug, PartialEq, Eq)]
pub struct Report {
    /// The worker that took the reading.
    pub worker_id: String,
    /// The pool under which the reading is aggregated.
    pub pool: String,
    /// Bit pattern of the hashrate.
    pub hashrate_bits: u64,
    /// Bit pattern of the temperature.
    pub temperature_bits: u64,
    /// Seconds since the epoch, as the worker supplied them.
    pub timestamp: u64,
}

/// What a [`Report`] holds, as mathematical values.
pub struct ReportView {
    pub worker_id: Seq<char>,
    pub pool: Seq<char>,
    pub hashrate_bits: u64,
    pub temperature_bits: u64,
    pub timestamp: u64,
}

impl View for Report {
    type V = ReportView;

    open spec fn view(&self) -> ReportView {
        ReportView {
            worker_id: self.worker_id@,
            pool: self.pool@,
            hashrate_bits: self.hashrate_bits,
            temperature_bits: self.temperature_bits,
            timestamp: self.timestamp,
        }
    }
}

/// The views of a sequence of reports, in the same order.
pub open spec fn views(reports: Seq<Report>) -> Seq<ReportView> {
    Seq::new(reports.len(), |i: int| reports[i]@)
}

} // verus!
