//! What the two HTTP endpoints answer. The transport is the caller's; here is
//! the part of each handler that decides.

use vstd::prelude::*;
use crate::data_actor::{Ack, Rejected};
use crate::publisher::SnapshotPublisher;

verus! {

/// The status of a request that was served.
pub const STATUS_OK: u16 = 200;

/// The status of a report that the engine rejected.
pub const STATUS_INTERNAL_SERVER_ERROR: u16 = 500;

/// The content type of a snapshot.
pub const STATS_CONTENT_TYPE: &'static str = "application/json";

/// The cache directive of a snapshot: it is never to be cached.
pub const STATS_CACHE_CONTROL: &'static str = "no-cache, no-store, must-revalidate";

/// The answer to a request for the snapshot.
#[derive(Debug)]
pub struct StatsResponse {
    /// The HTTP status.
    pub status: u16,
    /// The value of the `Content-Type` header.
    pub content_type: &'static str,
    /// The value of the `Cache-Control` header.
    pub cache_control: &'static str,
    /// The body: the rendered snapshot.
    pub body: String,
}

/// The status with which a posted report is answered: 200 where the engine
/// took it, 500 where the engine rejected it.
pub fn post_report(outcome: &Result<Ack, Rejected>) -> (status: u16)
    ensures
        outcome is Ok ==> status == 200,
        outcome is Err ==> status == 500,
{
    match outcome {
        Ok(_) => STATUS_OK,
        Err(_) => STATUS_INTERNAL_SERVER_ERROR,
    }
}

/// The answer to a request for the snapshot: always 200, with the rendering
/// published last as the body.
pub fn get_stats(publisher: &SnapshotPublisher) -> (response: StatsResponse)
    ensures
        response.status == 200,
        response.content_type@ == "application/json"@,
        response.cache_control@ == "no-cache, no-store, must-revalidate"@,
        response.body@ == publisher@,
{
    StatsResponse {
        status: STATUS_OK,
        content_type: STATS_CONTENT_TYPE,
        cache_control: STATS_CACHE_CONTROL,
        body: publisher.snapshot().clone(),
    }
}

} // verus!
