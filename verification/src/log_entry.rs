//! The parsed unit of the log: one record per well-formed input line.

use vstd::prelude::*;

verus! {

/// One parsed log line. A status code or response time of `0` may also stand
/// for a numeric field that was present but not parseable as a number.
#[derive(Debug)]
pub struct LogEntry {
    pub request_type: String,
    pub endpoint_url: String,
    pub status_code: u16,
    pub response_time_ms: u32,
}

} // verus!
