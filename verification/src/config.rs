//! The per-cycle configuration snapshot: sort mode, the six numeric ranges,
//! the optional text pattern, the dedup flag, the frequency range, the scan
//! cutoff and the throttle delay.  A snapshot is immutable for the duration
//! of one cycle.

use vstd::prelude::*;

verus! {

/// The configured ordering for the sorter: one of the six numeric fields,
/// ascending or (`...Inverse`) descending, the frequency-table count,
/// ascending or descending, or no ordering at all.
#[derive(Clone, Copy, PartialEq, Eq, Structural)]
pub enum QueriesSortType {
    Timestamp,
    QueryTime,
    LockTime,
    RowsSent,
    RowsExamined,
    RowsAffected,
    TimestampInverse,
    QueryTimeInverse,
    LockTimeInverse,
    RowsSentInverse,
    RowsExaminedInverse,
    RowsAffectedInverse,
    Count,
    CountInverse,
    Unsorted,
}

/// One cycle's settings.  Each numeric field has an inclusive lower and an
/// exclusive upper bound; the frequency range `[count_min, count_max]` is
/// inclusive at both ends.  `limit` bounds how many sorted candidates the
/// console report scans; `throttle_millis` is the pause the caller owes
/// after each frequency-counting step.
pub struct Config {
    pub sort_type: QueriesSortType,
    pub timestamp_begin: u64,
    pub timestamp_end: u64,
    pub query_time_min: u64,
    pub query_time_max: u64,
    pub lock_time_min: u64,
    pub lock_time_max: u64,
    pub rows_sent_min: u64,
    pub rows_sent_max: u64,
    pub rows_examined_min: u64,
    pub rows_examined_max: u64,
    pub rows_affected_min: u64,
    pub rows_affected_max: u64,
    pub pattern: Option<String>,
    pub dedup: bool,
    pub count_min: usize,
    pub count_max: usize,
    pub limit: usize,
    pub throttle_millis: u64,
}

} // verus!
