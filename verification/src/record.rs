//! One slow-query log entry with its timing and row metrics, and the
//! mathematical model that the contracts speak of.

use vstd::prelude::*;

verus! {

/// One slow-query log record: the query text plus six numeric metrics.
/// Records are immutable once created; the pipeline only copies and
/// reorders them.
pub struct QueryRecord {
    pub query: String,
    pub timestamp: u64,
    pub query_time: u64,
    pub lock_time: u64,
    pub rows_sent: u64,
    pub rows_examined: u64,
    pub rows_affected: u64,
}

/// The mathematical value of a record: the query text as a sequence of
/// characters, the metrics as they are.  Contracts compare records by
/// this model, so a copy with an equal text is the same record.
pub struct RecordModel {
    pub query: Seq<char>,
    pub timestamp: u64,
    pub query_time: u64,
    pub lock_time: u64,
    pub rows_sent: u64,
    pub rows_examined: u64,
    pub rows_affected: u64,
}

impl View for QueryRecord {
    type V = RecordModel;

    open spec fn view(&self) -> RecordModel {
        RecordModel {
            query: self.query@,
            timestamp: self.timestamp,
            query_time: self.query_time,
            lock_time: self.lock_time,
            rows_sent: self.rows_sent,
            rows_examined: self.rows_examined,
            rows_affected: self.rows_affected,
        }
    }
}

impl DeepView for QueryRecord {
    type V = RecordModel;

    open spec fn deep_view(&self) -> RecordModel {
        self@
    }
}

impl Clone for QueryRecord {
    fn clone(&self) -> (r: Self)
        ensures
            r@ == self@,
    {
        QueryRecord {
            query: self.query.clone(),
            timestamp: self.timestamp,
            query_time: self.query_time,
            lock_time: self.lock_time,
            rows_sent: self.rows_sent,
            rows_examined: self.rows_examined,
            rows_affected: self.rows_affected,
        }
    }
}

} // verus!
