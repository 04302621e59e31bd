//! The filter: six numeric range checks, then the optional text pattern,
//! with exact-once accounting of rejected records.

use vstd::prelude::*;
use crate::config::Config;
use crate::pattern::{pattern_found, regex_found};
use crate::record::{QueryRecord, RecordModel};

verus! {

/// All six numeric fields lie in their configured half-open range.
pub open spec fn in_ranges(cfg: Config, r: RecordModel) -> bool {
    &&& cfg.timestamp_begin <= r.timestamp
    &&& r.timestamp < cfg.timestamp_end
    &&& cfg.query_time_min <= r.query_time
    &&& r.query_time < cfg.query_time_max
    &&& cfg.lock_time_min <= r.lock_time
    &&& r.lock_time < cfg.lock_time_max
    &&& cfg.rows_sent_min <= r.rows_sent
    &&& r.rows_sent < cfg.rows_sent_max
    &&& cfg.rows_examined_min <= r.rows_examined
    &&& r.rows_examined < cfg.rows_examined_max
    &&& cfg.rows_affected_min <= r.rows_affected
    &&& r.rows_affected < cfg.rows_affected_max
}

/// The filter accepts a record when every range passes, and either no pattern is
/// configured or the pattern matches the query text.
pub open spec fn accepts(cfg: Config, r: RecordModel) -> bool {
    in_ranges(cfg, r) && match cfg.pattern {
        Option::Some(p) => regex_found(p@, r.query),
        Option::None => true,
    }
}

/// Exec check of the six ranges alone.
fn in_ranges_exec(cfg: &Config, q: &QueryRecord) -> (r: bool)
    ensures
        r == in_ranges(*cfg, q@),
{
    q.timestamp >= cfg.timestamp_begin && q.timestamp < cfg.timestamp_end && q.query_time
        >= cfg.query_time_min && q.query_time < cfg.query_time_max && q.lock_time
        >= cfg.lock_time_min && q.lock_time < cfg.lock_time_max && q.rows_sent
        >= cfg.rows_sent_min && q.rows_sent < cfg.rows_sent_max && q.rows_examined
        >= cfg.rows_examined_min && q.rows_examined < cfg.rows_examined_max && q.rows_affected
        >= cfg.rows_affected_min && q.rows_affected < cfg.rows_affected_max
}

/// Exec check of the full acceptance predicate for one record.
pub fn record_accepted(cfg: &Config, q: &QueryRecord) -> (r: bool)
    ensures
        r == accepts(*cfg, q@),
{
    if !in_ranges_exec(cfg, q) {
        return false;
    }
    match &cfg.pattern {
        Option::Some(p) => pattern_found(p.as_str(), q.query.as_str()),
        Option::None => true,
    }
}

/// Keep exactly the accepted records, in their input order, and
/// raise the shared rejection counter by one for each rejected record.
pub fn filter(qq: &Vec<QueryRecord>, cfg: &Config, mapflt: &mut usize) -> (out: Vec<QueryRecord>)
    requires
        *old(mapflt) + qq@.len() <= usize::MAX,
    ensures
        out.deep_view() == qq.deep_view().filter(|r: RecordModel| accepts(*cfg, r)),
        out@.len() <= qq@.len(),
        *final(mapflt) == *old(mapflt) + (qq@.len() - out@.len()),
{
    broadcast use vstd::prelude::Seq::lemma_take_succ_push;
    broadcast use vstd::prelude::Seq::lemma_filter_push;
    broadcast use vstd::prelude::Seq::lemma_take_len;

    let ghost pred = |r: RecordModel| accepts(*cfg, r);
    let mut out: Vec<QueryRecord> = Vec::new();
    let n = qq.len();
    let mut i: usize = 0;
    proof {
        assert(qq.deep_view().take(0) =~= Seq::<RecordModel>::empty());
        assert(out.deep_view() =~= Seq::<RecordModel>::empty().filter(pred)) by {
            Seq::<RecordModel>::empty().lemma_filter_len(pred);
        }
    }
    while i < n
        invariant
            n == qq@.len(),
            0 <= i <= n,
            *old(mapflt) + qq@.len() <= usize::MAX,
            out.deep_view() == qq.deep_view().take(i as int).filter(pred),
            out@.len() <= i,
            *mapflt == *old(mapflt) + (i - out@.len()),
            pred == (|r: RecordModel| accepts(*cfg, r)),
        decreases n - i,
    {
        let ghost prefix = qq.deep_view().take(i as int);
        let q = &qq[i];
        proof {
            assert(qq.deep_view()[i as int] == q@);
            assert(qq.deep_view().take(i + 1) == prefix.push(q@));
        }
        if record_accepted(cfg, q) {
            out.push(q.clone());
            proof {
                assert(pred(q@));
                prefix.lemma_filter_push(q@, pred);
                assert(out.deep_view() =~= prefix.filter(pred).push(q@));
            }
        } else {
            *mapflt = *mapflt + 1;
            proof {
                assert(!pred(q@));
                prefix.lemma_filter_push(q@, pred);
            }
        }
        i += 1;
    }
    proof {
        assert(qq.deep_view().take(n as int) == qq.deep_view());
    }
    out
}

/// The records of `s` the filter accepts, in their input order.
pub open spec fn accepted_of(s: Seq<RecordModel>, cfg: Config) -> Seq<RecordModel> {
    s.filter(|r: RecordModel| accepts(cfg, r))
}

/// A record appears in the filtered output exactly when the filter accepts
/// it: every output record is accepted, and every accepted input record is
/// in the output.  The rejection count is the filter's other ensures: one
/// increment per record the output lacks.
pub proof fn lemma_filter_membership(s: Seq<RecordModel>, cfg: Config)
    ensures
        forall|i: int|
            0 <= i < accepted_of(s, cfg).len() ==> accepts(
                cfg,
                #[trigger] accepted_of(s, cfg)[i],
            ),
        forall|i: int|
            0 <= i < s.len() && accepts(cfg, #[trigger] s[i]) ==> accepted_of(s, cfg).contains(
                s[i],
            ),
{
    let p = |r: RecordModel| accepts(cfg, r);
    assert forall|i: int| 0 <= i < accepted_of(s, cfg).len() implies accepts(
        cfg,
        accepted_of(s, cfg)[i],
    ) by {
        s.lemma_filter_pred(p, i);
    }
    assert forall|i: int| 0 <= i < s.len() && accepts(cfg, s[i]) implies accepted_of(
        s,
        cfg,
    ).contains(s[i]) by {
        s.lemma_filter_contains(p, i);
    }
}

} // verus!
