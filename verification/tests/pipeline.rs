//! End-to-end and component tests of the processing pipeline.

use slowq::config::{Config, QueriesSortType};
use slowq::dedup::dedup;
use slowq::filter::{filter, record_accepted};
use slowq::freq::FrequencyTable;
use slowq::processing::Processor;
use slowq::record::QueryRecord;

fn rec(text: &str, ts: u64, qt: u64, lt: u64, rs: u64, rx: u64, ra: u64) -> QueryRecord {
    QueryRecord {
        query: text.to_string(),
        timestamp: ts,
        query_time: qt,
        lock_time: lt,
        rows_sent: rs,
        rows_examined: rx,
        rows_affected: ra,
    }
}

fn simple(text: &str, ts: u64) -> QueryRecord {
    rec(text, ts, 1, 1, 1, 1, 1)
}

fn open_config() -> Config {
    Config {
        sort_type: QueriesSortType::Unsorted,
        timestamp_begin: 0,
        timestamp_end: u64::MAX,
        query_time_min: 0,
        query_time_max: u64::MAX,
        lock_time_min: 0,
        lock_time_max: u64::MAX,
        rows_sent_min: 0,
        rows_sent_max: u64::MAX,
        rows_examined_min: 0,
        rows_examined_max: u64::MAX,
        rows_affected_min: 0,
        rows_affected_max: u64::MAX,
        pattern: None,
        dedup: false,
        count_min: 0,
        count_max: usize::MAX,
        limit: usize::MAX,
        throttle_millis: 0,
    }
}

fn same_record(a: &QueryRecord, b: &QueryRecord) -> bool {
    a.query == b.query && a.timestamp == b.timestamp && a.query_time == b.query_time
        && a.lock_time == b.lock_time && a.rows_sent == b.rows_sent
        && a.rows_examined == b.rows_examined && a.rows_affected == b.rows_affected
}

#[test]
fn frequency_counts_full_batch() {
    let mut t = FrequencyTable::new();
    t.record(&"a".to_string());
    t.record(&"b".to_string());
    t.record(&"a".to_string());
    t.record(&"a".to_string());
    assert_eq!(t.get(&"a".to_string()), 3);
    assert_eq!(t.get(&"b".to_string()), 1);
    assert_eq!(t.get(&"c".to_string()), 0);
}

#[test]
fn frequency_table_cleared_per_cycle() {
    let mut t = FrequencyTable::new();
    t.record(&"a".to_string());
    t.clear();
    assert_eq!(t.get(&"a".to_string()), 0);
}

#[test]
fn frequency_counts_unaffected_by_filter_and_dedup() {
    // Counts come from the full raw batch, though dedup and the filter
    // discard records later: the kept "b" record reports count 2.
    let mut cfg = open_config();
    cfg.dedup = true;
    cfg.timestamp_begin = 15;
    let batch = vec![simple("b", 10), simple("b", 20), simple("a", 5)];
    let mut p = Processor::new();
    let (out, _rejected) = p.process(&batch, &cfg);
    let report = p.render_report(&out, &cfg, batch.len());
    assert_eq!(out.len(), 1);
    assert_eq!(report.entries.len(), 1);
    assert_eq!(report.entries[0].record.query, "b");
    assert_eq!(report.entries[0].count, 2);
}

#[test]
fn dedup_keeps_last_occurrence() {
    // Scenario: two records with the same text; dedup keeps the later one.
    let mut cfg = open_config();
    cfg.dedup = true;
    let batch = vec![simple("Q1", 10), simple("Q1", 20)];
    let mut p = Processor::new();
    let (out, _rejected) = p.process(&batch, &cfg);
    assert_eq!(out.len(), 1);
    assert_eq!(out[0].query, "Q1");
    assert_eq!(out[0].timestamp, 20);
}

#[test]
fn dedup_one_record_per_text() {
    let batch = vec![simple("a", 1), simple("b", 2), simple("a", 3)];
    let out = dedup(&batch);
    assert_eq!(out.len(), 2);
    let a = out.iter().find(|q| q.query == "a").unwrap();
    let b = out.iter().find(|q| q.query == "b").unwrap();
    assert_eq!(a.timestamp, 3);
    assert_eq!(b.timestamp, 2);
}

#[test]
fn filter_ranges_reject_and_count_once() {
    let mut cfg = open_config();
    cfg.timestamp_begin = 10;
    cfg.timestamp_end = 20;
    let batch = vec![
        simple("in-low", 10),
        simple("out-high", 20),
        simple("in-mid", 15),
        simple("out-low", 9),
    ];
    let mut rejected: usize = 0;
    let out = filter(&batch, &cfg, &mut rejected);
    assert_eq!(rejected, 2);
    assert_eq!(out.len(), 2);
    assert_eq!(out[0].query, "in-low");
    assert_eq!(out[1].query, "in-mid");
}

#[test]
fn filter_lower_bound_inclusive_upper_exclusive() {
    let mut cfg = open_config();
    cfg.query_time_min = 5;
    cfg.query_time_max = 7;
    assert!(record_accepted(&cfg, &rec("q", 1, 5, 1, 1, 1, 1)));
    assert!(record_accepted(&cfg, &rec("q", 1, 6, 1, 1, 1, 1)));
    assert!(!record_accepted(&cfg, &rec("q", 1, 7, 1, 1, 1, 1)));
    assert!(!record_accepted(&cfg, &rec("q", 1, 4, 1, 1, 1, 1)));
}

#[test]
fn filter_pattern_scenario() {
    // Scenario: with pattern "DELETE", only the DELETE query survives even
    // though both records satisfy every range.
    let mut cfg = open_config();
    cfg.pattern = Some("DELETE".to_string());
    let batch = vec![simple("SELECT * FROM t", 1), simple("DELETE FROM t WHERE id = 1", 2)];
    let mut rejected: usize = 0;
    let out = filter(&batch, &cfg, &mut rejected);
    assert_eq!(out.len(), 1);
    assert_eq!(out[0].query, "DELETE FROM t WHERE id = 1");
    assert_eq!(rejected, 1);
}

#[test]
fn filter_pattern_is_a_regex() {
    let mut cfg = open_config();
    cfg.pattern = Some("^SELECT .*t$".to_string());
    assert!(record_accepted(&cfg, &simple("SELECT * FROM t", 1)));
    assert!(!record_accepted(&cfg, &simple("INSERT INTO t SELECT x", 1)));
}

#[test]
fn filter_range_failure_counts_once_with_pattern_configured() {
    let mut cfg = open_config();
    cfg.pattern = Some("DELETE".to_string());
    cfg.timestamp_begin = 100;
    // Fails the range and would fail the pattern too: one rejection.
    let batch = vec![simple("SELECT 1", 1)];
    let mut rejected: usize = 0;
    let out = filter(&batch, &cfg, &mut rejected);
    assert_eq!(out.len(), 0);
    assert_eq!(rejected, 1);
}

#[test]
fn sort_timestamp_ascending() {
    let mut cfg = open_config();
    cfg.sort_type = QueriesSortType::Timestamp;
    let batch = vec![simple("a", 30), simple("b", 10), simple("c", 20)];
    let mut p = Processor::new();
    let (out, _) = p.process(&batch, &cfg);
    let ts: Vec<u64> = out.iter().map(|q| q.timestamp).collect();
    assert_eq!(ts, vec![10, 20, 30]);
}

#[test]
fn sort_timestamp_descending() {
    let mut cfg = open_config();
    cfg.sort_type = QueriesSortType::TimestampInverse;
    let batch = vec![simple("a", 30), simple("b", 10), simple("c", 20)];
    let mut p = Processor::new();
    let (out, _) = p.process(&batch, &cfg);
    let ts: Vec<u64> = out.iter().map(|q| q.timestamp).collect();
    assert_eq!(ts, vec![30, 20, 10]);
}

#[test]
fn sort_rows_examined_ascending() {
    let mut cfg = open_config();
    cfg.sort_type = QueriesSortType::RowsExamined;
    let batch = vec![
        rec("a", 1, 1, 1, 1, 50, 1),
        rec("b", 1, 1, 1, 1, 5, 1),
        rec("c", 1, 1, 1, 1, 20, 1),
    ];
    let mut p = Processor::new();
    let (out, _) = p.process(&batch, &cfg);
    let rx: Vec<u64> = out.iter().map(|q| q.rows_examined).collect();
    assert_eq!(rx, vec![5, 20, 50]);
}

#[test]
fn sort_is_stable_on_equal_keys() {
    let mut cfg = open_config();
    cfg.sort_type = QueriesSortType::QueryTime;
    // Equal query times: entry order must be kept.
    let batch = vec![simple("first", 1), simple("second", 2), simple("third", 3)];
    let mut p = Processor::new();
    let (out, _) = p.process(&batch, &cfg);
    let names: Vec<&str> = out.iter().map(|q| q.query.as_str()).collect();
    assert_eq!(names, vec!["first", "second", "third"]);
}

#[test]
fn unsorted_mode_keeps_order() {
    let cfg = open_config();
    let batch = vec![simple("z", 9), simple("a", 1), simple("m", 5)];
    let mut p = Processor::new();
    let (out, _) = p.process(&batch, &cfg);
    let names: Vec<&str> = out.iter().map(|q| q.query.as_str()).collect();
    assert_eq!(names, vec!["z", "a", "m"]);
}

#[test]
fn sort_frequency_override_discards_field_order() {
    // Count mode: field values play no role; order is by frequency.
    let mut cfg = open_config();
    cfg.sort_type = QueriesSortType::Count;
    let batch = vec![
        simple("thrice", 1),
        simple("thrice", 2),
        simple("once", 100),
        simple("thrice", 3),
        simple("twice", 50),
        simple("twice", 60),
    ];
    let mut p = Processor::new();
    let (out, _) = p.process(&batch, &cfg);
    let names: Vec<&str> = out.iter().map(|q| q.query.as_str()).collect();
    assert_eq!(names, vec!["once", "twice", "twice", "thrice", "thrice", "thrice"]);
}

#[test]
fn sort_frequency_descending() {
    let mut cfg = open_config();
    cfg.sort_type = QueriesSortType::CountInverse;
    cfg.dedup = true;
    let batch = vec![
        simple("once", 1),
        simple("twice", 2),
        simple("twice", 3),
        simple("thrice", 4),
        simple("thrice", 5),
        simple("thrice", 6),
    ];
    let mut p = Processor::new();
    let (out, _) = p.process(&batch, &cfg);
    let names: Vec<&str> = out.iter().map(|q| q.query.as_str()).collect();
    assert_eq!(names, vec!["thrice", "twice", "once"]);
}

#[test]
fn cycle_idempotent_without_dedup() {
    let mut cfg = open_config();
    cfg.sort_type = QueriesSortType::Count;
    cfg.timestamp_end = 100;
    let batch = vec![simple("a", 5), simple("b", 200), simple("a", 7), simple("c", 9)];
    let mut p1 = Processor::new();
    let (out1, rej1) = p1.process(&batch, &cfg);
    let mut p2 = Processor::new();
    let (out2, rej2) = p2.process(&batch, &cfg);
    assert_eq!(rej1, rej2);
    assert_eq!(out1.len(), out2.len());
    for (a, b) in out1.iter().zip(out2.iter()) {
        assert!(same_record(a, b));
    }
}

#[test]
fn scenario_count_range_eligibility() {
    // Three distinct texts with frequencies 1, 2 and 3; count range [2, 10]
    // and cutoff 5: only the texts counted 2 and 3 are printed.
    let mut cfg = open_config();
    cfg.dedup = true;
    cfg.count_min = 2;
    cfg.count_max = 10;
    cfg.limit = 5;
    let batch = vec![
        simple("once", 1),
        simple("twice", 2),
        simple("twice", 3),
        simple("thrice", 4),
        simple("thrice", 5),
        simple("thrice", 6),
    ];
    let mut p = Processor::new();
    let (out, _) = p.process(&batch, &cfg);
    assert_eq!(out.len(), 3);
    let report = p.render_report(&out, &cfg, batch.len());
    assert_eq!(report.entries.len(), 2);
    let mut printed: Vec<(String, usize)> =
        report.entries.iter().map(|e| (e.record.query.clone(), e.count)).collect();
    printed.sort();
    assert_eq!(printed, vec![("thrice".to_string(), 3), ("twice".to_string(), 2)]);
    assert_eq!(report.total, 6);
}

#[test]
fn report_count_range_is_inclusive() {
    let mut cfg = open_config();
    cfg.count_min = 2;
    cfg.count_max = 2;
    let batch = vec![simple("a", 1), simple("a", 2), simple("b", 3)];
    let mut p = Processor::new();
    let (out, _) = p.process(&batch, &cfg);
    let report = p.render_report(&out, &cfg, batch.len());
    // Both "a" records are scanned and counted 2; "b" is counted 1.
    assert_eq!(report.entries.len(), 2);
    assert_eq!(report.entries[0].record.query, "a");
    assert_eq!(report.entries[1].record.query, "a");
}

#[test]
fn report_cutoff_bounds_scanned_candidates() {
    let mut cfg = open_config();
    cfg.limit = 2;
    let batch = vec![
        simple("a", 1),
        simple("b", 2),
        simple("c", 3),
        simple("d", 4),
        simple("e", 5),
    ];
    let mut p = Processor::new();
    let (out, _) = p.process(&batch, &cfg);
    assert_eq!(out.len(), 5);
    let report = p.render_report(&out, &cfg, batch.len());
    // Indices 0, 1 and 2 are scanned; the scan stops once the index
    // reaches the cutoff.
    assert_eq!(report.entries.len(), 3);
    assert_eq!(report.entries[0].rank, 1);
    assert_eq!(report.entries[1].rank, 2);
    assert_eq!(report.entries[2].rank, 3);
    // Two candidates were truncated by the cutoff.
    assert_eq!(report.filtered, 2);
    assert_eq!(report.total, 5);
}

#[test]
fn report_filtered_combines_rejections_and_cutoff() {
    let mut cfg = open_config();
    cfg.timestamp_end = 100;
    cfg.limit = 1;
    let batch = vec![
        simple("a", 1),
        simple("rejected", 500),
        simple("b", 2),
        simple("c", 3),
    ];
    let mut p = Processor::new();
    let (out, rejected) = p.process(&batch, &cfg);
    assert_eq!(rejected, 1);
    assert_eq!(out.len(), 3);
    let report = p.render_report(&out, &cfg, batch.len());
    // One record rejected by the filter, one truncated by the cutoff.
    assert_eq!(report.filtered, 2);
    assert_eq!(report.total, 4);
}

#[test]
fn report_omits_filtered_line_when_nothing_excluded() {
    let cfg = open_config();
    let batch = vec![simple("a", 1), simple("b", 2)];
    let mut p = Processor::new();
    let (out, rejected) = p.process(&batch, &cfg);
    assert_eq!(rejected, 0);
    let report = p.render_report(&out, &cfg, batch.len());
    assert_eq!(report.filtered, 0);
    assert_eq!(report.entries.len(), 2);
}

#[test]
fn empty_batch_cycle() {
    let cfg = open_config();
    let batch: Vec<QueryRecord> = Vec::new();
    let mut p = Processor::new();
    let (out, rejected) = p.process(&batch, &cfg);
    assert_eq!(out.len(), 0);
    assert_eq!(rejected, 0);
    let report = p.render_report(&out, &cfg, batch.len());
    assert_eq!(report.entries.len(), 0);
    assert_eq!(report.total, 0);
    assert_eq!(report.filtered, 0);
}

#[test]
fn stepwise_cycle_matches_process() {
    // The stepped interface (used when the caller pauses for the throttle
    // delay between counting steps) gives the same outcome as one call.
    let mut cfg = open_config();
    cfg.sort_type = QueriesSortType::Count;
    let batch = vec![simple("a", 1), simple("b", 2), simple("a", 3)];
    let mut p1 = Processor::new();
    p1.begin_cycle();
    for q in batch.iter() {
        p1.count_record(q);
    }
    let (out1, rej1) = p1.finish_cycle(&batch, &cfg);
    let mut p2 = Processor::new();
    let (out2, rej2) = p2.process(&batch, &cfg);
    assert_eq!(rej1, rej2);
    assert_eq!(out1.len(), out2.len());
    for (a, b) in out1.iter().zip(out2.iter()) {
        assert!(same_record(a, b));
    }
}

#[test]
fn report_skipped_candidate_still_consumes_scan_index() {
    // A candidate outside the count range prints nothing but still uses up
    // one scanned index; the next candidate keeps its positional rank.
    let mut cfg = open_config();
    cfg.count_min = 2;
    cfg.count_max = 10;
    cfg.limit = 1;
    let batch = vec![simple("a", 1), simple("b", 2), simple("b", 3), simple("c", 4)];
    let mut p = Processor::new();
    let (out, _) = p.process(&batch, &cfg);
    assert_eq!(out.len(), 4);
    let report = p.render_report(&out, &cfg, batch.len());
    // Indices 0 and 1 are scanned: "a" (count 1) is skipped, the first "b"
    // (count 2) is printed with rank 2.
    assert_eq!(report.entries.len(), 1);
    assert_eq!(report.entries[0].record.query, "b");
    assert_eq!(report.entries[0].rank, 2);
    // Two sorted candidates were never scanned.
    assert_eq!(report.filtered, 2);
}

#[test]
fn report_cutoff_zero_scans_one_candidate() {
    let mut cfg = open_config();
    cfg.limit = 0;
    let batch = vec![simple("a", 1), simple("b", 2)];
    let mut p = Processor::new();
    let (out, _) = p.process(&batch, &cfg);
    let report = p.render_report(&out, &cfg, batch.len());
    assert_eq!(report.entries.len(), 1);
    assert_eq!(report.entries[0].record.query, "a");
    assert_eq!(report.entries[0].rank, 1);
    assert_eq!(report.filtered, 1);
}
