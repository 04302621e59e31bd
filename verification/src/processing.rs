//! The orchestrator: one full processing cycle over a batch of records —
//! frequency counting, optional dedup, filtering with rejection accounting,
//! the two sorting stages, and the console-report bookkeeping.

use vstd::prelude::*;
use crate::config::{Config, QueriesSortType};
use crate::dedup::{dedup, dedup_spec, lemma_dedup_last_occurrence};
use crate::filter::{accepts, filter};
use crate::freq::{
    count_of, freq_map_of, lemma_count_of_freq_map, lemma_freq_map_empty, lemma_freq_map_push,
    lemma_occurrences_le_len, occurrences, FrequencyTable,
};
use crate::record::{QueryRecord, RecordModel};
use crate::sort::{
    lemma_sort_spec_constant_key, lemma_sort_spec_props, record_le, sort, sort_spec, sorted_by_key,
    SortStage,
};

verus! {

/// The records a cycle keeps, before sorting: the batch, deduplicated when
/// the flag is set, then filtered.
pub open spec fn kept_spec(batch: Seq<RecordModel>, cfg: Config) -> Seq<RecordModel> {
    let base = if cfg.dedup {
        dedup_spec(batch)
    } else {
        batch
    };
    base.filter(|r: RecordModel| accepts(cfg, r))
}

/// How many records the filter rejects during a cycle.
pub open spec fn rejected_spec(batch: Seq<RecordModel>, cfg: Config) -> int {
    let base = if cfg.dedup {
        dedup_spec(batch)
    } else {
        batch
    };
    base.len() - base.filter(|r: RecordModel| accepts(cfg, r)).len()
}

/// One whole cycle as a function of the batch and the configuration: count
/// frequencies over the full raw batch, dedup when configured, filter,
/// field-sort, then apply the frequency override.  Running the cycle twice
/// on the same input and configuration gives this same value both times.
pub open spec fn cycle_spec(batch: Seq<RecordModel>, cfg: Config) -> Seq<RecordModel> {
    let freqs = freq_map_of(batch);
    let stage1 = sort_spec(SortStage::Field, cfg.sort_type, freqs, kept_spec(batch, cfg));
    sort_spec(SortStage::Frequency, cfg.sort_type, freqs, stage1)
}

/// One line of the console report: the candidate's rank among the sorted
/// survivors, the record, and its frequency count.
pub struct ReportEntry {
    pub rank: usize,
    pub record: QueryRecord,
    pub count: usize,
}

/// The mathematical value of a report line.
pub struct EntryModel {
    pub rank: int,
    pub record: RecordModel,
    pub count: nat,
}

impl View for ReportEntry {
    type V = EntryModel;

    open spec fn view(&self) -> EntryModel {
        EntryModel { rank: self.rank as int, record: self.record@, count: self.count as nat }
    }
}

impl DeepView for ReportEntry {
    type V = EntryModel;

    open spec fn deep_view(&self) -> EntryModel {
        self@
    }
}

/// The console-mode outcome: the lines to print, the raw batch size, and
/// the combined count of records excluded by filtering, dedup or cutoff.
pub struct Report {
    pub entries: Vec<ReportEntry>,
    pub total: usize,
    pub filtered: usize,
}

/// How many sorted candidates the console scan visits: all of them, or
/// `limit + 1` when the list is longer (the scan stops after index
/// `limit`).
pub open spec fn scanned_spec(len: int, limit: int) -> int {
    if len <= limit {
        len
    } else {
        limit + 1
    }
}

/// The report lines produced by scanning the first `n` sorted candidates:
/// one line per candidate whose count lies in `[count_min, count_max]`,
/// ranked by its scan position.
pub open spec fn entries_upto(
    results: Seq<RecordModel>,
    freqs: Map<Seq<char>, nat>,
    cfg: Config,
    n: int,
) -> Seq<EntryModel>
    decreases n,
{
    if n <= 0 {
        Seq::<EntryModel>::empty()
    } else {
        let pre = entries_upto(results, freqs, cfg, n - 1);
        let r = results[n - 1];
        let c = count_of(freqs, r.query);
        if cfg.count_min <= c && c <= cfg.count_max {
            pre.push(EntryModel { rank: n, record: r, count: c })
        } else {
            pre
        }
    }
}

/// All report lines of a cycle.
pub open spec fn report_entries_spec(
    results: Seq<RecordModel>,
    freqs: Map<Seq<char>, nat>,
    cfg: Config,
) -> Seq<EntryModel> {
    entries_upto(results, freqs, cfg, scanned_spec(results.len() as int, cfg.limit as int))
}

/// The FILTERED summary: records excluded by filtering or dedup collapsing
/// plus records the scan cutoff truncated.
pub open spec fn filtered_total_spec(raw_len: int, results_len: int, limit: int) -> int {
    (raw_len - results_len) + (if results_len > limit {
        results_len - limit - 1
    } else {
        0
    })
}

/// The processor drives one cycle at a time and owns the frequency table
/// it rebuilds from each cycle's full raw batch.
pub struct Processor {
    table: FrequencyTable,
}

impl Processor {
    /// The frequency table's current contents.
    pub closed spec fn freqs(&self) -> Map<Seq<char>, nat> {
        self.table@
    }

    pub closed spec fn wf(&self) -> bool {
        self.table.wf()
    }

    pub fn new() -> (p: Self)
        ensures
            p.wf(),
            p.freqs() == Map::<Seq<char>, nat>::empty(),
    {
        Processor { table: FrequencyTable::new() }
    }

    /// Start a cycle: the frequency table is reset before counting.
    pub fn begin_cycle(&mut self)
        ensures
            final(self).wf(),
            final(self).freqs() == Map::<Seq<char>, nat>::empty(),
    {
        self.table.clear();
    }

    /// One counting step: raise the record's text by one.  The caller may
    /// pause for the configured throttle delay between steps; counting is
    /// not affected by it.
    pub fn count_record(&mut self, q: &QueryRecord)
        requires
            old(self).wf(),
            count_of(old(self).freqs(), q@.query) < usize::MAX,
        ensures
            final(self).wf(),
            final(self).freqs() == old(self).freqs().insert(
                q@.query,
                (count_of(old(self).freqs(), q@.query) + 1) as nat,
            ),
    {
        self.table.record(&q.query);
    }

    /// The rest of the cycle, once the table holds the full batch's counts:
    /// dedup when configured, filter, field sort, frequency override.
    /// Returns the final list and the filter's rejection count.  The table
    /// is read, never changed: later stages do not affect the counts.
    pub fn finish_cycle(&self, qq: &Vec<QueryRecord>, cfg: &Config) -> (out: (
        Vec<QueryRecord>,
        usize,
    ))
        requires
            self.wf(),
            self.freqs() == freq_map_of(qq.deep_view()),
        ensures
            out.0.deep_view() == cycle_spec(qq.deep_view(), *cfg),
            out.1 as int == rejected_spec(qq.deep_view(), *cfg),
    {
        let mut mapflt: usize = 0;
        let mut new_qq = if cfg.dedup {
            let dd = dedup(qq);
            proof {
                vstd::std_specs::vec::axiom_spec_len(&dd);
            }
            filter(&dd, cfg, &mut mapflt)
        } else {
            proof {
                vstd::std_specs::vec::axiom_spec_len(qq);
            }
            filter(qq, cfg, &mut mapflt)
        };
        proof {
            assert(new_qq.deep_view() == kept_spec(qq.deep_view(), *cfg));
        }
        sort(&mut new_qq, SortStage::Field, cfg.sort_type, &self.table);
        sort(&mut new_qq, SortStage::Frequency, cfg.sort_type, &self.table);
        (new_qq, mapflt)
    }

    /// One whole cycle: rebuild the frequency table over the full raw
    /// batch, then finish.  The batch itself is only read; clearing it for
    /// the next cycle is the caller's step.
    pub fn process(&mut self, qq: &Vec<QueryRecord>, cfg: &Config) -> (out: (
        Vec<QueryRecord>,
        usize,
    ))
        ensures
            final(self).wf(),
            final(self).freqs() == freq_map_of(qq.deep_view()),
            out.0.deep_view() == cycle_spec(qq.deep_view(), *cfg),
            out.1 as int == rejected_spec(qq.deep_view(), *cfg),
    {
        broadcast use vstd::prelude::Seq::lemma_take_succ_push;
        broadcast use vstd::prelude::Seq::lemma_take_len;

        self.begin_cycle();
        proof {
            lemma_freq_map_empty();
            assert(qq.deep_view().take(0) =~= Seq::<RecordModel>::empty());
        }
        let n = qq.len();
        let mut i: usize = 0;
        while i < n
            invariant
                self.wf(),
                n == qq@.len(),
                0 <= i <= n,
                self.freqs() == freq_map_of(qq.deep_view().take(i as int)),
            decreases n - i,
        {
            let ghost prefix = qq.deep_view().take(i as int);
            let q = &qq[i];
            proof {
                assert(qq.deep_view()[i as int] == q@);
                assert(qq.deep_view().take(i + 1) == prefix.push(q@));
                lemma_occurrences_le_len(prefix, q@.query);
                lemma_count_of_freq_map(prefix, q@.query);
            }
            self.count_record(q);
            proof {
                lemma_freq_map_push(prefix, q@);
            }
            i += 1;
        }
        proof {
            assert(qq.deep_view().take(n as int) == qq.deep_view());
        }
        self.finish_cycle(qq, cfg)
    }

    /// The console-mode report over the cycle's final list: scan the sorted
    /// candidates up to the cutoff, print one ranked line per candidate
    /// whose count lies in the frequency range, the raw batch size as the
    /// total, and the combined excluded count.
    pub fn render_report(&self, results: &Vec<QueryRecord>, cfg: &Config, raw_len: usize) -> (rep:
        Report)
        requires
            self.wf(),
            results@.len() <= raw_len,
        ensures
            rep.entries.deep_view() == report_entries_spec(
                results.deep_view(),
                self.freqs(),
                *cfg,
            ),
            rep.total == raw_len,
            rep.filtered as int == filtered_total_spec(
                raw_len as int,
                results@.len() as int,
                cfg.limit as int,
            ),
    {
        let mut entries: Vec<ReportEntry> = Vec::new();
        let n = results.len();
        let scan_end = if cfg.limit >= n {
            n
        } else {
            cfg.limit + 1
        };
        proof {
            assert(entries.deep_view() =~= entries_upto(
                results.deep_view(),
                self.freqs(),
                *cfg,
                0,
            ));
        }
        let mut i: usize = 0;
        while i < scan_end
            invariant
                self.wf(),
                n == results@.len(),
                scan_end as int == scanned_spec(n as int, cfg.limit as int),
                scan_end <= n,
                0 <= i <= scan_end,
                entries.deep_view() == entries_upto(
                    results.deep_view(),
                    self.freqs(),
                    *cfg,
                    i as int,
                ),
            decreases scan_end - i,
        {
            let q = &results[i];
            proof {
                assert(results.deep_view()[i as int] == q@);
            }
            let c = self.table.get(&q.query);
            if c >= cfg.count_min && c <= cfg.count_max {
                entries.push(ReportEntry { rank: i + 1, record: q.clone(), count: c });
                proof {
                    assert(entries.deep_view() =~= entries_upto(
                        results.deep_view(),
                        self.freqs(),
                        *cfg,
                        i as int,
                    ).push(EntryModel { rank: i + 1, record: q@, count: c as nat }));
                }
            }
            i += 1;
        }
        let truncated = if n > cfg.limit {
            n - cfg.limit - 1
        } else {
            0
        };
        let filtered = (raw_len - n) + truncated;
        Report { entries, total: raw_len, filtered }
    }
}

/// Idempotence: a cycle's outcome is a function of the immutable batch and
/// configuration alone — `process` ensures its output equals
/// `cycle_spec(batch, cfg)` — so two runs over the same batch and the same
/// configuration yield identical output.
pub proof fn lemma_cycle_deterministic(
    batch: Seq<RecordModel>,
    cfg: Config,
    out1: Seq<RecordModel>,
    out2: Seq<RecordModel>,
)
    requires
        out1 == cycle_spec(batch, cfg),
        out2 == cycle_spec(batch, cfg),
    ensures
        out1 == out2,
{
}

/// A record with a query text at index `i` witnesses a positive occurrence
/// count for that text.
proof fn lemma_member_occurrences(s: Seq<RecordModel>, i: int)
    requires
        0 <= i < s.len(),
    ensures
        occurrences(s, s[i].query) > 0,
{
    let t = s[i].query;
    let p = |r: RecordModel| r.query == t;
    s.lemma_filter_contains(p, i);
}

/// Every record the cycle emits occurs in the raw batch, so the frequency
/// table built over the full batch holds its text: the table's domain is a
/// superset of any later stage's output, and every frequency lookup during
/// sorting and reporting succeeds.
pub proof fn lemma_cycle_output_counted(batch: Seq<RecordModel>, cfg: Config)
    ensures
        forall|j: int|
            0 <= j < cycle_spec(batch, cfg).len() ==> occurrences(
                batch,
                #[trigger] cycle_spec(batch, cfg)[j].query,
            ) > 0,
{
    let freqs = freq_map_of(batch);
    let base = if cfg.dedup {
        dedup_spec(batch)
    } else {
        batch
    };
    let p = |r: RecordModel| accepts(cfg, r);
    let kept = kept_spec(batch, cfg);
    let stage1 = sort_spec(SortStage::Field, cfg.sort_type, freqs, kept);
    let out = cycle_spec(batch, cfg);
    lemma_sort_spec_props(SortStage::Field, cfg.sort_type, freqs, kept);
    lemma_sort_spec_props(SortStage::Frequency, cfg.sort_type, freqs, stage1);
    assert forall|j: int| 0 <= j < out.len() implies occurrences(batch, out[j].query) > 0 by {
        let r = out[j];
        out.to_multiset_ensures();
        stage1.to_multiset_ensures();
        kept.to_multiset_ensures();
        assert(out.contains(r));
        assert(out.to_multiset().count(r) > 0);
        assert(out.to_multiset() == kept.to_multiset());
        assert(kept.to_multiset().count(r) > 0);
        assert(kept.contains(r));
        base.lemma_filter_contains_rev(p, r);
        let i = base.lemma_contains_to_index(r);
        if cfg.dedup {
            lemma_dedup_last_occurrence(batch);
            let w = choose|w: int|
                0 <= w < batch.len() && batch[w] == base[i] && forall|k: int|
                    w < k < batch.len() ==> batch[k].query != base[i].query;
            lemma_member_occurrences(batch, w);
        } else {
            lemma_member_occurrences(batch, i);
        }
    }
}

/// The cycle's output is ordered by both stage keys: by the frequency count
/// when a frequency mode is configured (the override discards the field
/// order entirely), and by the configured field otherwise; descending
/// modes order by the negated key, so their field values never increase.
pub proof fn lemma_cycle_output_sorted(batch: Seq<RecordModel>, cfg: Config)
    ensures
        sorted_by_key(
            SortStage::Frequency,
            cfg.sort_type,
            freq_map_of(batch),
            cycle_spec(batch, cfg),
        ),
        sorted_by_key(SortStage::Field, cfg.sort_type, freq_map_of(batch), cycle_spec(batch, cfg)),
{
    let freqs = freq_map_of(batch);
    let kept = kept_spec(batch, cfg);
    let stage1 = sort_spec(SortStage::Field, cfg.sort_type, freqs, kept);
    lemma_sort_spec_props(SortStage::Field, cfg.sort_type, freqs, kept);
    lemma_sort_spec_props(SortStage::Frequency, cfg.sort_type, freqs, stage1);
    match cfg.sort_type {
        QueriesSortType::Count | QueriesSortType::CountInverse | QueriesSortType::Unsorted => {
            assert(sorted_by_key(
                SortStage::Field,
                cfg.sort_type,
                freqs,
                cycle_spec(batch, cfg),
            )) by {
                assert forall|a: RecordModel, b: RecordModel| record_le(
                    SortStage::Field,
                    cfg.sort_type,
                    freqs,
                    a,
                    b,
                ) by {}
            }
        },
        _ => {
            assert forall|a: RecordModel, b: RecordModel| record_le(
                SortStage::Frequency,
                cfg.sort_type,
                freqs,
                a,
                b,
            ) by {}
            lemma_sort_spec_constant_key(SortStage::Frequency, cfg.sort_type, freqs, stage1);
        },
    }
}

} // verus!
