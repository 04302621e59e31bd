//! The deduplicator: collapse records that share a query text to a single
//! representative, the last occurrence in input order.

use vstd::prelude::*;
use crate::record::{QueryRecord, RecordModel};

verus! {

/// Some record of `s` carries the query text `t`.
pub open spec fn has_query(s: Seq<RecordModel>, t: Seq<char>) -> bool {
    exists|i: int| 0 <= i < s.len() && s[i].query == t
}

/// The index of a record of `s` carrying `t` (unique when `s` has pairwise
/// distinct texts).
pub open spec fn query_index(s: Seq<RecordModel>, t: Seq<char>) -> int {
    choose|i: int| 0 <= i < s.len() && s[i].query == t
}

/// No two records of `s` share a query text.
pub open spec fn unique_queries(s: Seq<RecordModel>) -> bool {
    forall|i: int, j: int| 0 <= i < j < s.len() ==> s[i].query != s[j].query
}

/// The deduplicated batch: scan the input in order; a record whose text was
/// already seen overwrites the earlier representative in place, otherwise
/// it is appended.  Each text keeps one record: its last occurrence.
pub open spec fn dedup_spec(s: Seq<RecordModel>) -> Seq<RecordModel>
    decreases s.len(),
{
    if s.len() == 0 {
        Seq::<RecordModel>::empty()
    } else {
        let d = dedup_spec(s.drop_last());
        let x = s.last();
        if has_query(d, x.query) {
            d.update(query_index(d, x.query), x)
        } else {
            d.push(x)
        }
    }
}

/// Dedup keeps exactly the input's set of query texts, one record each.
pub proof fn lemma_dedup_unique(s: Seq<RecordModel>)
    ensures
        unique_queries(dedup_spec(s)),
        forall|t: Seq<char>| has_query(dedup_spec(s), t) == has_query(s, t),
    decreases s.len(),
{
    if s.len() == 0 {
    } else {
        let s0 = s.drop_last();
        let x = s.last();
        let d0 = dedup_spec(s0);
        let d = dedup_spec(s);
        lemma_dedup_unique(s0);
        if has_query(d0, x.query) {
            let m = query_index(d0, x.query);
            assert(0 <= m < d0.len() && d0[m].query == x.query);
            assert(unique_queries(d)) by {
                assert forall|i: int, j: int| 0 <= i < j < d.len() implies d[i].query
                    != d[j].query by {
                    assert(d[i] == if i == m {
                        x
                    } else {
                        d0[i]
                    });
                    assert(d[j] == if j == m {
                        x
                    } else {
                        d0[j]
                    });
                }
            }
        } else {
            assert(unique_queries(d)) by {
                assert forall|i: int, j: int| 0 <= i < j < d.len() implies d[i].query
                    != d[j].query by {
                    if j < d0.len() {
                        assert(d[i] == d0[i] && d[j] == d0[j]);
                    } else {
                        assert(d[i] == d0[i] && d[j] == x);
                    }
                }
            }
        }
        assert forall|t: Seq<char>| has_query(d, t) == has_query(s, t) by {
            assert(has_query(s, t) == (has_query(s0, t) || x.query == t)) by {
                if has_query(s, t) {
                    let w = query_index(s, t);
                    if w < s0.len() {
                        assert(s0[w].query == t);
                    }
                }
                if has_query(s0, t) {
                    let w = query_index(s0, t);
                    assert(s[w].query == t);
                }
                if x.query == t {
                    assert(s[s.len() - 1].query == t);
                }
            }
            if has_query(d0, x.query) {
                let m = query_index(d0, x.query);
                if has_query(d, t) {
                    let w = query_index(d, t);
                    assert(d[w] == if w == m {
                        x
                    } else {
                        d0[w]
                    });
                    if w != m {
                        assert(has_query(d0, t));
                    }
                }
                if has_query(d0, t) {
                    let w = query_index(d0, t);
                    if w == m {
                        assert(d[w].query == x.query && d0[m].query == x.query);
                        assert(has_query(d, t));
                    } else {
                        assert(d[w] == d0[w]);
                        assert(has_query(d, t));
                    }
                }
                if x.query == t {
                    assert(d[m].query == t);
                }
            } else {
                if has_query(d, t) {
                    let w = query_index(d, t);
                    if w < d0.len() {
                        assert(d0[w].query == t);
                    }
                }
                if has_query(d0, t) {
                    let w = query_index(d0, t);
                    assert(d[w].query == t);
                }
                if x.query == t {
                    assert(d[d.len() - 1].query == t);
                }
            }
        }
    }
}

/// Every deduplicated record is an input record, and the last input record
/// with its query text: no later input record carries the same text.
pub proof fn lemma_dedup_last_occurrence(s: Seq<RecordModel>)
    ensures
        forall|j: int|
            0 <= j < dedup_spec(s).len() ==> exists|i: int|
                0 <= i < s.len() && s[i] == #[trigger] dedup_spec(s)[j] && forall|k: int|
                    i < k < s.len() ==> s[k].query != dedup_spec(s)[j].query,
    decreases s.len(),
{
    if s.len() == 0 {
    } else {
        let s0 = s.drop_last();
        let x = s.last();
        let d0 = dedup_spec(s0);
        let d = dedup_spec(s);
        lemma_dedup_last_occurrence(s0);
        lemma_dedup_unique(s0);
        assert forall|j: int| 0 <= j < d.len() implies exists|i: int|
            0 <= i < s.len() && s[i] == #[trigger] d[j] && forall|k: int|
                i < k < s.len() ==> s[k].query != d[j].query by {
            if has_query(d0, x.query) {
                let m = query_index(d0, x.query);
                if j == m {
                    assert(d[j] == x);
                    assert(s[s.len() - 1] == x);
                    assert(0 <= s.len() - 1 < s.len() && s[s.len() - 1] == d[j] && forall|k: int|
                        s.len() - 1 < k < s.len() ==> s[k].query != d[j].query);
                } else {
                    assert(d[j] == d0[j]);
                    let i = choose|i: int|
                        0 <= i < s0.len() && s0[i] == d0[j] && forall|k: int|
                            i < k < s0.len() ==> s0[k].query != d0[j].query;
                    assert(s[i] == s0[i]);
                    assert(d0[m].query == x.query);
                    assert(d0[j].query != x.query);
                    assert(forall|k: int| i < k < s0.len() ==> s[k] == s0[k]);
                    assert(s[s.len() - 1].query != d[j].query);
                    assert(0 <= i < s.len() && s[i] == d[j] && forall|k: int|
                        i < k < s.len() ==> s[k].query != d[j].query);
                }
            } else {
                if j == d.len() - 1 {
                    assert(d[j] == x);
                    assert(s[s.len() - 1] == x);
                    assert(0 <= s.len() - 1 < s.len() && s[s.len() - 1] == d[j] && forall|k: int|
                        s.len() - 1 < k < s.len() ==> s[k].query != d[j].query);
                } else {
                    assert(d[j] == d0[j]);
                    let i = choose|i: int|
                        0 <= i < s0.len() && s0[i] == d0[j] && forall|k: int|
                            i < k < s0.len() ==> s0[k].query != d0[j].query;
                    assert(s[i] == s0[i]);
                    assert(has_query(d0, d0[j].query));
                    assert(d0[j].query != x.query);
                    assert(forall|k: int| i < k < s0.len() ==> s[k] == s0[k]);
                    assert(0 <= i < s.len() && s[i] == d[j] && forall|k: int|
                        i < k < s.len() ==> s[k].query != d[j].query);
                }
            }
        }
    }
}

/// Collapse same-text records to their last occurrence, in one owned list.
pub fn dedup(qq: &Vec<QueryRecord>) -> (out: Vec<QueryRecord>)
    ensures
        out.deep_view() == dedup_spec(qq.deep_view()),
{
    broadcast use vstd::prelude::Seq::lemma_take_succ_push;
    broadcast use vstd::prelude::Seq::lemma_take_len;

    let mut out: Vec<QueryRecord> = Vec::new();
    let n = qq.len();
    let mut i: usize = 0;
    proof {
        assert(qq.deep_view().take(0) =~= Seq::<RecordModel>::empty());
        assert(out.deep_view() =~= dedup_spec(qq.deep_view().take(0)));
    }
    while i < n
        invariant
            n == qq@.len(),
            0 <= i <= n,
            out.deep_view() == dedup_spec(qq.deep_view().take(i as int)),
        decreases n - i,
    {
        let ghost prefix = qq.deep_view().take(i as int);
        let ghost d0 = out.deep_view();
        let q = &qq[i];
        proof {
            assert(qq.deep_view()[i as int] == q@);
            assert(qq.deep_view().take(i + 1) == prefix.push(q@));
            assert(prefix.push(q@).drop_last() =~= prefix);
            assert(prefix.push(q@).last() == q@);
            lemma_dedup_unique(prefix);
        }
        let m = out.len();
        let mut j: usize = 0;
        let mut found: bool = false;
        while j < m && !found
            invariant
                m == out@.len(),
                0 <= j <= m,
                out.deep_view() == d0,
                !found ==> forall|k: int| 0 <= k < j ==> d0[k].query != q@.query,
                found ==> j < m && d0[j as int].query == q@.query,
            decreases m - j + (if found {
                0int
            } else {
                1int
            }),
        {
            if out[j].query == q.query {
                found = true;
            } else {
                j += 1;
            }
        }
        if found {
            out[j] = q.clone();
            proof {
                assert(has_query(d0, q@.query));
                let w = query_index(d0, q@.query);
                assert(0 <= w < d0.len() && d0[w].query == q@.query);
                assert(w == j as int);
                assert(out.deep_view() =~= d0.update(j as int, q@));
            }
        } else {
            out.push(q.clone());
            proof {
                assert(!has_query(d0, q@.query));
                assert(out.deep_view() =~= d0.push(q@));
            }
        }
        i += 1;
    }
    proof {
        assert(qq.deep_view().take(n as int) == qq.deep_view());
    }
    out
}

} // verus!
