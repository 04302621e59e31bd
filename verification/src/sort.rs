//! The sorter: a stable ordering over one configured numeric field, and a
//! second stage that re-orders the whole list by frequency-table count when
//! the frequency mode is configured.

use vstd::prelude::*;
use crate::config::QueriesSortType;
use crate::freq::{count_of, FrequencyTable};
use crate::record::{QueryRecord, RecordModel};

verus! {

/// Which of the sorter's two stages is running: the field sort, or the
/// frequency override.
#[derive(Clone, Copy, PartialEq, Eq, Structural)]
pub enum SortStage {
    Field,
    Frequency,
}

/// The integer sort key of a record at the given stage.  Descending modes
/// negate the key; a mode the stage does not handle keys every record at
/// zero, so the stage keeps the incoming order.
pub open spec fn sort_key(
    stage: SortStage,
    mode: QueriesSortType,
    freqs: Map<Seq<char>, nat>,
    r: RecordModel,
) -> int {
    match stage {
        SortStage::Field => match mode {
            QueriesSortType::Timestamp => r.timestamp as int,
            QueriesSortType::QueryTime => r.query_time as int,
            QueriesSortType::LockTime => r.lock_time as int,
            QueriesSortType::RowsSent => r.rows_sent as int,
            QueriesSortType::RowsExamined => r.rows_examined as int,
            QueriesSortType::RowsAffected => r.rows_affected as int,
            QueriesSortType::TimestampInverse => -(r.timestamp as int),
            QueriesSortType::QueryTimeInverse => -(r.query_time as int),
            QueriesSortType::LockTimeInverse => -(r.lock_time as int),
            QueriesSortType::RowsSentInverse => -(r.rows_sent as int),
            QueriesSortType::RowsExaminedInverse => -(r.rows_examined as int),
            QueriesSortType::RowsAffectedInverse => -(r.rows_affected as int),
            _ => 0,
        },
        SortStage::Frequency => match mode {
            QueriesSortType::Count => count_of(freqs, r.query) as int,
            QueriesSortType::CountInverse => -(count_of(freqs, r.query) as int),
            _ => 0,
        },
    }
}

/// `a` may stand no later than `b` at this stage: its key is no greater.
pub open spec fn record_le(
    stage: SortStage,
    mode: QueriesSortType,
    freqs: Map<Seq<char>, nat>,
    a: RecordModel,
    b: RecordModel,
) -> bool {
    sort_key(stage, mode, freqs, a) <= sort_key(stage, mode, freqs, b)
}

/// Keys never decrease along the sequence.
pub open spec fn sorted_by_key(
    stage: SortStage,
    mode: QueriesSortType,
    freqs: Map<Seq<char>, nat>,
    s: Seq<RecordModel>,
) -> bool {
    forall|i: int, j: int|
        0 <= i <= j < s.len() ==> record_le(stage, mode, freqs, s[i], s[j])
}

/// Insert `x` behind every element whose key is no greater than its own:
/// the stable insertion position, scanned from the right.
pub open spec fn insert_sorted(
    stage: SortStage,
    mode: QueriesSortType,
    freqs: Map<Seq<char>, nat>,
    s: Seq<RecordModel>,
    x: RecordModel,
) -> Seq<RecordModel>
    decreases s.len(),
{
    if s.len() == 0 {
        seq![x]
    } else if record_le(stage, mode, freqs, s.last(), x) {
        s.push(x)
    } else {
        insert_sorted(stage, mode, freqs, s.drop_last(), x).push(s.last())
    }
}

/// Stable insertion sort: insert each element, in input order, behind its
/// equals.  Ties keep the input order, so the result is unique.
pub open spec fn sort_spec(
    stage: SortStage,
    mode: QueriesSortType,
    freqs: Map<Seq<char>, nat>,
    s: Seq<RecordModel>,
) -> Seq<RecordModel>
    decreases s.len(),
{
    if s.len() == 0 {
        Seq::<RecordModel>::empty()
    } else {
        insert_sorted(stage, mode, freqs, sort_spec(stage, mode, freqs, s.drop_last()), s.last())
    }
}

/// Inserting at a position whose left neighbour is no greater and whose
/// right-hand elements are all strictly greater is the stable insertion.
pub proof fn lemma_insert_sorted_at(
    stage: SortStage,
    mode: QueriesSortType,
    freqs: Map<Seq<char>, nat>,
    s: Seq<RecordModel>,
    x: RecordModel,
    pos: int,
)
    requires
        0 <= pos <= s.len(),
        forall|k: int| pos <= k < s.len() ==> !record_le(stage, mode, freqs, s[k], x),
        pos > 0 ==> record_le(stage, mode, freqs, s[pos - 1], x),
    ensures
        insert_sorted(stage, mode, freqs, s, x) == s.insert(pos, x),
    decreases s.len(),
{
    if s.len() == 0 {
        assert(s.insert(0, x) =~= seq![x]);
    } else if record_le(stage, mode, freqs, s.last(), x) {
        assert(pos == s.len());
        assert(s.insert(pos, x) =~= s.push(x));
    } else {
        assert(pos < s.len());
        let s0 = s.drop_last();
        assert(forall|k: int| pos <= k < s0.len() ==> s0[k] == s[k]);
        assert(pos > 0 ==> s0[pos - 1] == s[pos - 1]);
        lemma_insert_sorted_at(stage, mode, freqs, s0, x, pos);
        s.insert_ensures(pos, x);
        s0.insert_ensures(pos, x);
        assert(s0.insert(pos, x).push(s.last()) =~= s.insert(pos, x));
    }
}

/// The stable insertion position of `x`: behind every element whose key is
/// no greater.
pub open spec fn insert_pos(
    stage: SortStage,
    mode: QueriesSortType,
    freqs: Map<Seq<char>, nat>,
    s: Seq<RecordModel>,
    x: RecordModel,
) -> int
    decreases s.len(),
{
    if s.len() == 0 {
        0
    } else if record_le(stage, mode, freqs, s.last(), x) {
        s.len() as int
    } else {
        insert_pos(stage, mode, freqs, s.drop_last(), x)
    }
}

/// The insertion position is in range, every element at or after it is
/// strictly greater than `x`, and the element before it (if any) is not.
pub proof fn lemma_insert_pos_props(
    stage: SortStage,
    mode: QueriesSortType,
    freqs: Map<Seq<char>, nat>,
    s: Seq<RecordModel>,
    x: RecordModel,
)
    ensures
        0 <= insert_pos(stage, mode, freqs, s, x) <= s.len(),
        forall|k: int|
            insert_pos(stage, mode, freqs, s, x) <= k < s.len() ==> !record_le(
                stage,
                mode,
                freqs,
                s[k],
                x,
            ),
        insert_pos(stage, mode, freqs, s, x) > 0 ==> record_le(
            stage,
            mode,
            freqs,
            s[insert_pos(stage, mode, freqs, s, x) - 1],
            x,
        ),
        insert_sorted(stage, mode, freqs, s, x) == s.insert(
            insert_pos(stage, mode, freqs, s, x),
            x,
        ),
    decreases s.len(),
{
    if s.len() == 0 {
        assert(s.insert(0, x) =~= seq![x]);
    } else if record_le(stage, mode, freqs, s.last(), x) {
        assert(s.insert(s.len() as int, x) =~= s.push(x));
    } else {
        let s0 = s.drop_last();
        lemma_insert_pos_props(stage, mode, freqs, s0, x);
        let pos = insert_pos(stage, mode, freqs, s, x);
        assert(forall|k: int| 0 <= k < s0.len() ==> s0[k] == s[k]);
        lemma_insert_sorted_at(stage, mode, freqs, s, x, pos);
    }
}

/// Stable insertion keeps the sequence sorted.
pub proof fn lemma_insert_sorted_sorted(
    stage: SortStage,
    mode: QueriesSortType,
    freqs: Map<Seq<char>, nat>,
    s: Seq<RecordModel>,
    x: RecordModel,
)
    requires
        sorted_by_key(stage, mode, freqs, s),
    ensures
        sorted_by_key(stage, mode, freqs, insert_sorted(stage, mode, freqs, s, x)),
{
    lemma_insert_pos_props(stage, mode, freqs, s, x);
    let pos = insert_pos(stage, mode, freqs, s, x);
    let r = s.insert(pos, x);
    s.insert_ensures(pos, x);
    assert forall|i: int, j: int| 0 <= i <= j < r.len() implies record_le(
        stage,
        mode,
        freqs,
        r[i],
        r[j],
    ) by {
        if j < pos {
            assert(r[i] == s[i] && r[j] == s[j]);
        } else if j == pos {
            if i < pos {
                assert(r[i] == s[i]);
                assert(r[j] == x);
                assert(record_le(stage, mode, freqs, s[i], s[pos - 1]));
                assert(record_le(stage, mode, freqs, s[pos - 1], x));
            }
        } else {
            assert(r[j - 1 + 1] == s[j - 1]);
            if i < pos {
                assert(r[i] == s[i]);
                assert(record_le(stage, mode, freqs, s[i], s[j - 1]));
            } else if i == pos {
                assert(r[i] == x);
                assert(!record_le(stage, mode, freqs, s[j - 1], x));
            } else {
                assert(r[i - 1 + 1] == s[i - 1]);
                assert(record_le(stage, mode, freqs, s[i - 1], s[j - 1]));
            }
        }
    }
}

/// Stable insertion adds exactly `x` to the sequence's multiset.
pub proof fn lemma_insert_sorted_multiset(
    stage: SortStage,
    mode: QueriesSortType,
    freqs: Map<Seq<char>, nat>,
    s: Seq<RecordModel>,
    x: RecordModel,
)
    ensures
        insert_sorted(stage, mode, freqs, s, x).to_multiset() == s.to_multiset().insert(x),
        insert_sorted(stage, mode, freqs, s, x).len() == s.len() + 1,
    decreases s.len(),
{
    if s.len() == 0 {
        assert(s =~= Seq::<RecordModel>::empty());
        assert(seq![x] =~= s.push(x));
        s.to_multiset_ensures();
        assert(s.push(x).to_multiset() =~= s.to_multiset().insert(x));
    } else if record_le(stage, mode, freqs, s.last(), x) {
        assert(insert_sorted(stage, mode, freqs, s, x) == s.push(x));
        s.to_multiset_ensures();
        assert(s.push(x).to_multiset() =~= s.to_multiset().insert(x));
    } else {
        let s0 = s.drop_last();
        lemma_insert_sorted_multiset(stage, mode, freqs, s0, x);
        let t = insert_sorted(stage, mode, freqs, s0, x);
        assert(insert_sorted(stage, mode, freqs, s, x) == t.push(s.last()));
        t.to_multiset_ensures();
        s0.to_multiset_ensures();
        assert(t.push(s.last()).to_multiset() =~= t.to_multiset().insert(s.last()));
        assert(s0.push(s.last()) =~= s);
        assert(s0.push(s.last()).to_multiset() =~= s0.to_multiset().insert(s.last()));
        assert(s0.to_multiset().insert(x).insert(s.last()) =~= s0.to_multiset().insert(
            s.last(),
        ).insert(x));
    }
}

/// The sorted sequence: ordered by key, the same records as a multiset,
/// the same length.
pub proof fn lemma_sort_spec_props(
    stage: SortStage,
    mode: QueriesSortType,
    freqs: Map<Seq<char>, nat>,
    s: Seq<RecordModel>,
)
    ensures
        sorted_by_key(stage, mode, freqs, sort_spec(stage, mode, freqs, s)),
        sort_spec(stage, mode, freqs, s).to_multiset() == s.to_multiset(),
        sort_spec(stage, mode, freqs, s).len() == s.len(),
    decreases s.len(),
{
    if s.len() == 0 {
        assert(s =~= Seq::<RecordModel>::empty());
    } else {
        let s0 = s.drop_last();
        lemma_sort_spec_props(stage, mode, freqs, s0);
        lemma_insert_sorted_sorted(stage, mode, freqs, sort_spec(stage, mode, freqs, s0), s.last());
        lemma_insert_sorted_multiset(
            stage,
            mode,
            freqs,
            sort_spec(stage, mode, freqs, s0),
            s.last(),
        );
        assert(s0.push(s.last()) =~= s);
        s0.to_multiset_ensures();
        assert(s0.push(s.last()).to_multiset() =~= s0.to_multiset().insert(s.last()));
    }
}

/// A stage whose keys are all equal keeps the incoming order exactly.
pub proof fn lemma_sort_spec_constant_key(
    stage: SortStage,
    mode: QueriesSortType,
    freqs: Map<Seq<char>, nat>,
    s: Seq<RecordModel>,
)
    requires
        forall|a: RecordModel, b: RecordModel| record_le(stage, mode, freqs, a, b),
    ensures
        sort_spec(stage, mode, freqs, s) == s,
    decreases s.len(),
{
    if s.len() == 0 {
        assert(sort_spec(stage, mode, freqs, s) =~= s);
    } else {
        let s0 = s.drop_last();
        lemma_sort_spec_constant_key(stage, mode, freqs, s0);
        assert(s0.len() == 0 || record_le(stage, mode, freqs, s0.last(), s.last()));
        assert(insert_sorted(stage, mode, freqs, s0, s.last()) == s0.push(s.last())) by {
            if s0.len() == 0 {
                assert(insert_sorted(stage, mode, freqs, s0, s.last()) =~= s0.push(s.last()));
            }
        }
        assert(s0.push(s.last()) =~= s);
    }
}

/// The predicate "this record's key at this stage is `k`".
pub open spec fn key_is(
    stage: SortStage,
    mode: QueriesSortType,
    freqs: Map<Seq<char>, nat>,
    k: int,
) -> spec_fn(RecordModel) -> bool {
    |r: RecordModel| sort_key(stage, mode, freqs, r) == k
}

/// Stable insertion leaves the subsequence of every key value as it was,
/// except that the subsequence of `x`'s own key gains `x` at its end.
pub proof fn lemma_insert_sorted_filter_key(
    stage: SortStage,
    mode: QueriesSortType,
    freqs: Map<Seq<char>, nat>,
    s: Seq<RecordModel>,
    x: RecordModel,
    k: int,
)
    ensures
        insert_sorted(stage, mode, freqs, s, x).filter(key_is(stage, mode, freqs, k)) == (if
        sort_key(stage, mode, freqs, x) == k {
            s.filter(key_is(stage, mode, freqs, k)).push(x)
        } else {
            s.filter(key_is(stage, mode, freqs, k))
        }),
{
    let p = key_is(stage, mode, freqs, k);
    lemma_insert_pos_props(stage, mode, freqs, s, x);
    let pos = insert_pos(stage, mode, freqs, s, x);
    let sub0 = s.subrange(0, pos);
    let sub1 = s.subrange(pos, s.len() as int);
    assert(insert_sorted(stage, mode, freqs, s, x) == sub0.push(x) + sub1);
    Seq::filter_distributes_over_add(sub0.push(x), sub1, p);
    sub0.lemma_filter_push(x, p);
    s.lemma_split_at(pos);
    assert(sub0 + sub1 == s);
    Seq::filter_distributes_over_add(sub0, sub1, p);
    assert(s.filter(p) == sub0.filter(p) + sub1.filter(p));
    if sort_key(stage, mode, freqs, x) == k {
        assert(sub1.all(|r: RecordModel| !p(r))) by {
            assert forall|i: int| 0 <= i < sub1.len() implies !(#[trigger] p(sub1[i])) by {
                assert(sub1[i] == s[pos + i]);
                assert(!record_le(stage, mode, freqs, s[pos + i], x));
            }
        }
        sub1.lemma_all_neg_filter_empty(p);
        assert(sub1.filter(p) =~= Seq::<RecordModel>::empty());
        assert(sub0.filter(p) + sub1.filter(p) =~= sub0.filter(p));
        assert(sub0.filter(p).push(x) + sub1.filter(p) =~= sub0.filter(p).push(x));
        assert(sub0.push(x).filter(p) == sub0.filter(p).push(x));
    } else {
        assert(sub0.push(x).filter(p) == sub0.filter(p));
    }
}

/// Stability: for every key value, the sorted sequence restricted to the
/// records carrying that key equals the input so restricted — ties are
/// broken by the list's entry order.
pub proof fn lemma_sort_spec_stable(
    stage: SortStage,
    mode: QueriesSortType,
    freqs: Map<Seq<char>, nat>,
    s: Seq<RecordModel>,
    k: int,
)
    ensures
        sort_spec(stage, mode, freqs, s).filter(key_is(stage, mode, freqs, k)) == s.filter(
            key_is(stage, mode, freqs, k),
        ),
    decreases s.len(),
{
    let p = key_is(stage, mode, freqs, k);
    if s.len() == 0 {
        assert(s =~= Seq::<RecordModel>::empty());
    } else {
        let s0 = s.drop_last();
        let x = s.last();
        lemma_sort_spec_stable(stage, mode, freqs, s0, k);
        lemma_insert_sorted_filter_key(stage, mode, freqs, sort_spec(stage, mode, freqs, s0), x, k);
        s0.lemma_filter_push(x, p);
        assert(s0.push(x) =~= s);
    }
}

/// Exec comparison of two records at one stage, against the table that
/// backs the frequency keys.
fn record_le_exec(
    stage: SortStage,
    mode: QueriesSortType,
    table: &FrequencyTable,
    a: &QueryRecord,
    b: &QueryRecord,
) -> (r: bool)
    requires
        table.wf(),
    ensures
        r == record_le(stage, mode, table@, a@, b@),
{
    match stage {
        SortStage::Field => match mode {
            QueriesSortType::Timestamp => a.timestamp <= b.timestamp,
            QueriesSortType::QueryTime => a.query_time <= b.query_time,
            QueriesSortType::LockTime => a.lock_time <= b.lock_time,
            QueriesSortType::RowsSent => a.rows_sent <= b.rows_sent,
            QueriesSortType::RowsExamined => a.rows_examined <= b.rows_examined,
            QueriesSortType::RowsAffected => a.rows_affected <= b.rows_affected,
            QueriesSortType::TimestampInverse => a.timestamp >= b.timestamp,
            QueriesSortType::QueryTimeInverse => a.query_time >= b.query_time,
            QueriesSortType::LockTimeInverse => a.lock_time >= b.lock_time,
            QueriesSortType::RowsSentInverse => a.rows_sent >= b.rows_sent,
            QueriesSortType::RowsExaminedInverse => a.rows_examined >= b.rows_examined,
            QueriesSortType::RowsAffectedInverse => a.rows_affected >= b.rows_affected,
            _ => true,
        },
        SortStage::Frequency => match mode {
            QueriesSortType::Count => table.get(&a.query) <= table.get(&b.query),
            QueriesSortType::CountInverse => table.get(&a.query) >= table.get(&b.query),
            _ => true,
        },
    }
}

/// Sort the list stably by this stage's key, in place.
pub fn sort(
    qq: &mut Vec<QueryRecord>,
    stage: SortStage,
    mode: QueriesSortType,
    table: &FrequencyTable,
)
    requires
        table.wf(),
    ensures
        final(qq).deep_view() == sort_spec(stage, mode, table@, old(qq).deep_view()),
{
    broadcast use vstd::prelude::Seq::lemma_take_succ_push;
    broadcast use vstd::prelude::Seq::lemma_take_len;

    let ghost orig = qq.deep_view();
    let mut out: Vec<QueryRecord> = Vec::new();
    let n = qq.len();
    let mut i: usize = 0;
    proof {
        assert(orig.take(0) =~= Seq::<RecordModel>::empty());
        assert(out.deep_view() =~= sort_spec(stage, mode, table@, orig.take(0)));
    }
    while i < n
        invariant
            table.wf(),
            qq.deep_view() == orig,
            n == qq@.len(),
            0 <= i <= n,
            out.deep_view() == sort_spec(stage, mode, table@, orig.take(i as int)),
        decreases n - i,
    {
        let ghost d0 = out.deep_view();
        let q = &qq[i];
        proof {
            assert(orig[i as int] == q@);
            assert(orig.take(i + 1) == orig.take(i as int).push(q@));
        }
        let mut j = out.len();
        while j > 0 && !record_le_exec(stage, mode, table, &out[j - 1], q)
            invariant
                table.wf(),
                out.deep_view() == d0,
                0 <= j <= out@.len(),
                out@.len() == d0.len(),
                forall|k: int| j <= k < d0.len() ==> !record_le(stage, mode, table@, d0[k], q@),
            decreases j,
        {
            j -= 1;
        }
        out.insert(j, q.clone());
        proof {
            assert(out.deep_view() =~= d0.insert(j as int, q@));
            lemma_insert_sorted_at(stage, mode, table@, d0, q@, j as int);
            assert(out.deep_view() == insert_sorted(stage, mode, table@, d0, q@));
            assert(sort_spec(stage, mode, table@, orig.take(i + 1)) == insert_sorted(
                stage,
                mode,
                table@,
                sort_spec(stage, mode, table@, orig.take(i as int)),
                q@,
            )) by {
                assert(orig.take(i + 1).len() != 0);
                assert(orig.take(i + 1).drop_last() =~= orig.take(i as int));
                assert(orig.take(i + 1).last() == q@);
            }
        }
        i += 1;
    }
    proof {
        assert(orig.take(n as int) == orig);
    }
    *qq = out;
}

} // verus!
