//! The frequency table: a per-cycle mapping from query text to the number
//! of records in the full raw batch that carry that text.

use vstd::prelude::*;
use crate::record::{QueryRecord, RecordModel};

verus! {

/// How many records of `s` carry the query text `t`.
pub open spec fn occurrences(s: Seq<RecordModel>, t: Seq<char>) -> nat {
    s.filter(|r: RecordModel| r.query == t).len()
}

/// The count a frequency map assigns to `t`: its entry, or zero when the
/// text is absent.
pub open spec fn count_of(m: Map<Seq<char>, nat>, t: Seq<char>) -> nat {
    if m.dom().contains(t) {
        m[t]
    } else {
        0
    }
}

/// The frequency map of a batch: every text that occurs at all, mapped to
/// its occurrence count.
pub open spec fn freq_map_of(s: Seq<RecordModel>) -> Map<Seq<char>, nat> {
    Map::new(|t: Seq<char>| occurrences(s, t) > 0, |t: Seq<char>| occurrences(s, t))
}

/// `count_of` on the frequency map of a batch is the occurrence count.
pub broadcast proof fn lemma_count_of_freq_map(s: Seq<RecordModel>, t: Seq<char>)
    ensures
        #[trigger] count_of(freq_map_of(s), t) == occurrences(s, t),
{
}

/// Appending one record raises its own text's count by one and leaves every
/// other count unchanged.
pub proof fn lemma_occurrences_push(s: Seq<RecordModel>, r: RecordModel, t: Seq<char>)
    ensures
        occurrences(s.push(r), t) == occurrences(s, t) + (if r.query == t {
            1int
        } else {
            0int
        }),
{
    broadcast use vstd::seq_lib::group_seq_properties;

    s.lemma_filter_push(r, |x: RecordModel| x.query == t);
}

/// A text cannot occur more often than the batch is long.
pub proof fn lemma_occurrences_le_len(s: Seq<RecordModel>, t: Seq<char>)
    ensures
        occurrences(s, t) <= s.len(),
{
    s.lemma_filter_len(|r: RecordModel| r.query == t);
}

/// The empty batch has the empty frequency map.
pub proof fn lemma_freq_map_empty()
    ensures
        freq_map_of(Seq::<RecordModel>::empty()) == Map::<Seq<char>, nat>::empty(),
{
    assert forall|t: Seq<char>| !(occurrences(Seq::<RecordModel>::empty(), t) > 0) by {
        lemma_occurrences_le_len(Seq::<RecordModel>::empty(), t);
    }
    assert(freq_map_of(Seq::<RecordModel>::empty()) =~= Map::<Seq<char>, nat>::empty());
}

/// Appending one record to a batch inserts (or raises) exactly that
/// record's text in the batch's frequency map.
pub proof fn lemma_freq_map_push(s: Seq<RecordModel>, r: RecordModel)
    ensures
        freq_map_of(s.push(r)) == freq_map_of(s).insert(
            r.query,
            (occurrences(s, r.query) + 1) as nat,
        ),
{
    assert forall|t: Seq<char>| true implies occurrences(s.push(r), t) == occurrences(s, t) + (
    if r.query == t {
        1int
    } else {
        0int
    }) by {
        lemma_occurrences_push(s, r, t);
    }
    assert(freq_map_of(s.push(r)) =~= freq_map_of(s).insert(
        r.query,
        (occurrences(s, r.query) + 1) as nat,
    ));
}

struct Entry {
    text: String,
    count: usize,
}

spec fn has_text(es: Seq<Entry>, t: Seq<char>) -> bool {
    exists|i: int| 0 <= i < es.len() && es[i].text@ == t
}

spec fn text_index(es: Seq<Entry>, t: Seq<char>) -> int {
    choose|i: int| 0 <= i < es.len() && es[i].text@ == t
}

/// The exec frequency table: an association list with pairwise distinct
/// texts, abstracted as a map from text to count.
pub struct FrequencyTable {
    entries: Vec<Entry>,
}

impl View for FrequencyTable {
    type V = Map<Seq<char>, nat>;

    closed spec fn view(&self) -> Map<Seq<char>, nat> {
        Map::new(
            |t: Seq<char>| has_text(self.entries@, t),
            |t: Seq<char>| self.entries@[text_index(self.entries@, t)].count as nat,
        )
    }
}

impl FrequencyTable {
    /// Every entry holds a distinct text.
    pub closed spec fn wf(&self) -> bool {
        forall|i: int, j: int|
            0 <= i < j < self.entries@.len() ==> self.entries@[i].text@ != self.entries@[j].text@
    }

    pub fn new() -> (t: Self)
        ensures
            t.wf(),
            t@ == Map::<Seq<char>, nat>::empty(),
    {
        let t = FrequencyTable { entries: Vec::new() };
        proof {
            assert(t@ =~= Map::<Seq<char>, nat>::empty());
        }
        t
    }

    /// Forget every count; the table is ready for the next cycle.
    pub fn clear(&mut self)
        ensures
            final(self).wf(),
            final(self)@ == Map::<Seq<char>, nat>::empty(),
    {
        self.entries.clear();
        proof {
            assert(self@ =~= Map::<Seq<char>, nat>::empty());
        }
    }

    /// The count the table assigns to `text`; zero when absent.
    pub fn get(&self, text: &String) -> (c: usize)
        requires
            self.wf(),
        ensures
            c as nat == count_of(self@, text@),
    {
        let n = self.entries.len();
        let mut i: usize = 0;
        while i < n
            invariant
                n == self.entries@.len(),
                0 <= i <= n,
                self.wf(),
                forall|k: int| 0 <= k < i ==> self.entries@[k].text@ != text@,
            decreases n - i,
        {
            if self.entries[i].text == *text {
                proof {
                    assert(has_text(self.entries@, text@));
                    let j = text_index(self.entries@, text@);
                    assert(0 <= j < self.entries@.len() && self.entries@[j].text@ == text@);
                    assert(j == i as int);
                }
                return self.entries[i].count;
            }
            i += 1;
        }
        proof {
            assert(!has_text(self.entries@, text@));
            assert(!self@.dom().contains(text@));
        }
        0
    }

    /// Raise `text`'s count by one, starting it at one when absent.
    pub fn record(&mut self, text: &String)
        requires
            old(self).wf(),
            count_of(old(self)@, text@) < usize::MAX,
        ensures
            final(self).wf(),
            final(self)@ == old(self)@.insert(text@, (count_of(old(self)@, text@) + 1) as nat),
    {
        let ghost es0 = self.entries@;
        let n = self.entries.len();
        let mut i: usize = 0;
        while i < n
            invariant
                self.entries@ == es0,
                n == es0.len(),
                0 <= i <= n,
                old(self).wf(),
                old(self).entries@ == es0,
                count_of(old(self)@, text@) < usize::MAX,
                forall|k: int| 0 <= k < i ==> es0[k].text@ != text@,
            decreases n - i,
        {
            if self.entries[i].text == *text {
                proof {
                    assert(has_text(es0, text@));
                    let j = text_index(es0, text@);
                    assert(0 <= j < es0.len() && es0[j].text@ == text@);
                    assert(j == i as int);
                    assert(self@.dom().contains(text@));
                    assert(count_of(old(self)@, text@) == es0[i as int].count as nat);
                }
                let c = self.entries[i].count;
                self.entries[i] = Entry { text: text.clone(), count: c + 1 };
                proof {
                    let es1 = self.entries@;
                    assert forall|k: int| 0 <= k < es1.len() implies es1[k].text@ == es0[k].text@
                    by {}
                    assert(final(self).wf());
                    assert forall|t: Seq<char>| has_text(es1, t) == has_text(es0, t) by {
                        if has_text(es0, t) {
                            let w = choose|w: int| 0 <= w < es0.len() && es0[w].text@ == t;
                            assert(es1[w].text@ == t);
                        }
                        if has_text(es1, t) {
                            let w = choose|w: int| 0 <= w < es1.len() && es1[w].text@ == t;
                            assert(es0[w].text@ == t);
                        }
                    }
                    assert(self@ =~= old(self)@.insert(
                        text@,
                        (count_of(old(self)@, text@) + 1) as nat,
                    )) by {
                        assert forall|t: Seq<char>| has_text(es1, t) implies self@[t] == old(
                            self,
                        )@.insert(text@, (count_of(old(self)@, text@) + 1) as nat)[t] by {
                            let j1 = text_index(es1, t);
                            assert(0 <= j1 < es1.len() && es1[j1].text@ == t);
                            if t == text@ {
                                assert(j1 == i as int);
                            } else {
                                assert(j1 != i as int);
                                assert(es1[j1] == es0[j1]);
                                assert(has_text(es0, t));
                                let j0 = text_index(es0, t);
                                assert(0 <= j0 < es0.len() && es0[j0].text@ == t);
                                assert(j0 == j1);
                            }
                        }
                    }
                }
                return ;
            }
            i += 1;
        }
        proof {
            assert(!has_text(es0, text@));
            assert(!old(self)@.dom().contains(text@));
            assert(count_of(old(self)@, text@) == 0);
        }
        self.entries.push(Entry { text: text.clone(), count: 1 });
        proof {
            let es1 = self.entries@;
            assert forall|k: int| 0 <= k < es0.len() implies es1[k] == es0[k] by {}
            assert(es1[es0.len() as int].text@ == text@);
            assert(final(self).wf()) by {
                assert forall|a: int, b: int| 0 <= a < b < es1.len() implies es1[a].text@
                    != es1[b].text@ by {
                    if b == es0.len() as int {
                        assert(es1[a].text@ == es0[a].text@);
                    }
                }
            }
            assert(self@ =~= old(self)@.insert(text@, 1nat)) by {
                assert forall|t: Seq<char>| has_text(es1, t) implies self@[t] == old(self)@.insert(
                    text@,
                    1nat,
                )[t] by {
                    let j1 = text_index(es1, t);
                    assert(0 <= j1 < es1.len() && es1[j1].text@ == t);
                    if t == text@ {
                        assert(j1 == es0.len() as int);
                    } else {
                        assert(j1 < es0.len());
                        assert(has_text(es0, t));
                        let j0 = text_index(es0, t);
                        assert(j0 == j1);
                    }
                }
                assert forall|t: Seq<char>| has_text(es0, t) || t == text@ implies has_text(
                    es1,
                    t,
                ) by {
                    if has_text(es0, t) {
                        let w = choose|w: int| 0 <= w < es0.len() && es0[w].text@ == t;
                        assert(es1[w].text@ == t);
                    }
                }
            }
        }
    }
}

} // verus!
