//! Daily step records, one per date, with insert-or-replace submission and
//! an inclusive query over a range of dates.
use vstd::prelude::*;
use crate::order::{le_text, text_le, lemma_lex_le_transitive};

verus! {

/// A day's step count and whether the caller marked the goal as met.
pub struct StepData {
    pub date: String,
    pub steps: i32,
    pub is_goal: bool,
}

/// What a `StepData` holds, as plain values.
pub struct StepView {
    pub date: Seq<char>,
    pub steps: i32,
    pub is_goal: bool,
}

impl View for StepData {
    type V = StepView;

    open spec fn view(&self) -> StepView {
        StepView { date: self.date@, steps: self.steps, is_goal: self.is_goal }
    }
}

impl StepData {
    /// A record of the given values.
    pub fn new(date: String, steps: i32, is_goal: bool) -> (r: StepData)
        ensures
            r@ == (StepView { date: date@, steps, is_goal }),
    {
        StepData { date, steps, is_goal }
    }
}

/// No two records share a date.
pub open spec fn dates_unique(s: Seq<StepView>) -> bool {
    forall|i: int, j: int|
        0 <= i < s.len() && 0 <= j < s.len() && #[trigger] s[i].date == #[trigger] s[j].date
            ==> i == j
}

/// `i` is the first position that holds a record of `date`.
pub open spec fn first_of_date(s: Seq<StepView>, date: Seq<char>, i: int) -> bool {
    &&& 0 <= i < s.len()
    &&& s[i].date == date
    &&& forall|k: int| 0 <= k < i ==> #[trigger] s[k].date != date
}

/// Some record holds this date.
pub open spec fn has_date(s: Seq<StepView>, date: Seq<char>) -> bool {
    exists|i: int| first_of_date(s, date, i)
}

/// The records after `rec` is submitted: it replaces the record of its date,
/// or is added after the others when its date is new.
pub open spec fn upsert(s: Seq<StepView>, rec: StepView) -> Seq<StepView> {
    if has_date(s, rec.date) {
        s.update(choose|i: int| first_of_date(s, rec.date, i), rec)
    } else {
        s.push(rec)
    }
}

/// `date` lies in `[start, end]`, both ends included, in text order.
pub open spec fn date_in_range(date: Seq<char>, start: Seq<char>, end: Seq<char>) -> bool {
    text_le(start, date) && text_le(date, end)
}

/// The records whose date lies in `[start, end]`, in stored order.
pub open spec fn records_in_range(s: Seq<StepView>, start: Seq<char>, end: Seq<char>) -> Seq<
    StepView,
> {
    s.filter(|r: StepView| date_in_range(r.date, start, end))
}

/// The records after each of `q` is submitted, in order.
pub open spec fn submit_all(s: Seq<StepView>, q: Seq<StepView>) -> Seq<StepView>
    decreases q.len(),
{
    if q.len() == 0 {
        s
    } else {
        upsert(submit_all(s, q.drop_last()), q.last())
    }
}

/// Submitting a record keeps dates unique, stores the record, and keeps
/// every record of another date.
pub proof fn lemma_upsert(s: Seq<StepView>, rec: StepView)
    requires
        dates_unique(s),
    ensures
        dates_unique(upsert(s, rec)),
        upsert(s, rec).contains(rec),
        forall|x: StepView| s.contains(x) && x.date != rec.date ==> upsert(s, rec).contains(x),
{
    let u = upsert(s, rec);
    if exists|i: int| 0 <= i < s.len() && #[trigger] s[i].date == rec.date {
        let w = choose|i: int| 0 <= i < s.len() && #[trigger] s[i].date == rec.date;
        assert(first_of_date(s, rec.date, w));
        let j = choose|i: int| first_of_date(s, rec.date, i);
        assert(u[j] == rec);
        assert forall|x: StepView| s.contains(x) && x.date != rec.date implies u.contains(x) by {
            let k = choose|k: int| 0 <= k < s.len() && s[k] == x;
            assert(u[k] == x);
        }
    } else {
        assert(!has_date(s, rec.date));
        assert(u[s.len() as int] == rec);
        assert forall|x: StepView| s.contains(x) && x.date != rec.date implies u.contains(x) by {
            let k = choose|k: int| 0 <= k < s.len() && s[k] == x;
            assert(u[k] == x);
        }
        assert forall|i: int, j: int|
            0 <= i < u.len() && 0 <= j < u.len() && #[trigger] u[i].date == #[trigger] u[j].date
            implies i == j by {
            if i < s.len() && j < s.len() {
                assert(s[i].date == s[j].date);
            } else if i < s.len() {
                assert(s[i].date == rec.date);
            } else if j < s.len() {
                assert(s[j].date == rec.date);
            }
        }
    }
}

/// Submissions of records with pairwise distinct dates, applied one after
/// another in any order (as callers holding the log's lock one at a time
/// do), are all stored afterwards, and every earlier record of another date
/// stays: no update is lost.
pub proof fn lemma_distinct_submissions_all_kept(s: Seq<StepView>, q: Seq<StepView>)
    requires
        dates_unique(s),
        forall|i: int, j: int|
            0 <= i < q.len() && 0 <= j < q.len() && i != j ==> #[trigger] q[i].date
                != #[trigger] q[j].date,
    ensures
        dates_unique(submit_all(s, q)),
        forall|k: int| 0 <= k < q.len() ==> submit_all(s, q).contains(#[trigger] q[k]),
        forall|x: StepView|
            s.contains(x) && (forall|k: int| 0 <= k < q.len() ==> #[trigger] q[k].date != x.date)
                ==> #[trigger] submit_all(s, q).contains(x),
    decreases q.len(),
{
    if q.len() > 0 {
        let p = q.drop_last();
        assert forall|i: int, j: int|
            0 <= i < p.len() && 0 <= j < p.len() && i != j implies #[trigger] p[i].date
                != #[trigger] p[j].date by {
            assert(p[i] == q[i] && p[j] == q[j]);
        }
        lemma_distinct_submissions_all_kept(s, p);
        lemma_upsert(submit_all(s, p), q.last());
        assert forall|k: int| 0 <= k < q.len() implies submit_all(s, q).contains(#[trigger] q[k]) by {
            if k < q.len() - 1 {
                assert(p[k] == q[k]);
                assert(q[k].date != q[q.len() - 1].date);
            }
        }
        assert forall|x: StepView|
            s.contains(x) && (forall|k: int| 0 <= k < q.len() ==> #[trigger] q[k].date != x.date)
            implies #[trigger] submit_all(s, q).contains(x) by {
            assert forall|k: int| 0 <= k < p.len() implies #[trigger] p[k].date != x.date by {
                assert(p[k] == q[k]);
            }
            assert(q[q.len() - 1].date != x.date);
            assert(submit_all(s, p).contains(x));
            assert(submit_all(s, q) == upsert(submit_all(s, p), q.last()));
        }
    }
}

/// A second submission for a date overwrites the first: the records are then
/// as if only the second had been submitted, one record for that date.
pub proof fn lemma_resubmission_overwrites(s: Seq<StepView>, a: StepView, b: StepView)
    requires
        dates_unique(s),
        a.date == b.date,
    ensures
        upsert(upsert(s, a), b) == upsert(s, b),
        upsert(s, b).len() == upsert(s, a).len(),
        dates_unique(upsert(upsert(s, a), b)),
{
    lemma_upsert(s, a);
    let u = upsert(s, a);
    if exists|i: int| 0 <= i < s.len() && #[trigger] s[i].date == a.date {
        let w = choose|i: int| 0 <= i < s.len() && #[trigger] s[i].date == a.date;
        assert(first_of_date(s, a.date, w));
        let j = choose|i: int| first_of_date(s, a.date, i);
        assert(first_of_date(u, a.date, j));
        let k = choose|i: int| first_of_date(u, b.date, i);
        assert(k == j);
        assert(upsert(u, b) =~= upsert(s, b));
    } else {
        assert(!has_date(s, a.date));
        assert(first_of_date(u, a.date, s.len() as int));
        let k = choose|i: int| first_of_date(u, b.date, i);
        assert(k == s.len());
        assert(upsert(u, b) =~= upsert(s, b));
    }
    lemma_upsert(s, b);
}

/// A range whose start comes after its end holds no record.
pub proof fn lemma_reversed_range_empty(s: Seq<StepView>, start: Seq<char>, end: Seq<char>)
    requires
        !text_le(start, end),
    ensures
        records_in_range(s, start, end).len() == 0,
{
    let pred = |r: StepView| date_in_range(r.date, start, end);
    let f = records_in_range(s, start, end);
    s.filter_lemma(pred);
    if f.len() > 0 {
        assert(pred(f[0]));
        lemma_lex_le_transitive(
            crate::order::text_bytes(start),
            crate::order::text_bytes(f[0].date),
            crate::order::text_bytes(end),
        );
    }
}

/// The step records of the process, at most one per date.
pub struct StepLog {
    records: Vec<StepData>,
}

impl View for StepLog {
    type V = Seq<StepView>;

    closed spec fn view(&self) -> Seq<StepView> {
        self.records@.map_values(|r: StepData| r@)
    }
}

impl StepLog {
    /// No two stored records share a date.
    pub open spec fn wf(&self) -> bool {
        dates_unique(self@)
    }

    /// An empty log.
    pub fn new() -> (r: StepLog)
        ensures
            r.wf(),
            r@ == Seq::<StepView>::empty(),
    {
        let r = StepLog { records: Vec::new() };
        assert(r@ =~= Seq::<StepView>::empty());
        r
    }

    /// Number of stored records.
    pub fn len(&self) -> (r: usize)
        ensures
            r == self@.len(),
    {
        self.records.len()
    }

    /// Stores `rec`, replacing the record of the same date if there is one.
    pub fn save(&mut self, rec: StepData)
        ensures
            final(self)@ == upsert(old(self)@, rec@),
            old(self).wf() ==> final(self).wf(),
    {
        proof {
            if self.wf() {
                lemma_upsert(self@, rec@);
            }
        }
        let ghost s = self@;
        let ghost rv = rec@;
        let n = self.records.len();
        let mut i: usize = 0;
        while i < n
            invariant
                n == self.records@.len(),
                s == self@,
                s == old(self)@,
                rv == rec@,
                i <= n,
                forall|k: int| 0 <= k < i ==> #[trigger] s[k].date != rec.date@,
            decreases n - i,
        {
            assert(s[i as int] == self.records@[i as int]@);
            if self.records[i].date == rec.date {
                self.records.set(i, rec);
                assert(self@ =~= s.update(i as int, rv));
                assert(first_of_date(s, rv.date, i as int));
                let ghost j = choose|j: int| first_of_date(s, rv.date, j);
                assert(j == i);
                assert(upsert(s, rv) == s.update(i as int, rv));
                return;
            }
            i = i + 1;
        }
        self.records.push(rec);
        assert(!has_date(s, rv.date));
        assert(self@ =~= s.push(rv));
    }

    /// The records whose date lies in `[start, end]`, both ends included,
    /// where dates are compared as text. They come in the order they are
    /// stored. A range whose start comes after its end gives an empty list.
    pub fn range(&self, start: &str, end: &str) -> (r: Vec<StepData>)
        ensures
            r@.map_values(|x: StepData| x@) == records_in_range(self@, start@, end@),
    {
        let ghost s = self@;
        let ghost pred = |x: StepView| date_in_range(x.date, start@, end@);
        let mut out: Vec<StepData> = Vec::new();
        let n = self.records.len();
        let mut i: usize = 0;
        assert(out@.map_values(|x: StepData| x@) =~= s.take(0).filter(pred)) by {
            reveal(Seq::filter);
        }
        while i < n
            invariant
                n == self.records@.len(),
                s == self@,
                i <= n,
                pred == (|x: StepView| date_in_range(x.date, start@, end@)),
                out@.map_values(|x: StepData| x@) == s.take(i as int).filter(pred),
            decreases n - i,
        {
            let rec = &self.records[i];
            let keep = le_text(start, rec.date.as_str()) && le_text(rec.date.as_str(), end);
            assert(s.take(i + 1).drop_last() =~= s.take(i as int));
            proof {
                reveal(Seq::filter);
            }
            assert(s.take(i + 1).last() == s[i as int]);
            assert(keep == pred(s[i as int]));
            if keep {
                out.push(StepData { date: rec.date.clone(), steps: rec.steps, is_goal: rec.is_goal });
                assert(out@.map_values(|x: StepData| x@) =~= s.take(i + 1).filter(pred));
            } else {
                assert(out@.map_values(|x: StepData| x@) =~= s.take(i + 1).filter(pred));
            }
            i = i + 1;
        }
        assert(s.take(n as int) =~= s);
        out
    }
}

} // verus!
