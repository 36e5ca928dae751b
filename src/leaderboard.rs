use vstd::prelude::*;
use crate::error::RepositoryError;
use crate::record::{records_view, rank_better, total_time, PerformanceRecord, RecordView, ranks_better};

verus! {

/// How many records a leaderboard keeps.
pub const PERFORMANCE_RECORDS_LIMIT: usize = 10;

/// Namespace of the leaderboard over all challenges.
pub const GLOBAL_NAMESPACE: &'static str = "leaderboard";

/// Index of the worst-ranked record of `s`; of several that rank alike, the
/// last one.
pub open spec fn worst_index(s: Seq<RecordView>) -> int
    decreases s.len(),
{
    if s.len() <= 1 {
        0
    } else {
        let w = worst_index(s.drop_last());
        if rank_better(s.last(), s[w]) {
            w
        } else {
            s.len() - 1
        }
    }
}

/// Whether a leaderboard holding `s` takes `rec`: it has room, or `rec`
/// ranks strictly better than its worst record. A record that only ties the
/// worst one is refused.
pub open spec fn accepts(s: Seq<RecordView>, rec: RecordView) -> bool {
    s.len() < PERFORMANCE_RECORDS_LIMIT || rank_better(rec, s[worst_index(s)])
}

/// What a leaderboard holding `s` holds after `rec` is submitted: `rec` is
/// appended when there is room; at capacity it replaces the worst record if
/// it ranks strictly better; else nothing changes.
pub open spec fn after_submit(s: Seq<RecordView>, rec: RecordView) -> Seq<RecordView> {
    if s.len() < PERFORMANCE_RECORDS_LIMIT {
        s.push(rec)
    } else if accepts(s, rec) {
        s.remove(worst_index(s)).push(rec)
    } else {
        s
    }
}

/// The record that a submission of `rec` discards, if any: the evicted
/// worst record, or `rec` itself when it is refused.
pub open spec fn discarded_by(s: Seq<RecordView>, rec: RecordView) -> Option<RecordView> {
    if s.len() < PERFORMANCE_RECORDS_LIMIT {
        None
    } else if accepts(s, rec) {
        Some(s[worst_index(s)])
    } else {
        Some(rec)
    }
}

/// What a leaderboard holding `s` holds after each of `recs` is submitted in turn.
pub open spec fn after_all(s: Seq<RecordView>, recs: Seq<RecordView>) -> Seq<RecordView>
    decreases recs.len(),
{
    if recs.len() == 0 {
        s
    } else {
        after_submit(after_all(s, recs.drop_last()), recs.last())
    }
}

/// Every record that submitting each of `recs` in turn discards, in order.
pub open spec fn discarded_all(s: Seq<RecordView>, recs: Seq<RecordView>) -> Seq<RecordView>
    decreases recs.len(),
{
    if recs.len() == 0 {
        Seq::empty()
    } else {
        let prev = discarded_all(s, recs.drop_last());
        match discarded_by(after_all(s, recs.drop_last()), recs.last()) {
            Some(d) => prev.push(d),
            None => prev,
        }
    }
}

/// No record of `s` ranks strictly better than another one placed before it.
pub open spec fn is_ranked(t: Seq<RecordView>) -> bool {
    forall|i: int, j: int| 0 <= i < j < t.len() ==> !rank_better(#[trigger] t[j], #[trigger] t[i])
}

/// Where `x` goes into `t`: after the last record that `x` does not rank
/// strictly better than.
pub open spec fn insert_pos(t: Seq<RecordView>, x: RecordView) -> int
    decreases t.len(),
{
    if t.len() == 0 {
        0
    } else if rank_better(x, t.last()) {
        insert_pos(t.drop_last(), x)
    } else {
        t.len() as int
    }
}

/// `s` ordered best first by insertion; records that rank alike keep their
/// order in `s`.
pub open spec fn sort_ranked(s: Seq<RecordView>) -> Seq<RecordView>
    decreases s.len(),
{
    if s.len() == 0 {
        s
    } else {
        let t = sort_ranked(s.drop_last());
        t.insert(insert_pos(t, s.last()), s.last())
    }
}

/// `a` and `b` rank alike: same percentage, total time and date.
pub open spec fn ranks_alike(a: RecordView, b: RecordView) -> bool {
    a.percentage == b.percentage && total_time(a.challenges) == total_time(b.challenges) && a.date == b.date
}

/// The records of `s` that rank alike with `c`, in their order.
pub open spec fn alike_with(s: Seq<RecordView>, c: RecordView) -> Seq<RecordView>
    decreases s.len(),
{
    if s.len() == 0 {
        s
    } else if ranks_alike(s.last(), c) {
        alike_with(s.drop_last(), c).push(s.last())
    } else {
        alike_with(s.drop_last(), c)
    }
}

proof fn lemma_alike_insert(t: Seq<RecordView>, p: int, x: RecordView, c: RecordView)
    requires
        0 <= p <= t.len(),
        forall|k: int| p <= k < t.len() ==> rank_better(x, #[trigger] t[k]),
    ensures
        alike_with(t.insert(p, x), c) == if ranks_alike(x, c) {
            alike_with(t, c).push(x)
        } else {
            alike_with(t, c)
        },
    decreases t.len(),
{
    if p == t.len() {
        assert(t.insert(p, x) =~= t.push(x));
        assert(t.push(x).drop_last() =~= t);
    } else {
        let d = t.drop_last();
        assert forall|k: int| p <= k < d.len() implies rank_better(x, #[trigger] d[k]) by {
            assert(d[k] == t[k]);
        }
        lemma_alike_insert(d, p, x, c);
        assert(t.insert(p, x).drop_last() =~= d.insert(p, x));
        assert(t.insert(p, x).last() == t.last());
        assert(rank_better(x, t[t.len() - 1]));
    }
}

/// The worst index points at a record that ranks no better than any other
/// record, and every later record ranks strictly better than it.
pub proof fn lemma_worst_index(s: Seq<RecordView>)
    requires
        s.len() > 0,
    ensures
        0 <= worst_index(s) < s.len(),
        forall|j: int| 0 <= j < s.len() ==> !rank_better(s[worst_index(s)], #[trigger] s[j]),
        forall|j: int| worst_index(s) < j < s.len() ==> rank_better(#[trigger] s[j], s[worst_index(s)]),
    decreases s.len(),
{
    if s.len() > 1 {
        let p = s.drop_last();
        lemma_worst_index(p);
        let w = worst_index(p);
        assert forall|j: int| 0 <= j < s.len() implies !rank_better(s[worst_index(s)], #[trigger] s[j]) by {
            if j < s.len() - 1 {
                assert(p[j] == s[j]);
            }
        }
        assert forall|j: int| worst_index(s) < j < s.len() implies rank_better(#[trigger] s[j], s[worst_index(s)]) by {
            if j < s.len() - 1 {
                assert(p[j] == s[j]);
            }
        }
    }
}

proof fn lemma_insert_pos(t: Seq<RecordView>, x: RecordView)
    requires
        is_ranked(t),
    ensures
        0 <= insert_pos(t, x) <= t.len(),
        forall|k: int| 0 <= k < insert_pos(t, x) ==> !rank_better(x, #[trigger] t[k]),
        forall|k: int| insert_pos(t, x) <= k < t.len() ==> rank_better(x, #[trigger] t[k]),
    decreases t.len(),
{
    if t.len() > 0 {
        let p = t.drop_last();
        assert(is_ranked(p)) by {
            assert forall|i: int, j: int| 0 <= i < j < p.len() implies !rank_better(#[trigger] p[j], #[trigger] p[i]) by {
                assert(t[i] == p[i] && t[j] == p[j]);
            }
        }
        lemma_insert_pos(p, x);
        if rank_better(x, t.last()) {
            assert forall|k: int| insert_pos(t, x) <= k < t.len() implies rank_better(x, #[trigger] t[k]) by {
                if k < t.len() - 1 {
                    assert(p[k] == t[k]);
                }
            }
            assert forall|k: int| 0 <= k < insert_pos(t, x) implies !rank_better(x, #[trigger] t[k]) by {
                assert(p[k] == t[k]);
            }
        } else {
            assert forall|k: int| 0 <= k < insert_pos(t, x) implies !rank_better(x, #[trigger] t[k]) by {
                if k < t.len() - 1 {
                    assert(!rank_better(t[t.len() - 1], t[k]));
                }
            }
        }
    }
}

/// The sorted leaderboard is ordered best first and holds exactly the
/// records it was made from.
pub proof fn lemma_sort_ranked(s: Seq<RecordView>)
    ensures
        is_ranked(sort_ranked(s)),
        sort_ranked(s).to_multiset() == s.to_multiset(),
        sort_ranked(s).len() == s.len(),
    decreases s.len(),
{
    if s.len() > 0 {
        let p = s.drop_last();
        let x = s.last();
        lemma_sort_ranked(p);
        let t = sort_ranked(p);
        lemma_insert_pos(t, x);
        let q = insert_pos(t, x);
        let r = t.insert(q, x);
        assert(r == sort_ranked(s));
        t.insert_ensures(q, x);
        p.to_multiset_ensures();
        r.to_multiset_ensures();
        assert(p.push(x) =~= s);
        assert(r.remove(q) =~= t);
        assert(r[q] == x);
        assert(r.to_multiset() =~= t.to_multiset().insert(x));
        assert forall|i: int, j: int| 0 <= i < j < r.len() implies !rank_better(#[trigger] r[j], #[trigger] r[i]) by {
            if j < q {
                assert(r[i] == t[i] && r[j] == t[j]);
            } else if j == q {
                assert(r[i] == t[i]);
            } else if i < q {
                assert(r[i] == t[i] && r[j] == t[j - 1]);
            } else if i == q {
                assert(r[j] == t[j - 1]);
            } else {
                assert(r[i] == t[i - 1] && r[j] == t[j - 1]);
            }
        }
    }
}

/// Sorting is stable: the records that rank alike with any record keep
/// their order.
pub proof fn lemma_sort_stable(s: Seq<RecordView>, c: RecordView)
    ensures
        alike_with(sort_ranked(s), c) == alike_with(s, c),
    decreases s.len(),
{
    if s.len() > 0 {
        let p = s.drop_last();
        let x = s.last();
        lemma_sort_stable(p, c);
        lemma_sort_ranked(p);
        let t = sort_ranked(p);
        lemma_insert_pos(t, x);
        lemma_alike_insert(t, insert_pos(t, x), x, c);
    }
}

/// Capacity: from a leaderboard within its limit, no sequence of
/// submissions makes it hold more than the limit.
pub proof fn lemma_capacity_kept(s: Seq<RecordView>, recs: Seq<RecordView>)
    requires
        s.len() <= PERFORMANCE_RECORDS_LIMIT,
    ensures
        after_all(s, recs).len() <= PERFORMANCE_RECORDS_LIMIT,
    decreases recs.len(),
{
    if recs.len() > 0 {
        let prev = after_all(s, recs.drop_last());
        lemma_capacity_kept(s, recs.drop_last());
        if prev.len() >= PERFORMANCE_RECORDS_LIMIT && accepts(prev, recs.last()) {
            lemma_worst_index(prev);
        }
    }
}

/// `discarded` extended by what submitting `rec` to a leaderboard holding
/// `s` discards.
pub open spec fn discarded_after(discarded: Seq<RecordView>, s: Seq<RecordView>, rec: RecordView) -> Seq<RecordView> {
    match discarded_by(s, rec) {
        Some(d) => discarded.push(d),
        None => discarded,
    }
}

/// The leaderboard `s` is within its limit, was full whenever something was
/// discarded, and every record it keeps ranks at least as well as every
/// discarded one.
pub open spec fn outranks_discarded(s: Seq<RecordView>, discarded: Seq<RecordView>) -> bool {
    &&& s.len() <= PERFORMANCE_RECORDS_LIMIT
    &&& discarded.len() > 0 ==> s.len() == PERFORMANCE_RECORDS_LIMIT
    &&& forall|i: int, j: int|
        0 <= i < s.len() && 0 <= j < discarded.len() ==> !rank_better(#[trigger] discarded[j], #[trigger] s[i])
}

/// Monotonicity, one submission at a time: if the records a leaderboard
/// keeps outrank those discarded so far, they still do after one more
/// submission, counting what it discards.
pub proof fn lemma_submit_keeps_outranking(s: Seq<RecordView>, discarded: Seq<RecordView>, rec: RecordView)
    requires
        outranks_discarded(s, discarded),
    ensures
        outranks_discarded(after_submit(s, rec), discarded_after(discarded, s, rec)),
{
    let new_b = after_submit(s, rec);
    let new_d = discarded_after(discarded, s, rec);
    if s.len() < PERFORMANCE_RECORDS_LIMIT {
        assert(new_d == discarded);
    } else {
        lemma_worst_index(s);
        let w = worst_index(s);
        if accepts(s, rec) {
            assert(new_b == s.remove(w).push(rec));
            assert(new_d == discarded.push(s[w]));
            assert forall|i: int, j: int|
                0 <= i < new_b.len() && 0 <= j < new_d.len()
                    implies !rank_better(#[trigger] new_d[j], #[trigger] new_b[i]) by {
                if i == new_b.len() - 1 {
                    assert(new_b[i] == rec);
                    if j < discarded.len() {
                        assert(new_d[j] == discarded[j]);
                        assert(!rank_better(discarded[j], s[w]));
                    }
                } else if i < w {
                    assert(new_b[i] == s[i]);
                    if j < discarded.len() {
                        assert(new_d[j] == discarded[j]);
                    }
                } else {
                    assert(new_b[i] == s[i + 1]);
                    if j < discarded.len() {
                        assert(new_d[j] == discarded[j]);
                    }
                }
            }
        } else {
            assert(new_b == s);
            assert(new_d == discarded.push(rec));
            assert forall|i: int, j: int|
                0 <= i < new_b.len() && 0 <= j < new_d.len()
                    implies !rank_better(#[trigger] new_d[j], #[trigger] new_b[i]) by {
                if j < discarded.len() {
                    assert(new_d[j] == discarded[j]);
                } else {
                    assert(!rank_better(s[w], s[i]));
                }
            }
        }
    }
}

proof fn lemma_discard_invariant(s: Seq<RecordView>, recs: Seq<RecordView>)
    requires
        s.len() <= PERFORMANCE_RECORDS_LIMIT,
    ensures
        outranks_discarded(after_all(s, recs), discarded_all(s, recs)),
    decreases recs.len(),
{
    if recs.len() > 0 {
        let rs = recs.drop_last();
        lemma_discard_invariant(s, rs);
        lemma_submit_keeps_outranking(after_all(s, rs), discarded_all(s, rs), recs.last());
        assert(discarded_all(s, recs) == discarded_after(discarded_all(s, rs), after_all(s, rs), recs.last()));
    }
}

/// Monotonicity: after any sequence of submissions to a leaderboard within
/// its limit, every record it keeps ranks at least as well as every record
/// that the submissions refused or evicted.
pub proof fn lemma_retained_outrank_discarded(s: Seq<RecordView>, recs: Seq<RecordView>)
    requires
        s.len() <= PERFORMANCE_RECORDS_LIMIT,
    ensures
        forall|i: int, j: int|
            0 <= i < after_all(s, recs).len() && 0 <= j < discarded_all(s, recs).len()
                ==> !rank_better(#[trigger] discarded_all(s, recs)[j], #[trigger] after_all(s, recs)[i]),
{
    lemma_discard_invariant(s, recs);
}


/// Reading is idempotent: the ordered leaderboard is a function of the
/// stored records alone, so two reads with no write between them return the
/// same records in the same order.
pub proof fn lemma_read_idempotent(first: Seq<RecordView>, second: Seq<RecordView>)
    requires
        first == second,
    ensures
        sort_ranked(first) == sort_ranked(second),
        sort_ranked(first).to_multiset() == second.to_multiset(),
{
    lemma_sort_ranked(first);
}

/// The records of `v` ordered best first; records that rank alike keep their
/// order in `v`.
pub fn sort_records(v: &Vec<PerformanceRecord>) -> (r: Vec<PerformanceRecord>)
    ensures
        records_view(r@) == sort_ranked(records_view(v@)),
        is_ranked(records_view(r@)),
        records_view(r@).to_multiset() == records_view(v@).to_multiset(),
        forall|c: RecordView| #[trigger] alike_with(records_view(r@), c) == alike_with(records_view(v@), c),
{
    let ghost sv = records_view(v@);
    let mut out: Vec<PerformanceRecord> = Vec::new();
    let mut i: usize = 0;
    assert(sv.take(0) =~= Seq::<RecordView>::empty());
    while i < v.len()
        invariant
            i <= v.len(),
            sv == records_view(v@),
            records_view(out@) == sort_ranked(sv.take(i as int)),
        decreases v.len() - i,
    {
        let x = v[i].duplicate();
        let ghost ov = records_view(out@);
        let mut p: usize = out.len();
        let mut done = false;
        assert(ov.take(p as int) =~= ov);
        while !done && p > 0
            invariant
                p <= out.len(),
                ov == records_view(out@),
                insert_pos(ov, x@) == insert_pos(ov.take(p as int), x@),
                done ==> insert_pos(ov.take(p as int), x@) == p,
            decreases p + (if done { 0int } else { 1int }),
        {
            if ranks_better(&x, &out[p - 1]) {
                assert(ov.take(p as int).drop_last() =~= ov.take(p - 1));
                p = p - 1;
            } else {
                done = true;
            }
        }
        let ghost xv = x@;
        out.insert(p, x);
        proof {
            assert(sv.take(i + 1).drop_last() =~= sv.take(i as int));
            assert(sv.take(i + 1).last() == xv);
            ov.insert_ensures(p as int, xv);
            assert(records_view(out@) =~= ov.insert(p as int, xv));
        }
        i = i + 1;
    }
    assert(sv.take(i as int) =~= sv);
    proof {
        lemma_sort_ranked(sv);
        assert forall|c: RecordView| #[trigger] alike_with(records_view(out@), c) == alike_with(sv, c) by {
            lemma_sort_stable(sv, c);
        }
    }
    out
}

/// Index of the worst-ranked record of `v`; of several that rank alike, the last.
pub fn worst_record_index(v: &Vec<PerformanceRecord>) -> (r: usize)
    requires
        v@.len() > 0,
    ensures
        r == worst_index(records_view(v@)),
{
    let ghost s = records_view(v@);
    let n = v.len();
    let mut w: usize = 0;
    let mut j: usize = 1;
    while j < n
        invariant
            1 <= j <= n,
            n == s.len(),
            s == records_view(v@),
            w < j,
            w == worst_index(s.take(j as int)),
        decreases n - j,
    {
        assert(s.take(j + 1).drop_last() =~= s.take(j as int));
        if !ranks_better(&v[j], &v[w]) {
            w = j;
        }
        j = j + 1;
    }
    assert(s.take(n as int) =~= s);
    w
}

/// What a store holding a namespace's records does with a submitted record.
#[derive(Debug, Clone, Copy, PartialEq, Eq, Structural)]
pub enum SubmitPlan {
    /// There is room: add the record.
    Append,
    /// At the limit, the record ranks strictly better than the worst one,
    /// at this index: remove that one, then add the record.
    Replace(usize),
    /// At the limit, the record does not rank better than the worst one:
    /// refuse it with `LimitReached`.
    Refuse,
}

/// The plan for submitting `rec` to a namespace holding `current`; carried
/// out, it leaves `after_submit(current, rec)` (the replaced record goes,
/// the new one is added at the end).
pub fn plan_submission(current: &Vec<PerformanceRecord>, rec: &PerformanceRecord) -> (r: SubmitPlan)
    ensures
        records_view(current@).len() < PERFORMANCE_RECORDS_LIMIT <==> r == SubmitPlan::Append,
        (records_view(current@).len() >= PERFORMANCE_RECORDS_LIMIT && accepts(records_view(current@), rec@))
            <==> r is Replace,
        r is Replace ==> r->Replace_0 == worst_index(records_view(current@)) && r->Replace_0 < current@.len(),
        !accepts(records_view(current@), rec@) <==> r == SubmitPlan::Refuse,
{
    if current.len() < PERFORMANCE_RECORDS_LIMIT {
        return SubmitPlan::Append;
    }
    let w = worst_record_index(current);
    proof {
        lemma_worst_index(records_view(current@));
    }
    if ranks_better(rec, &current[w]) {
        SubmitPlan::Replace(w)
    } else {
        SubmitPlan::Refuse
    }
}

/// The retained records of one namespace.
pub struct Leaderboard {
    namespace: String,
    records: Vec<PerformanceRecord>,
}

impl View for Leaderboard {
    type V = Seq<RecordView>;

    closed spec fn view(&self) -> Seq<RecordView> {
        records_view(self.records@)
    }
}

impl Leaderboard {
    /// The namespace that the leaderboard belongs to.
    pub closed spec fn namespace_view(&self) -> Seq<char> {
        self.namespace@
    }

    /// The leaderboard holds no more records than its limit.
    pub open spec fn wf(&self) -> bool {
        self@.len() <= PERFORMANCE_RECORDS_LIMIT
    }

    /// An empty leaderboard for `namespace`.
    pub fn new(namespace: String) -> (r: Leaderboard)
        ensures
            r@ == Seq::<RecordView>::empty(),
            r.namespace_view() == namespace@,
            r.wf(),
    {
        let r = Leaderboard { namespace, records: Vec::new() };
        assert(r@ =~= Seq::<RecordView>::empty());
        r
    }

    /// The namespace that the leaderboard belongs to.
    pub fn namespace(&self) -> (r: &String)
        ensures
            r@ == self.namespace_view(),
    {
        &self.namespace
    }

    /// How many records are retained.
    pub fn len(&self) -> (r: usize)
        ensures
            r == self@.len(),
    {
        self.records.len()
    }

    /// Copies of the retained records, in the order they are stored.
    pub fn fetch_performance_records(&self) -> (r: Vec<PerformanceRecord>)
        ensures
            records_view(r@) == self@,
    {
        let mut r: Vec<PerformanceRecord> = Vec::new();
        let mut i: usize = 0;
        while i < self.records.len()
            invariant
                i <= self.records@.len(),
                r@.len() == i,
                forall|k: int| 0 <= k < i ==> (#[trigger] r@[k])@ == self.records@[k]@,
            decreases self.records@.len() - i,
        {
            r.push(self.records[i].duplicate());
            i = i + 1;
        }
        assert(records_view(r@) =~= self@);
        r
    }

    /// The retained records ordered best first; records that rank alike keep
    /// the order in which they were stored.
    pub fn get_leaderboard(&self) -> (r: Vec<PerformanceRecord>)
        ensures
            records_view(r@) == sort_ranked(self@),
            is_ranked(records_view(r@)),
            records_view(r@).to_multiset() == self@.to_multiset(),
            forall|c: RecordView| #[trigger] alike_with(records_view(r@), c) == alike_with(self@, c),
    {
        sort_records(&self.records)
    }

    /// Stores `rec` if the leaderboard is below its limit; else refuses it
    /// with `LimitReached`, leaving the records as they were.
    pub fn add_performance_record(&mut self, rec: PerformanceRecord) -> (r: Result<PerformanceRecord, RepositoryError>)
        requires
            old(self).wf(),
        ensures
            final(self).wf(),
            final(self).namespace_view() == old(self).namespace_view(),
            old(self)@.len() < PERFORMANCE_RECORDS_LIMIT ==> r is Ok && r->Ok_0@ == rec@
                && final(self)@ == old(self)@.push(rec@),
            old(self)@.len() >= PERFORMANCE_RECORDS_LIMIT ==> r == Err::<PerformanceRecord, RepositoryError>(
                RepositoryError::LimitReached(PERFORMANCE_RECORDS_LIMIT),
            ) && final(self)@ == old(self)@,
    {
        if self.records.len() < PERFORMANCE_RECORDS_LIMIT {
            let copy = rec.duplicate();
            self.records.push(rec);
            assert(self@ =~= old(self)@.push(copy@));
            Ok(copy)
        } else {
            Err(RepositoryError::LimitReached(PERFORMANCE_RECORDS_LIMIT))
        }
    }

    /// Removes the first stored record equal to `rec`; `NotFound`, naming the
    /// record's game path, when there is none.
    pub fn remove_performance_record(&mut self, rec: PerformanceRecord) -> (r: Result<PerformanceRecord, RepositoryError>)
        requires
            old(self).wf(),
        ensures
            final(self).wf(),
            final(self).namespace_view() == old(self).namespace_view(),
            r is Ok <==> old(self)@.contains(rec@),
            r is Ok ==> r->Ok_0@ == rec@ && exists|i: int|
                0 <= i < old(self)@.len() && old(self)@[i] == rec@
                    && (forall|k: int| 0 <= k < i ==> old(self)@[k] != rec@)
                    && final(self)@ == old(self)@.remove(i),
            r is Err ==> r->Err_0 is NotFound && r->Err_0->NotFound_0@ == rec.game_path_id@
                && final(self)@ == old(self)@,
    {
        let mut i: usize = 0;
        while i < self.records.len()
            invariant
                i <= self.records@.len(),
                self.records@ == old(self).records@,
                self.namespace == old(self).namespace,
                old(self).wf(),
                forall|k: int| 0 <= k < i ==> self@[k] != rec@,
            decreases self.records@.len() - i,
        {
            if self.records[i].same_as(&rec) {
                let ghost before = self@;
                assert(before[i as int] == rec@);
                self.records.remove(i);
                assert(self@ =~= before.remove(i as int));
                return Ok(rec);
            }
            i = i + 1;
        }
        Err(RepositoryError::NotFound(rec.game_path_id))
    }

    /// Index of the worst-ranked record; of several that rank alike, the last.
    pub fn worst_position(&self) -> (r: usize)
        requires
            self@.len() > 0,
        ensures
            r == worst_index(self@),
    {
        worst_record_index(&self.records)
    }

    /// Submits `rec`: stored while there is room; at the limit it replaces
    /// the worst record if it ranks strictly better, and is refused with
    /// `LimitReached` otherwise (a tie keeps the stored record).
    pub fn submit(&mut self, rec: PerformanceRecord) -> (r: Result<PerformanceRecord, RepositoryError>)
        requires
            old(self).wf(),
        ensures
            final(self).wf(),
            final(self).namespace_view() == old(self).namespace_view(),
            final(self)@ == after_submit(old(self)@, rec@),
            accepts(old(self)@, rec@) ==> r is Ok && r->Ok_0@ == rec@,
            !accepts(old(self)@, rec@) ==> r == Err::<PerformanceRecord, RepositoryError>(
                RepositoryError::LimitReached(PERFORMANCE_RECORDS_LIMIT),
            ),
    {
        if self.records.len() < PERFORMANCE_RECORDS_LIMIT {
            return self.add_performance_record(rec);
        }
        let w = self.worst_position();
        let ghost before = self@;
        proof {
            lemma_worst_index(before);
        }
        assert(self.records@[w as int]@ == before[w as int]);
        if ranks_better(&rec, &self.records[w]) {
            self.records.remove(w);
            assert(self@ =~= before.remove(w as int));
            self.add_performance_record(rec)
        } else {
            Err(RepositoryError::LimitReached(PERFORMANCE_RECORDS_LIMIT))
        }
    }
}

} // verus!
