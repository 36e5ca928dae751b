use vstd::prelude::*;

verus! {

/// Time in milliseconds given to each challenge of a record stored before
/// challenge times were kept: one hour.
pub const LEGACY_CHALLENGE_TIME_MS: u64 = 3600000;

/// One leaderboard entry: how a player did on a game path.
#[derive(Debug, Clone, PartialEq)]
pub struct PerformanceRecord {
    pub game_path_id: String,
    pub profile_name: String,
    /// (challenge id, percentage, time taken in milliseconds) per challenge.
    pub challenges_performance: Vec<(String, u8, u64)>,
    pub total_challenges: usize,
    pub performance_percentage: u8,
    /// When the record was made, in milliseconds since the Unix epoch.
    pub date: i64,
}

/// A performance record as plain values.
pub struct RecordView {
    pub game_path_id: Seq<char>,
    pub profile_name: Seq<char>,
    pub challenges: Seq<(Seq<char>, u8, u64)>,
    pub total_challenges: usize,
    pub percentage: u8,
    pub date: i64,
}

pub open spec fn challenge_view(c: (String, u8, u64)) -> (Seq<char>, u8, u64) {
    (c.0@, c.1, c.2)
}

pub open spec fn challenges_view(v: Seq<(String, u8, u64)>) -> Seq<(Seq<char>, u8, u64)> {
    Seq::new(v.len(), |i: int| challenge_view(v[i]))
}

impl View for PerformanceRecord {
    type V = RecordView;

    open spec fn view(&self) -> RecordView {
        RecordView {
            game_path_id: self.game_path_id@,
            profile_name: self.profile_name@,
            challenges: challenges_view(self.challenges_performance@),
            total_challenges: self.total_challenges,
            percentage: self.performance_percentage,
            date: self.date,
        }
    }
}

/// The views of a sequence of records.
pub open spec fn records_view(s: Seq<PerformanceRecord>) -> Seq<RecordView> {
    Seq::new(s.len(), |i: int| s[i]@)
}

/// Sum of the challenge times of a record.
pub open spec fn total_time(c: Seq<(Seq<char>, u8, u64)>) -> int
    decreases c.len(),
{
    if c.len() == 0 {
        0
    } else {
        total_time(c.drop_last()) + c.last().2
    }
}

/// `a` ranks strictly better than `b`: a higher percentage; on equal
/// percentages less total challenge time; on equal times a later date.
/// Records equal in all three rank alike.
pub open spec fn rank_better(a: RecordView, b: RecordView) -> bool {
    ||| a.percentage > b.percentage
    ||| (a.percentage == b.percentage && total_time(a.challenges) < total_time(b.challenges))
    ||| (a.percentage == b.percentage && total_time(a.challenges) == total_time(b.challenges)
        && a.date > b.date)
}

proof fn lemma_total_time_bound(c: Seq<(Seq<char>, u8, u64)>)
    ensures
        0 <= total_time(c) <= c.len() * 0xFFFF_FFFF_FFFF_FFFF,
    decreases c.len(),
{
    if c.len() > 0 {
        lemma_total_time_bound(c.drop_last());
    }
}

/// The sum of the challenge times, in milliseconds.
pub fn total_challenge_time(c: &Vec<(String, u8, u64)>) -> (r: u128)
    ensures
        r == total_time(challenges_view(c@)),
{
    let ghost cv = challenges_view(c@);
    let mut acc: u128 = 0;
    let mut i: usize = 0;
    while i < c.len()
        invariant
            i <= c.len(),
            cv == challenges_view(c@),
            acc == total_time(cv.take(i as int)),
        decreases c.len() - i,
    {
        proof {
            lemma_total_time_bound(cv.take(i as int));
            assert(cv.take(i as int + 1).drop_last() =~= cv.take(i as int));
            assert(i * 0xFFFF_FFFF_FFFF_FFFFu128 + 0xFFFF_FFFF_FFFF_FFFFu128 < u128::MAX) by (nonlinear_arith)
                requires i <= usize::MAX;
        }
        acc = acc + c[i].2 as u128;
        i = i + 1;
    }
    assert(cv.take(i as int) =~= cv);
    acc
}

/// Whether `a` ranks strictly better than `b`.
pub fn ranks_better(a: &PerformanceRecord, b: &PerformanceRecord) -> (r: bool)
    ensures
        r == rank_better(a@, b@),
{
    if a.performance_percentage != b.performance_percentage {
        return a.performance_percentage > b.performance_percentage;
    }
    let ta = total_challenge_time(&a.challenges_performance);
    let tb = total_challenge_time(&b.challenges_performance);
    if ta != tb {
        ta < tb
    } else {
        a.date > b.date
    }
}


/// Copies a string; the copy holds the same characters.
pub fn copy_string(s: &String) -> (r: String)
    ensures
        r@ == s@,
{
    s.clone()
}

/// Copies a list of challenge results.
pub fn copy_challenges(v: &Vec<(String, u8, u64)>) -> (r: Vec<(String, u8, u64)>)
    ensures
        challenges_view(r@) == challenges_view(v@),
{
    let mut r: Vec<(String, u8, u64)> = Vec::new();
    let mut i: usize = 0;
    while i < v.len()
        invariant
            i <= v.len(),
            r@.len() == i,
            forall|k: int| 0 <= k < i ==> challenge_view(#[trigger] r@[k]) == challenge_view(v@[k]),
        decreases v.len() - i,
    {
        let c = &v[i];
        r.push((copy_string(&c.0), c.1, c.2));
        i = i + 1;
    }
    assert(challenges_view(r@) =~= challenges_view(v@));
    r
}

/// Whether two lists of challenge results hold the same values.
pub fn same_challenges(a: &Vec<(String, u8, u64)>, b: &Vec<(String, u8, u64)>) -> (r: bool)
    ensures
        r == (challenges_view(a@) == challenges_view(b@)),
{
    if a.len() != b.len() {
        assert(challenges_view(a@).len() != challenges_view(b@).len());
        return false;
    }
    let mut i: usize = 0;
    while i < a.len()
        invariant
            i <= a.len(),
            a.len() == b.len(),
            forall|k: int| 0 <= k < i ==> challenge_view(#[trigger] a@[k]) == challenge_view(b@[k]),
        decreases a.len() - i,
    {
        let x = &a[i];
        let y = &b[i];
        if !(x.0 == y.0 && x.1 == y.1 && x.2 == y.2) {
            assert(challenges_view(a@)[i as int] != challenges_view(b@)[i as int]);
            return false;
        }
        i = i + 1;
    }
    assert(challenges_view(a@) =~= challenges_view(b@));
    true
}

impl PerformanceRecord {
    /// A copy of the record with the same values.
    pub fn duplicate(&self) -> (r: PerformanceRecord)
        ensures
            r@ == self@,
    {
        PerformanceRecord {
            game_path_id: copy_string(&self.game_path_id),
            profile_name: copy_string(&self.profile_name),
            challenges_performance: copy_challenges(&self.challenges_performance),
            total_challenges: self.total_challenges,
            performance_percentage: self.performance_percentage,
            date: self.date,
        }
    }

    /// Whether two records hold the same values.
    pub fn same_as(&self, other: &PerformanceRecord) -> (r: bool)
        ensures
            r == (self@ == other@),
    {
        self.game_path_id == other.game_path_id
            && self.profile_name == other.profile_name
            && self.total_challenges == other.total_challenges
            && self.performance_percentage == other.performance_percentage
            && self.date == other.date
            && same_challenges(&self.challenges_performance, &other.challenges_performance)
    }
}

/// A performance record in the form stored before challenge times were kept.
#[derive(Debug, Clone, PartialEq)]
pub struct LegacyPerformanceRecord {
    pub game_path_id: String,
    pub profile_name: String,
    /// (challenge id, percentage) per challenge.
    pub challenges_performance: Vec<(String, u8)>,
    pub total_challenges: usize,
    pub performance_percentage: u8,
    /// Milliseconds since the Unix epoch.
    pub date: i64,
}

/// The current form of a legacy record: every challenge gets the legacy time
/// of one hour, everything else is kept.
pub open spec fn upgrade(l: LegacyPerformanceRecord) -> RecordView {
    RecordView {
        game_path_id: l.game_path_id@,
        profile_name: l.profile_name@,
        challenges: Seq::new(
            l.challenges_performance@.len(),
            |i: int| (l.challenges_performance@[i].0@, l.challenges_performance@[i].1, LEGACY_CHALLENGE_TIME_MS),
        ),
        total_challenges: l.total_challenges,
        percentage: l.performance_percentage,
        date: l.date,
    }
}

impl LegacyPerformanceRecord {
    /// The record in the current form: every challenge gets the legacy time
    /// of one hour, everything else is kept.
    pub fn to_record(&self) -> (r: PerformanceRecord)
        ensures
            r@ == upgrade(*self),
    {
        let mut out: Vec<(String, u8, u64)> = Vec::new();
        let mut i: usize = 0;
        while i < self.challenges_performance.len()
            invariant
                i <= self.challenges_performance@.len(),
                out@.len() == i,
                forall|k: int|
                    0 <= k < i ==> challenge_view(#[trigger] out@[k]) == (
                        self.challenges_performance@[k].0@,
                        self.challenges_performance@[k].1,
                        LEGACY_CHALLENGE_TIME_MS,
                    ),
            decreases self.challenges_performance@.len() - i,
        {
            let c = &self.challenges_performance[i];
            out.push((copy_string(&c.0), c.1, LEGACY_CHALLENGE_TIME_MS));
            i = i + 1;
        }
        let r = PerformanceRecord {
            game_path_id: copy_string(&self.game_path_id),
            profile_name: copy_string(&self.profile_name),
            challenges_performance: out,
            total_challenges: self.total_challenges,
            performance_percentage: self.performance_percentage,
            date: self.date,
        };
        assert(r@.challenges =~= upgrade(*self).challenges);
        r
    }
}

} // verus!
