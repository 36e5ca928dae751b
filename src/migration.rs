use vstd::prelude::*;
use crate::error::RepositoryError;
use crate::presence::{is_active, PRESENCE_WINDOW_SECONDS};
use crate::record::{copy_string, records_view, upgrade, LegacyPerformanceRecord, PerformanceRecord, RecordView};

verus! {

/// A leaderboard entry as a backend decoded it from its stored bytes.
pub enum StoredRecord {
    /// Stored in the current form.
    Current(PerformanceRecord),
    /// Stored before challenge times were kept.
    Legacy(LegacyPerformanceRecord),
    /// In neither form.
    Unreadable,
}

/// The record an entry holds, in the current form.
pub open spec fn decoded(e: StoredRecord) -> RecordView
    recommends
        !(e is Unreadable),
{
    match e {
        StoredRecord::Current(r) => r@,
        StoredRecord::Legacy(l) => upgrade(l),
        StoredRecord::Unreadable => arbitrary(),
    }
}

/// Some entry of `s` is in neither form.
pub open spec fn any_unreadable(s: Seq<(String, StoredRecord)>) -> bool {
    exists|i: int| 0 <= i < s.len() && (#[trigger] s[i]).1 is Unreadable
}

/// The key and the current form of each legacy entry of `s`, in order: what
/// to write back so that the store holds only the current form.
pub open spec fn pending_updates(s: Seq<(String, StoredRecord)>) -> Seq<(Seq<char>, RecordView)>
    decreases s.len(),
{
    if s.len() == 0 {
        Seq::empty()
    } else {
        let prev = pending_updates(s.drop_last());
        match s.last().1 {
            StoredRecord::Legacy(l) => prev.push((s.last().0@, upgrade(l))),
            _ => prev,
        }
    }
}

/// The records of a namespace read from a backend, with the legacy entries to
/// rewrite in the current form.
pub struct MigratedRecords {
    pub records: Vec<PerformanceRecord>,
    pub updates: Vec<(String, PerformanceRecord)>,
}

/// The views of a list of keyed records.
pub open spec fn keyed_view(s: Seq<(String, PerformanceRecord)>) -> Seq<(Seq<char>, RecordView)> {
    Seq::new(s.len(), |i: int| (s[i].0@, s[i].1@))
}

/// Reads the decoded entries of a namespace: every record in the current
/// form, in order, and the legacy entries to write back. One entry in
/// neither form fails the whole read as an internal error.
pub fn migrate_stored_records(entries: &Vec<(String, StoredRecord)>) -> (r: Result<MigratedRecords, RepositoryError>)
    ensures
        r is Err <==> any_unreadable(entries@),
        r is Err ==> r->Err_0 is InternalError && r->Err_0->InternalError_0@ == "Invalid Performance Record format"@,
        r is Ok ==> records_view(r->Ok_0.records@) == Seq::new(entries@.len(), |i: int| decoded(entries@[i].1))
            && keyed_view(r->Ok_0.updates@) == pending_updates(entries@),
{
    let mut records: Vec<PerformanceRecord> = Vec::new();
    let mut updates: Vec<(String, PerformanceRecord)> = Vec::new();
    let mut i: usize = 0;
    assert(keyed_view(updates@) =~= pending_updates(entries@.take(0)));
    while i < entries.len()
        invariant
            i <= entries@.len(),
            records@.len() == i,
            forall|k: int| 0 <= k < i ==> (#[trigger] records@[k])@ == decoded(entries@[k].1),
            forall|k: int| 0 <= k < i ==> !((#[trigger] entries@[k]).1 is Unreadable),
            keyed_view(updates@) == pending_updates(entries@.take(i as int)),
        decreases entries@.len() - i,
    {
        assert(entries@.take(i + 1).drop_last() =~= entries@.take(i as int));
        let entry = &entries[i];
        match &entry.1 {
            StoredRecord::Current(rec) => {
                records.push(rec.duplicate());
            },
            StoredRecord::Legacy(legacy) => {
                let converted = legacy.to_record();
                let ghost before = keyed_view(updates@);
                updates.push((copy_string(&entry.0), converted.duplicate()));
                assert(keyed_view(updates@) =~= before.push((entry.0@, upgrade(*legacy))));
                records.push(converted);
            },
            StoredRecord::Unreadable => {
                return Err(RepositoryError::InternalError(String::from_str("Invalid Performance Record format")));
            },
        }
        i = i + 1;
    }
    assert(entries@.take(i as int) =~= entries@);
    assert(records_view(records@) =~= Seq::new(entries@.len(), |i: int| decoded(entries@[i].1)));
    Ok(MigratedRecords { records, updates })
}

/// Two records are the same leaderboard entry: same player, percentage,
/// date and challenge results.
pub open spec fn same_entry(a: RecordView, b: RecordView) -> bool {
    a.profile_name == b.profile_name && a.percentage == b.percentage && a.date == b.date
        && a.challenges == b.challenges
}

/// Whether entry `e` is readable and holds the same leaderboard entry as `rec`.
pub open spec fn entry_matches(e: StoredRecord, rec: RecordView) -> bool {
    !(e is Unreadable) && same_entry(decoded(e), rec)
}

/// Position of the first readable entry holding the same leaderboard entry
/// as `rec`; unreadable entries are passed over.
pub fn find_matching_entry(entries: &Vec<(String, StoredRecord)>, rec: &PerformanceRecord) -> (r: Option<usize>)
    ensures
        match r {
            Some(i) => i < entries@.len() && entry_matches(entries@[i as int].1, rec@)
                && forall|k: int| 0 <= k < i ==> !entry_matches(#[trigger] entries@[k].1, rec@),
            None => forall|k: int| 0 <= k < entries@.len() ==> !entry_matches(#[trigger] entries@[k].1, rec@),
        },
{
    let mut i: usize = 0;
    while i < entries.len()
        invariant
            i <= entries@.len(),
            forall|k: int| 0 <= k < i ==> !entry_matches(#[trigger] entries@[k].1, rec@),
        decreases entries@.len() - i,
    {
        let found = match &entries[i].1 {
            StoredRecord::Current(stored) => same_record_entry(stored, rec),
            StoredRecord::Legacy(legacy) => {
                let converted = legacy.to_record();
                same_record_entry(&converted, rec)
            },
            StoredRecord::Unreadable => false,
        };
        if found {
            return Some(i);
        }
        i = i + 1;
    }
    None
}

/// Whether two records are the same leaderboard entry.
pub fn same_record_entry(a: &PerformanceRecord, b: &PerformanceRecord) -> (r: bool)
    ensures
        r == same_entry(a@, b@),
{
    a.profile_name == b.profile_name && a.performance_percentage == b.performance_percentage
        && a.date == b.date && crate::record::same_challenges(&a.challenges_performance, &b.challenges_performance)
}

/// The latest second whose events no longer count at `now`, if any: events
/// at or before it are expired and may be deleted, later ones count.
pub fn expired_up_to(now: u64) -> (r: Option<u64>)
    ensures
        match r {
            Some(b) => forall|t: u64| is_active(t, now) <==> t > b,
            None => forall|t: u64| is_active(t, now),
        },
{
    if now < PRESENCE_WINDOW_SECONDS {
        None
    } else {
        Some(now - PRESENCE_WINDOW_SECONDS)
    }
}

} // verus!
