use konnektoren_api::error::RepositoryError;
use konnektoren_api::migration::{expired_up_to, find_matching_entry, migrate_stored_records, StoredRecord};
use konnektoren_api::record::{LegacyPerformanceRecord, PerformanceRecord};

fn current(name: &str, pct: u8) -> PerformanceRecord {
    PerformanceRecord {
        game_path_id: "path".to_string(),
        profile_name: name.to_string(),
        challenges_performance: vec![("c".to_string(), pct, 2000)],
        total_challenges: 1,
        performance_percentage: pct,
        date: 42,
    }
}

fn legacy(name: &str, pct: u8) -> LegacyPerformanceRecord {
    LegacyPerformanceRecord {
        game_path_id: "path".to_string(),
        profile_name: name.to_string(),
        challenges_performance: vec![("c".to_string(), pct)],
        total_challenges: 1,
        performance_percentage: pct,
        date: 42,
    }
}

#[test]
fn legacy_entries_are_upgraded_and_queued_for_rewrite() {
    let entries = vec![
        ("k1".to_string(), StoredRecord::Current(current("a", 70))),
        ("k2".to_string(), StoredRecord::Legacy(legacy("b", 80))),
    ];
    let migrated = migrate_stored_records(&entries).unwrap();
    assert_eq!(migrated.records.len(), 2);
    assert_eq!(migrated.records[0], current("a", 70));
    assert_eq!(migrated.records[1].challenges_performance, vec![("c".to_string(), 80, 3600000)]);
    assert_eq!(migrated.updates.len(), 1);
    assert_eq!(migrated.updates[0].0, "k2");
    assert_eq!(migrated.updates[0].1, migrated.records[1]);
}

#[test]
fn an_unreadable_entry_fails_the_read() {
    let entries = vec![
        ("k1".to_string(), StoredRecord::Current(current("a", 70))),
        ("k2".to_string(), StoredRecord::Unreadable),
    ];
    match migrate_stored_records(&entries) {
        Err(RepositoryError::InternalError(msg)) => assert_eq!(msg, "Invalid Performance Record format"),
        _ => panic!("expected an internal error"),
    }
}

#[test]
fn matching_entry_skips_unreadable_and_ignores_game_path() {
    let mut wanted = current("b", 80);
    wanted.challenges_performance = vec![("c".to_string(), 80, 3600000)];
    wanted.game_path_id = "elsewhere".to_string();
    let entries = vec![
        ("k0".to_string(), StoredRecord::Unreadable),
        ("k1".to_string(), StoredRecord::Current(current("a", 70))),
        ("k2".to_string(), StoredRecord::Legacy(legacy("b", 80))),
    ];
    assert_eq!(find_matching_entry(&entries, &wanted), Some(2));
    assert_eq!(find_matching_entry(&entries, &current("z", 1)), None);
}

#[test]
fn expiry_bound_is_one_window_back() {
    assert_eq!(expired_up_to(100), None);
    assert_eq!(expired_up_to(86400 + 5), Some(5));
}
