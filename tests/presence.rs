use konnektoren_api::presence::PRESENCE_WINDOW_SECONDS;
use konnektoren_api::services::{get_active_count, get_active_count_at, record_presence, record_presence_at};
use konnektoren_api::storage::MemoryRepository;

#[test]
fn test_windowed_counter() {
    let mut repo = MemoryRepository::new();
    let namespace = "test_challenge";

    let count = get_active_count(namespace, &repo).unwrap();
    assert_eq!(count, 0);

    let count = record_presence(namespace, &mut repo).unwrap();
    assert_eq!(count, 1);

    record_presence(namespace, &mut repo).unwrap();
    let count = record_presence(namespace, &mut repo).unwrap();
    assert_eq!(count, 3);

    let count = get_active_count("other_namespace", &repo).unwrap();
    assert_eq!(count, 0);
}

#[test]
fn event_counts_until_a_full_window_has_passed() {
    let mut repo = MemoryRepository::new();
    let t: u64 = 1_700_000_000;
    assert_eq!(record_presence_at("w", t, &mut repo).unwrap(), 1);
    assert_eq!(get_active_count_at("w", t + 1, &repo).unwrap(), 1);
    assert_eq!(get_active_count_at("w", t + PRESENCE_WINDOW_SECONDS - 1, &repo).unwrap(), 1);
    assert_eq!(get_active_count_at("w", t + PRESENCE_WINDOW_SECONDS, &repo).unwrap(), 0);
    assert_eq!(get_active_count_at("w", t + PRESENCE_WINDOW_SECONDS + 1, &repo).unwrap(), 0);
}

#[test]
fn expired_events_are_dropped_on_record() {
    let mut repo = MemoryRepository::new();
    let t: u64 = 10;
    record_presence_at("d", t, &mut repo).unwrap();
    record_presence_at("d", t + 5, &mut repo).unwrap();
    let later = t + PRESENCE_WINDOW_SECONDS + 5;
    assert_eq!(record_presence_at("d", later, &mut repo).unwrap(), 1);
    assert_eq!(get_active_count_at("d", later, &repo).unwrap(), 1);
    assert_eq!(record_presence_at("e", later, &mut repo).unwrap(), 1);
    assert_eq!(get_active_count_at("d", later, &repo).unwrap(), 1);
}

#[test]
fn window_is_one_day() {
    assert_eq!(PRESENCE_WINDOW_SECONDS, 24 * 60 * 60);
}
