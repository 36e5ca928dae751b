use konnektoren_api::error::RepositoryError;
use konnektoren_api::leaderboard::{plan_submission, sort_records, Leaderboard, SubmitPlan, PERFORMANCE_RECORDS_LIMIT};
use konnektoren_api::record::{LegacyPerformanceRecord, PerformanceRecord};
use konnektoren_api::services::{add_performance_record, fetch_all_performance_records, get_leaderboard};
use konnektoren_api::storage::MemoryRepository;

fn millis(rfc3339: &str) -> i64 {
    chrono::DateTime::parse_from_rfc3339(rfc3339).unwrap().timestamp_millis()
}

fn record(name: &str, challenges: Vec<(String, u8, u64)>, date: &str, percentage: u8, total: usize) -> PerformanceRecord {
    PerformanceRecord {
        game_path_id: "".to_string(),
        profile_name: name.to_string(),
        challenges_performance: challenges,
        total_challenges: total,
        performance_percentage: percentage,
        date: millis(date),
    }
}

fn simple(name: &str, percentage: u8) -> PerformanceRecord {
    record(name, vec![("".to_string(), percentage, 1000)], "2021-08-01T00:00:00Z", percentage, 1)
}

#[test]
fn test_sort_performance() {
    let a = record("a", vec![("".to_string(), 100, 100)], "2021-08-01T00:00:00Z", 100, 0);
    let b = record("b", vec![("".to_string(), 100, 400)], "2021-08-01T00:00:00Z", 100, 0);
    let c = record("c", vec![("".to_string(), 100, 300)], "2021-08-02T00:00:00Z", 100, 0);
    let d = record("d", vec![("".to_string(), 100, 200)], "2021-08-02T00:00:00Z", 100, 0);

    let leaderboard = vec![a.clone(), b.clone(), c.clone(), d.clone()];
    let leaderboard = sort_records(&leaderboard);

    assert_eq!(leaderboard, vec![a, d, c, b.clone()]);
    assert_eq!(leaderboard.last().unwrap(), &b);
}

#[test]
fn test_sort_performance_and_date() {
    let a = record("a", vec![], "2021-08-01T00:00:00Z", 100, 0);
    let b = record("b", vec![], "2021-08-01T00:00:00Z", 90, 0);
    let c = record("c", vec![], "2021-08-02T00:00:00Z", 100, 0);
    let d = record("d", vec![], "2021-08-02T00:00:00Z", 90, 0);

    let v = vec![a.clone(), b.clone(), c.clone(), d.clone()];
    let v = sort_records(&v);
    assert_eq!(v, vec![c, a, d, b]);
}

#[test]
fn test_add_limit_reached() {
    let mut repository = MemoryRepository::new();
    let namespace = "test";

    for i in 0..PERFORMANCE_RECORDS_LIMIT {
        let rec = record(&i.to_string(), vec![("".to_string(), 100, 200)], "2021-08-01T00:00:00Z", 100, 1);
        repository.add_performance_record(namespace, rec).unwrap();
    }

    let new_record = record("new", vec![("".to_string(), 100, 100)], "2021-08-01T00:00:00Z", 100, 1);
    let result = add_performance_record(namespace, new_record, &mut repository);
    assert!(result.is_ok());

    let new_worse_record = record("new_worse", vec![("".to_string(), 100, 500)], "2021-08-01T00:00:00Z", 0, 1);
    let result = add_performance_record(namespace, new_worse_record, &mut repository);
    assert!(matches!(result, Err(RepositoryError::LimitReached(_))));

    let new_best_record = record("new_best", vec![("".to_string(), 100, 10)], "2021-08-01T00:00:00Z", 100, 1);
    let result = add_performance_record(namespace, new_best_record, &mut repository);
    assert!(result.is_ok());
}

#[test]
fn test_legacy_performance_record_to_performance_record() {
    let legacy_record = LegacyPerformanceRecord {
        game_path_id: "game_path_id".to_string(),
        profile_name: "profile_name".to_string(),
        challenges_performance: vec![("challenge_id".to_string(), 100)],
        total_challenges: 1,
        performance_percentage: 100,
        date: chrono::Utc::now().timestamp_millis(),
    };

    let performance_record: PerformanceRecord = legacy_record.to_record();

    assert_eq!(performance_record.game_path_id, "game_path_id");
    assert_eq!(performance_record.profile_name, "profile_name");
    assert_eq!(
        performance_record.challenges_performance,
        vec![("challenge_id".to_string(), 100, 3600000)]
    );
    assert_eq!(performance_record.total_challenges, 1);
    assert_eq!(performance_record.performance_percentage, 100);
}

#[test]
fn eleventh_record_evicts_worst_and_twelfth_is_refused() {
    let mut repository = MemoryRepository::new();
    for (i, p) in (91..=100u8).rev().enumerate() {
        let r = add_performance_record("n", simple(&format!("player{}", i), p), &mut repository);
        assert!(r.is_ok());
    }
    let eleventh = simple("eleventh", 95);
    let r = add_performance_record("n", eleventh.clone(), &mut repository);
    assert_eq!(r, Ok(eleventh));
    let kept = fetch_all_performance_records("n", &repository).unwrap();
    assert_eq!(kept.len(), 10);
    assert!(kept.iter().all(|r| r.performance_percentage != 91));
    assert!(kept.iter().any(|r| r.profile_name == "eleventh"));

    let before = repository.get_leaderboard("n");
    let r = add_performance_record("n", simple("twelfth", 50), &mut repository);
    assert_eq!(r, Err(RepositoryError::LimitReached(10)));
    assert_eq!(repository.get_leaderboard("n"), before);
}

#[test]
fn retained_count_never_exceeds_limit() {
    let mut repository = MemoryRepository::new();
    for i in 0..25u8 {
        let _ = add_performance_record("cap", simple(&format!("r{}", i), (i * 37) % 101), &mut repository);
        assert!(fetch_all_performance_records("cap", &repository).unwrap().len() <= PERFORMANCE_RECORDS_LIMIT);
    }
    assert_eq!(fetch_all_performance_records("cap", &repository).unwrap().len(), 10);
}

#[test]
fn retained_records_outrank_discarded_ones() {
    let mut repository = MemoryRepository::new();
    let percentages: Vec<u8> = vec![40, 90, 10, 75, 60, 99, 5, 82, 33, 71, 50, 95, 20, 88, 64, 1, 100];
    for (i, p) in percentages.iter().enumerate() {
        let _ = add_performance_record("mono", simple(&format!("m{}", i), *p), &mut repository);
    }
    let kept: Vec<u8> = fetch_all_performance_records("mono", &repository)
        .unwrap()
        .iter()
        .map(|r| r.performance_percentage)
        .collect();
    let worst_kept = *kept.iter().min().unwrap();
    let discarded: Vec<u8> = percentages.iter().copied().filter(|p| !kept.contains(p)).collect();
    assert_eq!(discarded.len(), percentages.len() - 10);
    assert!(discarded.iter().all(|d| *d <= worst_kept));
}

#[test]
fn tie_with_worst_does_not_evict() {
    let mut repository = MemoryRepository::new();
    for i in 0..10 {
        add_performance_record("tie", simple(&format!("t{}", i), 80), &mut repository).unwrap();
    }
    let r = add_performance_record("tie", simple("late", 80), &mut repository);
    assert_eq!(r, Err(RepositoryError::LimitReached(10)));
    let kept = fetch_all_performance_records("tie", &repository).unwrap();
    assert!(kept.iter().all(|r| r.profile_name != "late"));
}

#[test]
fn reading_twice_gives_same_leaderboard() {
    let mut repository = MemoryRepository::new();
    for (i, p) in [30u8, 70, 70, 10, 90].iter().enumerate() {
        add_performance_record("read", simple(&format!("x{}", i), *p), &mut repository).unwrap();
    }
    let first = get_leaderboard("read", &repository);
    let second = get_leaderboard("read", &repository);
    assert_eq!(first, second);
    let order: Vec<u8> = first.iter().map(|r| r.performance_percentage).collect();
    assert_eq!(order, vec![90, 70, 70, 30, 10]);
    assert_eq!(first[1].profile_name, "x1");
    assert_eq!(first[2].profile_name, "x2");
}

#[test]
fn namespaces_are_independent() {
    let mut repository = MemoryRepository::new();
    for i in 0..10 {
        add_performance_record("full", simple(&format!("f{}", i), 100), &mut repository).unwrap();
    }
    let r = add_performance_record("other", simple("o", 1), &mut repository);
    assert!(r.is_ok());
    assert_eq!(fetch_all_performance_records("other", &repository).unwrap().len(), 1);
    assert_eq!(fetch_all_performance_records("none", &repository).unwrap().len(), 0);
}

#[test]
fn remove_missing_record_is_not_found() {
    let mut repository = MemoryRepository::new();
    repository.add_performance_record("rm", simple("a", 50)).unwrap();
    let missing = simple("b", 50);
    match repository.remove_performance_record("rm", missing) {
        Err(RepositoryError::NotFound(id)) => assert_eq!(id, ""),
        other => panic!("unexpected {:?}", other),
    }
    assert_eq!(repository.remove_performance_record("rm", simple("a", 50)), Ok(simple("a", 50)));
    assert_eq!(fetch_all_performance_records("rm", &repository).unwrap().len(), 0);
}

#[test]
fn leaderboard_orders_by_time_then_date() {
    let mut board = Leaderboard::new("ns".to_string());
    let slow = record("slow", vec![("c".to_string(), 90, 5000), ("d".to_string(), 90, 5000)], "2021-08-01T00:00:00Z", 90, 2);
    let fast = record("fast", vec![("c".to_string(), 90, 4000)], "2021-08-01T00:00:00Z", 90, 1);
    let newer = record("newer", vec![("c".to_string(), 90, 4000)], "2021-08-03T00:00:00Z", 90, 1);
    board.submit(slow.clone()).unwrap();
    board.submit(fast.clone()).unwrap();
    board.submit(newer.clone()).unwrap();
    assert_eq!(board.get_leaderboard(), vec![newer, fast, slow]);
    assert_eq!(board.worst_position(), 0);
    assert_eq!(board.len(), 3);
}

#[test]
fn plan_follows_room_then_worst_record() {
    let mut current: Vec<PerformanceRecord> = (0..9u8).map(|i| simple(&format!("player{}", i), 50 + i)).collect();
    assert_eq!(plan_submission(&current, &simple("x", 1)), SubmitPlan::Append);
    current.push(simple("player9", 40));
    current.push(simple("late", 40));
    current.remove(0);
    assert_eq!(plan_submission(&current, &simple("x", 41)), SubmitPlan::Replace(9));
    assert_eq!(plan_submission(&current, &simple("x", 40)), SubmitPlan::Refuse);
}
