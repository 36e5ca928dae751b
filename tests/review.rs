use konnektoren_api::review::{review_example, Review};
use konnektoren_api::services::{fetch_all_reviews, fetch_average_rating, fetch_reviews, store_review};
use konnektoren_api::storage::MemoryRepository;

fn review(challenge: &str, rating: u8, comment: Option<&str>) -> Review {
    Review { challenge_id: challenge.to_string(), rating, comment: comment.map(|c| c.to_string()) }
}

#[test]
fn test_store_review() {
    let mut repository = MemoryRepository::new();
    let r = review("example_challenge_id", 5, Some("Great challenge!"));

    store_review(r.clone(), &mut repository).expect("Failed to store review");

    let reviews = fetch_reviews("example_challenge_id".to_string(), &repository).expect("Failed to fetch reviews");

    assert_eq!(reviews.len(), 1);
    assert_eq!(reviews[0], r);
}

#[test]
fn review_test_fetch_average_rating() {
    let mut repository = MemoryRepository::new();
    let review1 = review("example_challenge_id", 5, Some("Great challenge!"));
    let review2 = review("example_challenge_id", 3, Some("Good challenge!"));

    store_review(review1.clone(), &mut repository).expect("Failed to store review");
    store_review(review2.clone(), &mut repository).expect("Failed to store review");

    let summary = fetch_average_rating("example_challenge_id".to_string(), &repository)
        .expect("Failed to fetch average rating");
    let average_rating = summary.total as f64 / summary.count as f64;

    assert_eq!(average_rating, 4.0);
}

#[test]
fn test_fetch_reviews() {
    let mut repo = MemoryRepository::new();
    let review1 = review("example_challenge_id", 5, None);
    let review2 = review("example_challenge_id", 3, None);
    repo.store_review(review1.clone()).unwrap();
    repo.store_review(review2.clone()).unwrap();
    let reviews = repo.fetch_reviews("example_challenge_id").unwrap();
    assert_eq!(reviews.len(), 2);
    assert!(reviews.contains(&review1));
    assert!(reviews.contains(&review2));
}

#[test]
fn memory_repository_test_fetch_average_rating() {
    let mut repo = MemoryRepository::new();
    repo.store_review(review("example_challenge_id", 5, None)).unwrap();
    repo.store_review(review("example_challenge_id", 3, None)).unwrap();
    let summary = repo.fetch_average_rating("example_challenge_id").unwrap();
    assert_eq!(summary.total as f64 / summary.count as f64, 4.0);
}

#[test]
fn average_of_no_reviews_has_no_count() {
    let mut repo = MemoryRepository::new();
    repo.store_review(review("a", 4, None)).unwrap();
    let summary = repo.fetch_average_rating("b").unwrap();
    assert_eq!((summary.total, summary.count), (0, 0));
}

#[test]
fn reviews_are_kept_per_challenge_in_order() {
    let mut repo = MemoryRepository::new();
    let a1 = review("a", 1, None);
    let b1 = review("b", 2, Some("meh"));
    let a2 = review("a", 5, Some("top"));
    store_review(a1.clone(), &mut repo).unwrap();
    store_review(b1.clone(), &mut repo).unwrap();
    store_review(a2.clone(), &mut repo).unwrap();
    assert_eq!(fetch_reviews("a".to_string(), &repo).unwrap(), vec![a1.clone(), a2.clone()]);
    assert_eq!(fetch_all_reviews(&repo).unwrap(), vec![a1, b1, a2]);
    let s = fetch_average_rating("a".to_string(), &repo).unwrap();
    assert_eq!((s.total, s.count), (6, 2));
}

#[test]
fn example_review_is_five_stars() {
    let r = review_example();
    assert_eq!(r.challenge_id, "example_challenge_id");
    assert_eq!(r.rating, 5);
    assert_eq!(r.comment, Some("Great challenge!".to_string()));
}
