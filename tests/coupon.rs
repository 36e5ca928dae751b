use chrono::{Duration, Utc};
use konnektoren_api::coupon::{Coupon, CouponError, RedemptionError};
use konnektoren_api::services::{
    create_coupon, get_coupon, list_coupons, redeem_coupon, redeem_coupon_at, redeem_coupon_checked_at, validate_coupon,
    validate_coupon_at,
};
use konnektoren_api::storage::MemoryRepository;

fn in_days(days: i64) -> i64 {
    (Utc::now() + Duration::days(days)).timestamp_millis()
}

fn coupon(code: &str, challenges: &[&str], uses: u32, expiration: i64) -> Coupon {
    Coupon::new(code.to_string(), challenges.iter().map(|c| c.to_string()).collect(), uses, expiration)
}

#[test]
fn test_create_coupon() {
    let mut repository = MemoryRepository::new();
    let c = coupon("TEST123", &["challenge1"], 1, in_days(7));

    let result = create_coupon(c.clone(), &mut repository);

    assert!(result.is_ok());
    let saved_coupon = result.unwrap();
    assert_eq!(saved_coupon.code, "TEST123");
}

#[test]
fn test_redeem_expired_coupon() {
    let mut repository = MemoryRepository::new();
    let c = coupon("TEST123", &["challenge1"], 1, in_days(-1));
    repository.save_coupon(c).unwrap();

    let result = redeem_coupon("TEST123".to_string(), "challenge1".to_string(), &mut repository);

    assert!(result.is_ok());
    assert!(!result.unwrap());
}

#[test]
fn test_get_coupon() {
    let mut repository = MemoryRepository::new();
    let c = coupon("TEST123", &["challenge1"], 1, in_days(7));
    repository.save_coupon(c.clone()).unwrap();

    let result = get_coupon("TEST123".to_string(), &repository);
    assert!(result.is_ok());
    let fetched = result.unwrap().unwrap();
    assert_eq!(fetched.code, "TEST123");

    let result = get_coupon("NONEXISTENT".to_string(), &repository);
    assert!(result.is_ok());
    assert!(result.unwrap().is_none());
}

#[test]
fn test_list_coupons() {
    let mut repository = MemoryRepository::new();
    let coupon1 = coupon("TEST1", &["challenge1"], 1, in_days(7));
    let coupon2 = coupon("TEST2", &["challenge2"], 2, in_days(7));
    repository.save_coupon(coupon1).unwrap();
    repository.save_coupon(coupon2).unwrap();

    let result = list_coupons(&repository);
    assert!(result.is_ok());
    let coupons = result.unwrap();
    assert_eq!(coupons.len(), 2);
    assert!(coupons.iter().any(|c| c.code == "TEST1"));
    assert!(coupons.iter().any(|c| c.code == "TEST2"));
}

#[test]
fn test_validate_coupon() {
    let mut repository = MemoryRepository::new();
    let c = coupon("TEST123", &["challenge1"], 1, in_days(7));
    repository.save_coupon(c).unwrap();

    let result = validate_coupon("TEST123".to_string(), "challenge1".to_string(), &repository);
    assert!(result.is_ok());
    assert!(result.unwrap());

    let result = validate_coupon("TEST123".to_string(), "invalid_challenge".to_string(), &repository);
    assert!(result.is_ok());
    assert!(!result.unwrap());

    let result = validate_coupon("NONEXISTENT".to_string(), "challenge1".to_string(), &repository);
    assert!(result.is_ok());
    assert!(!result.unwrap());
}

#[test]
fn test_redeem_coupon_success() {
    let mut repository = MemoryRepository::new();
    let c = coupon("TEST123", &["challenge1"], 2, in_days(7));
    repository.save_coupon(c).unwrap();

    // First redemption succeeds
    let result = redeem_coupon("TEST123".to_string(), "challenge1".to_string(), &mut repository);
    assert!(result.is_ok());
    assert!(result.unwrap());

    // The coupon had two uses: the second redemption takes the last one
    let result = redeem_coupon("TEST123".to_string(), "challenge1".to_string(), &mut repository);
    assert_eq!(result, Ok(true));
    let left = get_coupon("TEST123".to_string(), &repository).unwrap().unwrap();
    assert_eq!(left.uses_remaining, 0);
}

#[test]
fn test_redeem_coupon_invalid_challenge() {
    let mut repository = MemoryRepository::new();
    let c = coupon("TEST123", &["challenge1"], 1, in_days(7));
    repository.save_coupon(c).unwrap();

    let result = redeem_coupon("TEST123".to_string(), "invalid_challenge".to_string(), &mut repository);
    assert!(result.is_ok());
    assert!(!result.unwrap());
}

#[test]
fn test_redeem_nonexistent_coupon() {
    let mut repository = MemoryRepository::new();

    let result = redeem_coupon("NONEXISTENT".to_string(), "challenge1".to_string(), &mut repository);
    assert!(result.is_ok());
    assert!(!result.unwrap());
}

#[test]
fn last_use_is_redeemed_once_then_exhausted() {
    let mut repository = MemoryRepository::new();
    let now: i64 = 1_000_000;
    create_coupon(coupon("C1", &["x"], 1, now + 86_400_000), &mut repository).unwrap();

    let first = redeem_coupon_checked_at("C1".to_string(), "x".to_string(), now, &mut repository);
    assert_eq!(first.unwrap().uses_remaining, 0);

    let second = redeem_coupon_checked_at("C1".to_string(), "x".to_string(), now + 1, &mut repository);
    assert_eq!(second, Err(CouponError::Redemption(RedemptionError::Exhausted)));
    let left = get_coupon("C1".to_string(), &repository).unwrap().unwrap();
    assert_eq!(left.uses_remaining, 0);
}

#[test]
fn two_attempts_on_one_use_give_exactly_one_success() {
    let mut repository = MemoryRepository::new();
    let now: i64 = 5_000;
    create_coupon(coupon("ONE", &["x"], 1, now + 10), &mut repository).unwrap();
    let a = redeem_coupon_at("ONE".to_string(), "x".to_string(), now, &mut repository).unwrap();
    let b = redeem_coupon_at("ONE".to_string(), "x".to_string(), now, &mut repository).unwrap();
    assert_eq!((a, b), (true, false));
}

#[test]
fn wrong_challenge_is_refused_whatever_the_uses() {
    let mut repository = MemoryRepository::new();
    let now: i64 = 0;
    create_coupon(coupon("MANY", &["x"], 50, now + 1000), &mut repository).unwrap();
    create_coupon(coupon("NONE", &["x"], 0, now - 1000), &mut repository).unwrap();
    for code in ["MANY", "NONE"] {
        let r = redeem_coupon_checked_at(code.to_string(), "y".to_string(), now, &mut repository);
        assert_eq!(r, Err(CouponError::Redemption(RedemptionError::InvalidChallenge)));
    }
    assert_eq!(get_coupon("MANY".to_string(), &repository).unwrap().unwrap().uses_remaining, 50);
}

#[test]
fn expiry_is_exclusive_of_its_instant() {
    let mut repository = MemoryRepository::new();
    create_coupon(coupon("EXP", &["x"], 3, 1000), &mut repository).unwrap();
    assert_eq!(validate_coupon_at("EXP".to_string(), "x".to_string(), 999, &repository), Ok(true));
    assert_eq!(validate_coupon_at("EXP".to_string(), "x".to_string(), 1000, &repository), Ok(false));
    let r = redeem_coupon_checked_at("EXP".to_string(), "x".to_string(), 1000, &mut repository);
    assert_eq!(r, Err(CouponError::Redemption(RedemptionError::Expired)));
    let r = redeem_coupon_checked_at("MISSING".to_string(), "x".to_string(), 0, &mut repository);
    assert_eq!(r, Err(CouponError::Redemption(RedemptionError::NotFound)));
}

#[test]
fn saving_a_coupon_again_replaces_it() {
    let mut repository = MemoryRepository::new();
    create_coupon(coupon("R", &["x"], 1, 10), &mut repository).unwrap();
    create_coupon(coupon("R", &["y"], 4, 20), &mut repository).unwrap();
    let all = list_coupons(&repository).unwrap();
    assert_eq!(all.len(), 1);
    assert_eq!(all[0].uses_remaining, 4);
    assert_eq!(all[0].challenge_ids, vec!["y".to_string()]);
}
