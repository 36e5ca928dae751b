use konnektoren_api::error::RepositoryError;
use konnektoren_api::profile::PlayerProfile;
use konnektoren_api::services::{fetch_all_profiles, fetch_profile, save_profile};
use konnektoren_api::storage::MemoryRepository;

#[test]
fn profile_test_fetch_profile() {
    let mut repository = MemoryRepository::new();
    let profile = PlayerProfile::new("example_user_id".to_string());
    repository.save_profile(profile.clone()).unwrap();

    let fetched_profile = fetch_profile("example_user_id".to_string(), &repository).unwrap();

    assert_eq!(fetched_profile.id, "example_user_id");
}

#[test]
fn profile_test_fetch_all_profiles() {
    let mut repository = MemoryRepository::new();
    repository.save_profile(PlayerProfile::new("user1".to_string())).unwrap();
    repository.save_profile(PlayerProfile::new("user2".to_string())).unwrap();

    let profiles = fetch_all_profiles(&repository).unwrap();

    assert_eq!(profiles.len(), 2);
    assert!(profiles.iter().any(|p| p.id == "user1"));
    assert!(profiles.iter().any(|p| p.id == "user2"));
}

#[test]
fn test_save_profile() {
    let mut repository = MemoryRepository::new();
    let profile = PlayerProfile::new("example_user_id".to_string());

    let saved_profile = save_profile(profile.clone(), &mut repository).unwrap();

    assert_eq!(saved_profile.id, "example_user_id");
}

#[test]
fn test_fetch_profile_error() {
    let repository = MemoryRepository::new();

    let result = fetch_profile("nonexistent_id".to_string(), &repository);

    assert!(result.is_err());
    assert_eq!(result, Err(RepositoryError::NotFound("nonexistent_id".to_string())));
}

#[test]
fn memory_repository_test_fetch_profile() {
    let mut repo = MemoryRepository::new();
    let profile = PlayerProfile::new("example_user_id".to_string());
    repo.save_profile(profile.clone()).unwrap();
    let fetched_profile = repo.fetch_profile("example_user_id").unwrap();
    assert_eq!(profile, fetched_profile);
}

#[test]
fn memory_repository_test_fetch_all_profiles() {
    let mut repo = MemoryRepository::new();
    let profile1 = PlayerProfile::new("example_user_id1".to_string());
    let profile2 = PlayerProfile::new("example_user_id2".to_string());
    repo.save_profile(profile1.clone()).unwrap();
    repo.save_profile(profile2.clone()).unwrap();
    let profiles = repo.fetch_all_profiles().unwrap();
    assert_eq!(profiles.len(), 2);
    assert!(profiles.contains(&profile1));
    assert!(profiles.contains(&profile2));
}

#[test]
fn saving_a_profile_again_replaces_it() {
    let mut repo = MemoryRepository::new();
    repo.save_profile(PlayerProfile::new("p".to_string())).unwrap();
    let renamed = PlayerProfile { id: "p".to_string(), name: "Pat".to_string(), xp: 12 };
    repo.save_profile(renamed.clone()).unwrap();
    assert_eq!(repo.fetch_all_profiles().unwrap(), vec![renamed.clone()]);
    assert_eq!(repo.fetch_profile("p").unwrap(), renamed);
}
