use smart_contracts::profiles::UserProfileContract;
use smart_contracts::types::{Address, ContractError};

fn text(s: &str) -> String {
    s.to_string()
}

fn list(items: &[&str]) -> Vec<String> {
    items.iter().map(|t| t.to_string()).collect()
}

#[test]
fn test_create_profile() {
    let mut c = UserProfileContract::new();
    let user = Address::new(1);
    let profile = c.create_profile(
        user,
        text("Alice"),
        25,
        text("Software Engineer"),
        text("I love coding and blockchain technology"),
        list(&["coding", "blockchain", "music"]),
    );
    assert_eq!(profile.user, user);
    assert_eq!(profile.display_name, "Alice");
    assert_eq!(profile.age, 25);
    assert_eq!(profile.occupation, "Software Engineer");
    assert_eq!(profile.bio, "I love coding and blockchain technology");
    assert_eq!(profile.interests.len(), 3);
}

#[test]
fn test_update_profile() {
    let mut c = UserProfileContract::new();
    let user = Address::new(1);
    c.create_profile(
        user,
        text("Alice"),
        25,
        text("Software Engineer"),
        text("I love coding"),
        list(&["coding"]),
    );
    let updated = c
        .update_profile(
            user,
            text("Alice Smith"),
            26,
            text("Senior Software Engineer"),
            text("I love coding and blockchain technology"),
            list(&["coding", "blockchain"]),
        );
    assert_eq!(updated.display_name, "Alice Smith");
    assert_eq!(updated.age, 26);
    assert_eq!(updated.occupation, "Senior Software Engineer");
    assert_eq!(updated.interests.len(), 2);
}

#[test]
fn test_get_profile() {
    let mut c = UserProfileContract::new();
    let user = Address::new(1);
    let created = c.create_profile(
        user,
        text("Bob"),
        30,
        text("Designer"),
        text("Creative designer"),
        list(&["design", "art"]),
    );
    let retrieved = c.get_profile(user).unwrap();
    assert_eq!(retrieved.user, created.user);
    assert_eq!(retrieved.display_name, created.display_name);
    assert_eq!(retrieved.age, created.age);
    assert_eq!(retrieved.occupation, created.occupation);
    assert_eq!(retrieved.bio, created.bio);
    assert_eq!(retrieved.interests.len(), created.interests.len());
}

#[test]
fn test_get_nonexistent_profile() {
    let c = UserProfileContract::new();
    let profile = c.get_profile(Address::new(1));
    assert!(profile.is_none());
}

#[test]
fn test_delete_profile() {
    let mut c = UserProfileContract::new();
    let user = Address::new(1);
    c.create_profile(
        user,
        text("Charlie"),
        28,
        text("Artist"),
        text("Passionate artist"),
        list(&["art", "painting"]),
    );
    assert!(c.get_profile(user).is_some());
    c.delete_profile(user);
    assert!(c.get_profile(user).is_none());
}

#[test]
fn test_search_profiles() {
    let mut c = UserProfileContract::new();
    let user1 = Address::new(1);
    let user2 = Address::new(2);
    let user3 = Address::new(3);
    c.create_profile(
        user1,
        text("Alice"),
        25,
        text("Software Engineer"),
        text("I love coding"),
        list(&["coding", "blockchain"]),
    );
    c.create_profile(
        user2,
        text("Bob"),
        30,
        text("Designer"),
        text("Creative designer"),
        list(&["design", "art"]),
    );
    c.create_profile(
        user3,
        text("Charlie"),
        28,
        text("Artist"),
        text("Passionate artist"),
        list(&["art", "painting"]),
    );
    let art_profiles = c.search_profiles("art");
    assert_eq!(art_profiles.len(), 2);
    let coding_profiles = c.search_profiles("coding");
    assert_eq!(coding_profiles.len(), 1);
}

#[test]
fn test_get_all_profiles() {
    let mut c = UserProfileContract::new();
    let user1 = Address::new(1);
    let user2 = Address::new(2);
    c.create_profile(user1, text("Alice"), 25, text("Engineer"), text("Tech enthusiast"), list(&["tech"]));
    c.create_profile(user2, text("Bob"), 30, text("Designer"), text("Creative person"), list(&["design"]));
    let all_profiles = c.get_all_profiles();
    assert_eq!(all_profiles.len(), 2);
    let user1_found = all_profiles.iter().any(|p| p.user == user1);
    let user2_found = all_profiles.iter().any(|p| p.user == user2);
    assert!(user1_found);
    assert!(user2_found);
}

#[test]
fn test_profile_verification() {
    let mut c = UserProfileContract::new();
    let user = Address::new(1);
    let profile =
        c.create_profile(user, text("Alice"), 25, text("Engineer"), text("Tech enthusiast"), list(&["tech"]));
    assert!(!profile.verified);
    let verified = c.verify_profile(user).unwrap();
    assert!(verified.verified);
    let retrieved = c.get_profile(user).unwrap();
    assert!(retrieved.verified);
}

#[test]
fn update_keeps_verified_flag() {
    let mut c = UserProfileContract::new();
    let user = Address::new(1);
    c.create_profile(user, text("A"), 1, text("o"), text("b"), list(&[]));
    c.verify_profile(user).unwrap();
    let updated = c.update_profile(user, text("B"), 2, text("o"), text("b"), list(&[]));
    assert!(updated.verified);
    assert!(c.get_profile(user).unwrap().verified);
}

#[test]
fn update_of_missing_profile_creates_it() {
    let mut c = UserProfileContract::new();
    let user = Address::new(1);
    assert_eq!(c.verify_profile(user).unwrap_err(), ContractError::NotFound);
    assert!(c.get_profile(user).is_none());
    let p = c.update_profile(user, text("B"), 2, text("o"), text("b"), list(&["x"]));
    assert!(!p.verified);
    assert_eq!(c.get_profile(user).unwrap().display_name, "B");
    assert_eq!(c.get_all_profiles().len(), 1);
}

#[test]
fn recreating_replaces_profile_once() {
    let mut c = UserProfileContract::new();
    let user = Address::new(1);
    c.create_profile(user, text("A"), 1, text("o"), text("b"), list(&["x"]));
    c.verify_profile(user).unwrap();
    let again = c.create_profile(user, text("A2"), 2, text("o"), text("b"), list(&["y"]));
    assert!(!again.verified);
    assert_eq!(c.get_all_profiles().len(), 1);
    assert!(c.search_profiles("x").is_empty());
    assert_eq!(c.search_profiles("y").len(), 1);
    c.delete_profile(user);
    c.delete_profile(user);
    assert!(c.get_all_profiles().is_empty());
}
