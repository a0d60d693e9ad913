use gitid::config::Config;
use gitid::profile::{Platform, Profile, ProfileError};

fn profile(name: &str, email: &str) -> Profile {
    Profile::new(
        name.to_string(),
        email.to_string(),
        Platform::Github,
        "~/.ssh/id_ed25519".to_string(),
        None,
        None,
    )
}

#[test]
fn test_add_get_has_profile() {
    let mut config = Config::default();
    assert!(!config.has_profile("work"));
    config
        .add_profile("work".to_string(), profile("John Doe", "john@company.com"))
        .unwrap();
    assert!(config.has_profile("work"));
    let p = config.get_profile("work").unwrap();
    assert_eq!(p.name, "John Doe");
    assert_eq!(p.email, "john@company.com");
    assert!(config.get_profile("home").is_none());
}

#[test]
fn test_add_profile_rejects_invalid() {
    let mut config = Config::default();
    let err = config.add_profile("bad".to_string(), profile("", "john@company.com"));
    assert!(matches!(err, Err(ProfileError::EmptyName)));
    assert!(!config.has_profile("bad"));
}

#[test]
fn test_add_profile_replaces_existing() {
    let mut config = Config::default();
    config
        .add_profile("work".to_string(), profile("Old Name", "old@co.com"))
        .unwrap();
    config
        .add_profile("work".to_string(), profile("New Name", "new@co.com"))
        .unwrap();
    assert_eq!(config.profile_names().len(), 1);
    assert_eq!(config.get_profile("work").unwrap().name, "New Name");
}

#[test]
fn test_profile_names_sorted() {
    let mut config = Config::default();
    config
        .add_profile("zeta".to_string(), profile("Z", "z@x.y"))
        .unwrap();
    config
        .add_profile("alpha".to_string(), profile("A", "a@x.y"))
        .unwrap();
    config
        .add_profile("mid".to_string(), profile("M", "m@x.y"))
        .unwrap();
    assert_eq!(config.profile_names(), vec!["alpha", "mid", "zeta"]);
}

#[test]
fn test_remove_profile() {
    let mut config = Config::default();
    config
        .add_profile("work".to_string(), profile("John Doe", "john@co.com"))
        .unwrap();
    let removed = config.remove_profile("work").unwrap();
    assert_eq!(removed.name, "John Doe");
    assert!(!config.has_profile("work"));
    assert!(config.remove_profile("work").is_none());
}

#[test]
fn test_remove_default_profile_clears_default() {
    let mut config = Config::default();
    config
        .add_profile("work".to_string(), profile("John Doe", "john@co.com"))
        .unwrap();
    config.default_profile = Some("work".to_string());
    config.remove_profile("work");
    assert!(config.default_profile.is_none());
}

#[test]
fn test_remove_other_profile_keeps_default() {
    let mut config = Config::default();
    config
        .add_profile("work".to_string(), profile("John Doe", "john@co.com"))
        .unwrap();
    config
        .add_profile("home".to_string(), profile("John Doe", "john@home.net"))
        .unwrap();
    config.default_profile = Some("work".to_string());
    config.remove_profile("home");
    assert_eq!(config.default_profile.as_deref(), Some("work"));
}
