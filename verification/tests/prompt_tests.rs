use gitid::config::Config;
use gitid::profile::{Platform, Profile};
use gitid::prompt::get_current_profile;

fn profile(name: &str, email: &str) -> Profile {
    Profile::new(
        name.to_string(),
        email.to_string(),
        Platform::Github,
        "~/.ssh/id_ed25519".to_string(),
        None,
        None,
    )
}

fn store() -> Config {
    let mut config = Config::default();
    config
        .add_profile("work".to_string(), profile("John Doe", "john@company.com"))
        .unwrap();
    config
        .add_profile("home".to_string(), profile("John Doe", "john@home.net"))
        .unwrap();
    config
}

#[test]
fn test_current_profile_from_local_scope() {
    let config = store();
    let r = get_current_profile(
        &config,
        Some("John Doe".to_string()),
        Some("john@company.com".to_string()),
        Some("John Doe".to_string()),
        Some("john@home.net".to_string()),
    );
    assert_eq!(r.as_deref(), Some("work"));
}

#[test]
fn test_current_profile_falls_back_to_global() {
    let config = store();
    let r = get_current_profile(
        &config,
        None,
        None,
        Some("John Doe".to_string()),
        Some("john@home.net".to_string()),
    );
    assert_eq!(r.as_deref(), Some("home"));
}

#[test]
fn test_current_profile_partial_local_wins() {
    // a half-set local identity hides the global one and matches nothing
    let config = store();
    let r = get_current_profile(
        &config,
        Some("John Doe".to_string()),
        None,
        Some("John Doe".to_string()),
        Some("john@home.net".to_string()),
    );
    assert!(r.is_none());
}

#[test]
fn test_current_profile_no_match() {
    let config = store();
    let r = get_current_profile(
        &config,
        Some("Somebody Else".to_string()),
        Some("else@where.org".to_string()),
        None,
        None,
    );
    assert!(r.is_none());
}

#[test]
fn test_current_profile_no_identity() {
    let config = store();
    assert!(get_current_profile(&config, None, None, None, None).is_none());
}
