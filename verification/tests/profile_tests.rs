use gitid::profile::{Platform, Profile, ProfileError};

#[test]
fn test_platform_parsing() {
    assert_eq!("github".parse::<Platform>().unwrap(), Platform::Github);
    assert_eq!("gitlab".parse::<Platform>().unwrap(), Platform::Gitlab);
    assert_eq!("both".parse::<Platform>().unwrap(), Platform::Both);
    assert_eq!("GITHUB".parse::<Platform>().unwrap(), Platform::Github);
}

#[test]
fn test_platform_parsing_mixed_case_and_invalid() {
    assert_eq!("GitLab".parse::<Platform>().unwrap(), Platform::Gitlab);
    assert_eq!("Both".parse::<Platform>().unwrap(), Platform::Both);
    let err = "bitbucket".parse::<Platform>();
    assert!(matches!(err, Err(ProfileError::InvalidPlatform(ref s)) if s == "bitbucket"));
}

#[test]
fn test_platform_labels() {
    assert_eq!(Platform::Github.as_str(), "github");
    assert_eq!(Platform::Gitlab.as_str(), "gitlab");
    assert_eq!(Platform::Both.as_str(), "both");
}

#[test]
fn test_profile_validation() {
    let profile = Profile::new(
        "John Doe".to_string(),
        "john@example.com".to_string(),
        Platform::Github,
        "~/.ssh/id_ed25519".to_string(),
        None,
        None,
    );
    assert!(profile.validate().is_ok());
}

#[test]
fn test_profile_validation_empty_name() {
    let profile = Profile::new(
        "".to_string(),
        "john@example.com".to_string(),
        Platform::Github,
        "~/.ssh/id_ed25519".to_string(),
        None,
        None,
    );
    assert!(matches!(profile.validate(), Err(ProfileError::EmptyName)));
}

#[test]
fn test_profile_validation_blank_email_and_key() {
    let profile = Profile::new(
        "John Doe".to_string(),
        "   ".to_string(),
        Platform::Github,
        "~/.ssh/id_ed25519".to_string(),
        None,
        None,
    );
    assert!(matches!(profile.validate(), Err(ProfileError::EmptyEmail)));

    let profile = Profile::new(
        "John Doe".to_string(),
        "john@example.com".to_string(),
        Platform::Github,
        "\t\n".to_string(),
        None,
        None,
    );
    assert!(matches!(profile.validate(), Err(ProfileError::EmptySshKey)));
}

#[test]
fn test_error_messages() {
    assert_eq!(
        ProfileError::EmptyName.message(),
        "Profile name cannot be empty"
    );
    assert_eq!(ProfileError::EmptyEmail.message(), "Email cannot be empty");
    assert_eq!(
        ProfileError::EmptySshKey.message(),
        "SSH key path cannot be empty"
    );
    assert_eq!(
        ProfileError::InvalidPlatform("foo".to_string()).message(),
        "Invalid platform: foo. Must be 'github', 'gitlab', or 'both'"
    );
}

#[test]
fn test_default_host_per_platform() {
    let github = Profile::new(
        "A".to_string(),
        "a@b.c".to_string(),
        Platform::Github,
        "~/.ssh/id".to_string(),
        None,
        None,
    );
    assert_eq!(github.default_host(), "github.com");

    let gitlab = Profile::new(
        "A".to_string(),
        "a@b.c".to_string(),
        Platform::Gitlab,
        "~/.ssh/id".to_string(),
        None,
        None,
    );
    assert_eq!(gitlab.default_host(), "gitlab.com");

    let both = Profile::new(
        "A".to_string(),
        "a@b.c".to_string(),
        Platform::Both,
        "~/.ssh/id".to_string(),
        None,
        None,
    );
    assert_eq!(both.default_host(), "github.com");
}

#[test]
fn test_default_host_custom_overrides() {
    let custom = Profile::new(
        "A".to_string(),
        "a@b.c".to_string(),
        Platform::Gitlab,
        "~/.ssh/id".to_string(),
        None,
        Some("gitlab.company.com".to_string()),
    );
    assert_eq!(custom.default_host(), "gitlab.company.com");
}

#[test]
fn test_ssh_host_alias_prefixes() {
    let mk = |platform| {
        Profile::new(
            "A".to_string(),
            "a@b.c".to_string(),
            platform,
            "~/.ssh/id".to_string(),
            None,
            None,
        )
    };
    assert_eq!(mk(Platform::Github).ssh_host_alias("work"), "github-work");
    assert_eq!(mk(Platform::Gitlab).ssh_host_alias("work"), "gitlab-work");
    assert_eq!(mk(Platform::Both).ssh_host_alias("work"), "git-work");
}
