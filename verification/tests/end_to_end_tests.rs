use gitid::config::Config;
use gitid::detect::detect_profile;
use gitid::profile::{Platform, Profile};
use gitid::ssh::sync_ssh_config;

#[test]
fn test_end_to_end_work_profile() {
    let mut config = Config::default();
    config
        .add_profile(
            "work".to_string(),
            Profile::new(
                "J D".to_string(),
                "j@c.com".to_string(),
                Platform::Github,
                "~/.ssh/id_work".to_string(),
                None,
                None,
            ),
        )
        .unwrap();

    let (content, count, updated) = sync_ssh_config("", &config);
    assert_eq!(count, 1);
    assert!(!updated);
    assert!(content.contains("Host github-work"));
    assert!(content.contains("HostName github.com"));
    assert!(content.contains("IdentityFile ~/.ssh/id_work"));

    let urls = vec!["git@github-work:org/repo.git".to_string()];
    let result = detect_profile(&config, &urls).unwrap();
    assert_eq!(result.profile_name, "work");
    assert!(result.score >= 100);
}
