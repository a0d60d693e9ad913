use gitid::git::{apply_profile, ConfigScope, GitAction, RemoteUrl};

#[test]
fn test_parse_ssh_url() {
    let url = RemoteUrl::parse("git@github.com:owner/repo.git").unwrap();
    assert_eq!(url.host, "github.com");
}

#[test]
fn test_parse_https_url() {
    let url = RemoteUrl::parse("https://github.com/owner/repo.git").unwrap();
    assert_eq!(url.host, "github.com");
}

#[test]
fn test_parse_ssh_url_with_alias() {
    let url = RemoteUrl::parse("git@github-work:company/project.git").unwrap();
    assert_eq!(url.host, "github-work");
}

#[test]
fn test_parse_http_url() {
    let url = RemoteUrl::parse("http://gitlab.example.org/group/proj.git").unwrap();
    assert_eq!(url.host, "gitlab.example.org");
}

#[test]
fn test_parse_unrecognized_url() {
    assert!(RemoteUrl::parse("ssh://github.com/owner/repo.git").is_none());
    assert!(RemoteUrl::parse("just-a-path/repo.git").is_none());
    assert!(RemoteUrl::parse("git@no-colon-here").is_none());
    assert!(RemoteUrl::parse("").is_none());
}

#[test]
fn test_config_scope_flags() {
    assert_eq!(ConfigScope::Local.flag(), "--local");
    assert_eq!(ConfigScope::Global.flag(), "--global");
}

#[test]
fn test_apply_profile_with_gpg() {
    let actions = apply_profile("John Doe", "john@example.com", Some("ABCD1234"));
    assert_eq!(actions.len(), 4);
    assert!(
        matches!(&actions[0], GitAction::SetConfig { key, value } if key == "user.name" && value == "John Doe")
    );
    assert!(
        matches!(&actions[1], GitAction::SetConfig { key, value } if key == "user.email" && value == "john@example.com")
    );
    assert!(
        matches!(&actions[2], GitAction::SetConfig { key, value } if key == "user.signingkey" && value == "ABCD1234")
    );
    assert!(
        matches!(&actions[3], GitAction::SetConfig { key, value } if key == "commit.gpgsign" && value == "true")
    );
}

#[test]
fn test_apply_profile_without_gpg() {
    let actions = apply_profile("John Doe", "john@example.com", None);
    assert_eq!(actions.len(), 4);
    assert!(
        matches!(&actions[0], GitAction::SetConfig { key, value } if key == "user.name" && value == "John Doe")
    );
    assert!(
        matches!(&actions[1], GitAction::SetConfig { key, value } if key == "user.email" && value == "john@example.com")
    );
    assert!(matches!(&actions[2], GitAction::UnsetConfig { key } if key == "user.signingkey"));
    assert!(matches!(&actions[3], GitAction::UnsetConfig { key } if key == "commit.gpgsign"));
}
