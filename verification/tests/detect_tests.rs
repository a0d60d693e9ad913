use gitid::config::Config;
use gitid::detect::{detect_and_suggest, detect_profile, format_match_reason, score_profile};
use gitid::git::RemoteUrl;
use gitid::profile::{Platform, Profile};

fn profile(platform: Platform, host: Option<&str>) -> Profile {
    Profile::new(
        "John Doe".to_string(),
        "john@example.com".to_string(),
        platform,
        "~/.ssh/id_ed25519".to_string(),
        None,
        host.map(|h| h.to_string()),
    )
}

#[test]
fn test_score_github_profile() {
    let remote_url = RemoteUrl {
        host: "github.com".to_string(),
    };

    let profile = Profile::new(
        "John Doe".to_string(),
        "john@example.com".to_string(),
        Platform::Github,
        "~/.ssh/id_ed25519".to_string(),
        None,
        None,
    );

    let score = score_profile(&remote_url, "personal", &profile);
    assert!(score > 0);
}

#[test]
fn test_score_ssh_alias_match() {
    let remote_url = RemoteUrl {
        host: "github-work".to_string(),
    };

    let profile = Profile::new(
        "John Doe".to_string(),
        "john@company.com".to_string(),
        Platform::Github,
        "~/.ssh/id_work".to_string(),
        None,
        None,
    );

    let score = score_profile(&remote_url, "work", &profile);
    assert!(score >= 100);
}

#[test]
fn test_score_exact_values() {
    // github.com against a GitHub profile: +50 host match, +20 platform
    let url = RemoteUrl {
        host: "github.com".to_string(),
    };
    assert_eq!(score_profile(&url, "personal", &profile(Platform::Github, None)), 70);

    // github-work against GitHub profile "work": +100 alias, +20 platform
    let url = RemoteUrl {
        host: "github-work".to_string(),
    };
    assert_eq!(score_profile(&url, "work", &profile(Platform::Github, None)), 120);

    // Both profile "work" against github-work: +100 both-alias, +15 platform
    let url = RemoteUrl {
        host: "github-work".to_string(),
    };
    assert_eq!(score_profile(&url, "work", &profile(Platform::Both, None)), 115);

    // custom enterprise host: +50 host, +20 platform, +80 custom
    let url = RemoteUrl {
        host: "gitlab.company.com".to_string(),
    };
    assert_eq!(
        score_profile(&url, "corp", &profile(Platform::Gitlab, Some("gitlab.company.com"))),
        150
    );
}

#[test]
fn test_score_no_relation() {
    let url = RemoteUrl {
        host: "example.org".to_string(),
    };
    assert_eq!(score_profile(&url, "personal", &profile(Platform::Github, None)), 0);
}

#[test]
fn test_format_match_reason_phrasing() {
    let p = profile(Platform::Github, None);
    let url = RemoteUrl {
        host: "github.com".to_string(),
    };
    assert_eq!(
        format_match_reason(&url, &p),
        "Remote host 'github.com' matches profile host"
    );
    let url = RemoteUrl {
        host: "github-work".to_string(),
    };
    assert_eq!(
        format_match_reason(&url, &p),
        "GitHub repository detected (github-work)"
    );
    let url = RemoteUrl {
        host: "gitlab-work".to_string(),
    };
    assert_eq!(
        format_match_reason(&url, &profile(Platform::Gitlab, None)),
        "GitLab repository detected (gitlab-work)"
    );
    let url = RemoteUrl {
        host: "example.org".to_string(),
    };
    assert_eq!(format_match_reason(&url, &p), "Host 'example.org' matched");
}

#[test]
fn test_detect_no_remotes() {
    let mut config = Config::default();
    config
        .add_profile("work".to_string(), profile(Platform::Github, None))
        .unwrap();
    assert!(detect_profile(&config, &Vec::new()).is_none());
}

#[test]
fn test_detect_unparseable_remote() {
    let mut config = Config::default();
    config
        .add_profile("work".to_string(), profile(Platform::Github, None))
        .unwrap();
    let urls = vec!["not a git url".to_string()];
    assert!(detect_profile(&config, &urls).is_none());
}

#[test]
fn test_detect_best_across_remotes() {
    let mut config = Config::default();
    config
        .add_profile("personal".to_string(), profile(Platform::Github, None))
        .unwrap();
    config
        .add_profile("work".to_string(), profile(Platform::Gitlab, None))
        .unwrap();

    // the gitlab alias match (120) beats the github host match (70)
    let urls = vec![
        "git@github.com:me/hobby.git".to_string(),
        "git@gitlab-work:corp/proj.git".to_string(),
    ];
    let result = detect_profile(&config, &urls).unwrap();
    assert_eq!(result.profile_name, "work");
    assert_eq!(result.score, 120);
}

#[test]
fn test_detect_and_suggest_reports_reason() {
    let mut config = Config::default();
    config
        .add_profile("personal".to_string(), profile(Platform::Github, None))
        .unwrap();
    let urls = vec!["https://github.com/me/hobby.git".to_string()];
    let (name, reason) = detect_and_suggest(&config, &urls).unwrap();
    assert_eq!(name, "personal");
    assert_eq!(reason, "Remote host 'github.com' matches profile host");
}
