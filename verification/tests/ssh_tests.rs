use gitid::config::Config;
use gitid::ssh::{generate_host_entry, generate_managed_block, sync_ssh_config};
use gitid::profile::{Platform, Profile};

const START: &str = "# === GITID MANAGED START ===";
const END: &str = "# === GITID MANAGED END ===";

fn work_profile() -> Profile {
    Profile::new(
        "John Doe".to_string(),
        "john@company.com".to_string(),
        Platform::Github,
        "~/.ssh/id_work".to_string(),
        None,
        None,
    )
}

#[test]
fn test_generate_host_entry() {
    let profile = Profile::new(
        "John Doe".to_string(),
        "john@example.com".to_string(),
        Platform::Github,
        "~/.ssh/id_ed25519_work".to_string(),
        None,
        None,
    );

    let entry = generate_host_entry("work", &profile);
    assert!(entry.contains("Host github-work"));
    assert!(entry.contains("HostName github.com"));
    assert!(entry.contains("IdentityFile ~/.ssh/id_ed25519_work"));
}

#[test]
fn test_generate_host_entry_both_platforms() {
    let profile = Profile::new(
        "John Doe".to_string(),
        "john@example.com".to_string(),
        Platform::Both,
        "~/.ssh/id_all".to_string(),
        None,
        None,
    );
    let entry = generate_host_entry("all", &profile);
    assert!(entry.contains("Host git-all"));
    assert!(entry.contains("Host github-all"));
    assert!(entry.contains("Host gitlab-all"));
    assert!(entry.contains("HostName github.com"));
    assert!(entry.contains("HostName gitlab.com"));
    assert_eq!(entry.matches("IdentityFile ~/.ssh/id_all").count(), 3);
}

#[test]
fn test_generate_host_entry_exact() {
    let entry = generate_host_entry("work", &work_profile());
    assert_eq!(
        entry,
        "Host github-work\n  HostName github.com\n  User git\n  IdentityFile ~/.ssh/id_work\n  IdentitiesOnly yes\n"
    );
}

#[test]
fn test_generate_managed_block() {
    let mut config = Config::default();
    config
        .add_profile("work".to_string(), work_profile())
        .unwrap();

    let block = generate_managed_block(&config);
    assert!(block.starts_with(START));
    assert!(block.ends_with(END));
    assert!(block.contains("Host github-work"));
}

#[test]
fn test_generate_managed_block_sorted_by_name() {
    let mut config = Config::default();
    config
        .add_profile("zeta".to_string(), work_profile())
        .unwrap();
    config
        .add_profile("alpha".to_string(), work_profile())
        .unwrap();
    let block = generate_managed_block(&config);
    let alpha_at = block.find("Host github-alpha").unwrap();
    let zeta_at = block.find("Host github-zeta").unwrap();
    assert!(alpha_at < zeta_at);
}

#[test]
fn test_sync_into_empty_content() {
    let mut config = Config::default();
    config
        .add_profile("work".to_string(), work_profile())
        .unwrap();
    let (content, count, updated) = sync_ssh_config("", &config);
    assert_eq!(count, 1);
    assert!(!updated);
    let block = generate_managed_block(&config);
    assert_eq!(content, format!("{}\n", block));
}

#[test]
fn test_sync_appends_after_existing_content() {
    let mut config = Config::default();
    config
        .add_profile("work".to_string(), work_profile())
        .unwrap();
    let (content, _, updated) = sync_ssh_config("Host myserver\n  User me\n", &config);
    assert!(!updated);
    assert!(content.starts_with("Host myserver\n  User me\n\n"));
    assert!(content.ends_with(&format!("{}\n", END)));
}

#[test]
fn test_sync_idempotent() {
    let mut config = Config::default();
    config
        .add_profile("work".to_string(), work_profile())
        .unwrap();
    let (first, _, first_updated) = sync_ssh_config("Host other\n  Port 2222", &config);
    assert!(!first_updated);
    let (second, _, second_updated) = sync_ssh_config(&first, &config);
    assert!(second_updated);
    assert_eq!(first, second);
    let (third, _, _) = sync_ssh_config(&second, &config);
    assert_eq!(second, third);
}

#[test]
fn test_sync_preserves_surroundings() {
    let mut config = Config::default();
    config
        .add_profile("work".to_string(), work_profile())
        .unwrap();
    let before = "# my own aliases\nHost backup\n  User root\n";
    let (synced, _, _) = sync_ssh_config(before, &config);
    let with_suffix = format!("{}# trailing notes\n", synced);

    // a changed store re-syncs in place, keeping both surroundings
    config
        .add_profile(
            "personal".to_string(),
            Profile::new(
                "J".to_string(),
                "j@home.net".to_string(),
                Platform::Gitlab,
                "~/.ssh/id_home".to_string(),
                None,
                None,
            ),
        )
        .unwrap();
    let (resynced, count, updated) = sync_ssh_config(&with_suffix, &config);
    assert!(updated);
    assert_eq!(count, 2);
    assert!(resynced.starts_with("# my own aliases\nHost backup\n  User root\n\n"));
    assert!(resynced.ends_with("# trailing notes\n"));
    assert!(resynced.contains("Host gitlab-personal"));
    assert!(resynced.contains("Host github-work"));
    let expected = format!(
        "# my own aliases\nHost backup\n  User root\n\n{}\n# trailing notes\n",
        generate_managed_block(&config)
    );
    assert_eq!(resynced, expected);
}
