use open_gitea::access::{
    access_config_path, generate_token, groups_path, is_allowed, AccessConfig, AccessConfigError, AccountPermission,
    CreateGroupError, GroupInfo, GroupStore, Mode, Need,
};
use open_gitea::keyed::StrMap;

fn cfg(mode: Mode, group: Option<&str>, allow_view: bool, allow_download: bool, allow_push: bool) -> AccessConfig {
    AccessConfig { mode, group: group.map(str::to_string), allow_view, allow_download, allow_push, accounts: StrMap::new() }
}

#[test]
fn private_repo_denies_regardless_of_flags() {
    let config = cfg(Mode::Private, None, true, true, true);
    let groups = GroupStore::default();
    assert!(!is_allowed(&config, Need::View, &groups, None, None));
    assert!(!is_allowed(&config, Need::Download, &groups, None, None));
    assert!(!is_allowed(&config, Need::Push, &groups, None, None));
}

#[test]
fn public_repo_respects_view_download_and_push_flags_independently() {
    let view_only = cfg(Mode::Public, None, true, false, false);
    let groups = GroupStore::default();
    assert!(is_allowed(&view_only, Need::View, &groups, None, None));
    assert!(!is_allowed(&view_only, Need::Download, &groups, None, None));
    assert!(!is_allowed(&view_only, Need::Push, &groups, None, None));
}

#[test]
fn group_repo_requires_matching_token() {
    let mut groups = GroupStore::default();
    groups.groups.insert("team-a".to_string(), GroupInfo { token: "secret123".to_string() });
    let config = cfg(Mode::Group, Some("team-a"), true, true, true);

    assert!(!is_allowed(&config, Need::View, &groups, None, None));
    assert!(!is_allowed(&config, Need::View, &groups, Some("wrong-token"), None));
    assert!(is_allowed(&config, Need::View, &groups, Some("secret123"), None));
    assert!(is_allowed(&config, Need::Download, &groups, Some("secret123"), None));
    assert!(is_allowed(&config, Need::Push, &groups, Some("secret123"), None));
}

#[test]
fn group_repo_with_unknown_group_name_denies() {
    let groups = GroupStore::default();
    let config = cfg(Mode::Group, Some("no-such-group"), true, true, true);
    assert!(!is_allowed(&config, Need::View, &groups, Some("anything"), None));
}

#[test]
fn default_config_is_private_and_denies_everything() {
    let config = AccessConfig::default();
    let groups = GroupStore::default();
    assert!(!is_allowed(&config, Need::View, &groups, None, None));
    assert!(!is_allowed(&config, Need::Download, &groups, None, None));
    assert!(!is_allowed(&config, Need::Push, &groups, None, None));
}

#[test]
fn account_specific_grant_works_even_when_repo_is_otherwise_private() {
    let mut config = cfg(Mode::Private, None, false, false, false);
    config.accounts.insert(
        "member@example.com".to_string(),
        AccountPermission { allow_view: true, allow_download: false, allow_push: false },
    );
    let groups = GroupStore::default();
    assert!(is_allowed(&config, Need::View, &groups, None, Some("member@example.com")));
    assert!(!is_allowed(&config, Need::Download, &groups, None, Some("member@example.com")));
    assert!(!is_allowed(&config, Need::View, &groups, None, Some("someone-else@example.com")));
}

#[test]
fn account_grant_can_include_push() {
    let mut config = cfg(Mode::Private, None, false, false, false);
    config.accounts.insert(
        "collaborator@example.com".to_string(),
        AccountPermission { allow_view: true, allow_download: true, allow_push: true },
    );
    let groups = GroupStore::default();
    assert!(is_allowed(&config, Need::Push, &groups, None, Some("collaborator@example.com")));
}

#[test]
fn created_group_token_opens_group_repo_and_deletion_closes_it() {
    let mut groups = GroupStore::default();
    let token = groups.create_group("class-2026".to_string()).unwrap();
    assert_eq!(token.len(), 32);
    assert!(token.chars().all(|c| c.is_ascii_hexdigit() && !c.is_ascii_uppercase()));
    let config = cfg(Mode::Group, Some("class-2026"), true, false, false);
    assert!(is_allowed(&config, Need::View, &groups, Some(&token), None));
    assert!(!is_allowed(&config, Need::Download, &groups, Some(&token), None));
    assert!(groups.delete_group("class-2026"));
    assert!(!is_allowed(&config, Need::View, &groups, Some(&token), None));
    assert!(!groups.delete_group("class-2026"));
}

#[test]
fn create_group_refuses_invalid_and_duplicate_names() {
    let mut groups = GroupStore::default();
    assert_eq!(groups.create_group(String::new()), Err(CreateGroupError::InvalidName));
    assert_eq!(groups.create_group("a/b".to_string()), Err(CreateGroupError::InvalidName));
    assert_eq!(groups.create_group("a\\b".to_string()), Err(CreateGroupError::InvalidName));
    assert_eq!(groups.create_group("a.b".to_string()), Err(CreateGroupError::InvalidName));
    assert!(groups.create_group("team".to_string()).is_ok());
    assert_eq!(groups.create_group("team".to_string()), Err(CreateGroupError::AlreadyExists));
    assert_eq!(groups.insert_new_group("team".to_string(), "t".to_string()), Err(CreateGroupError::AlreadyExists));
    assert_eq!(groups.insert_new_group("other".to_string(), "t".to_string()), Ok(()));
    assert_eq!(groups.groups.get("other").unwrap().token, "t");
}

#[test]
fn group_names_are_sorted() {
    let mut groups = GroupStore::default();
    for name in ["zeta", "alpha", "Mid", "beta"] {
        groups.insert_new_group(name.to_string(), "x".to_string()).unwrap();
    }
    assert_eq!(groups.group_names(), vec!["Mid", "alpha", "beta", "zeta"]);
}

#[test]
fn group_assignment_is_checked() {
    let mut groups = GroupStore::default();
    groups.insert_new_group("team-a".to_string(), "tok".to_string()).unwrap();
    assert_eq!(open_gitea::access::check_group_assignment(&cfg(Mode::Group, None, true, true, true), &groups), Err(AccessConfigError::GroupNameRequired));
    assert_eq!(open_gitea::access::check_group_assignment(&cfg(Mode::Group, Some("nope"), true, true, true), &groups), Err(AccessConfigError::UnknownGroup));
    assert_eq!(open_gitea::access::check_group_assignment(&cfg(Mode::Group, Some("team-a"), true, true, true), &groups), Ok(()));
    assert_eq!(open_gitea::access::check_group_assignment(&cfg(Mode::Public, Some("nope"), true, true, true), &groups), Ok(()));
}

#[test]
fn tokens_are_fresh_hex() {
    let a = generate_token();
    let b = generate_token();
    assert_eq!(a.len(), 32);
    assert_ne!(a, b);
}

#[test]
fn settings_files_sit_in_their_directories() {
    assert_eq!(access_config_path("data/repos/demo.git"), "data/repos/demo.git/.open-gitea-access.json");
    assert_eq!(access_config_path("data/repos/demo.git/"), "data/repos/demo.git/.open-gitea-access.json");
    assert_eq!(groups_path("data/repos"), "data/repos/.open-gitea-groups.json");
    assert_eq!(groups_path(""), ".open-gitea-groups.json");
}

#[test]
fn map_insert_replaces_and_remove_returns_value() {
    let mut m: StrMap<u32> = StrMap::new();
    assert_eq!(m.insert("a".to_string(), 1), None);
    assert_eq!(m.insert("a".to_string(), 2), Some(1));
    assert_eq!(m.get("a"), Some(&2));
    assert_eq!(m.remove("a"), Some(2));
    assert_eq!(m.get("a"), None);
    assert!(!m.contains_key("a"));
}

#[test]
fn granting_one_account_leaves_others_alone() {
    let mut config = cfg(Mode::Public, None, true, false, false);
    let groups = GroupStore::default();
    let _ = config.accounts.insert(
        "dev@example.com".to_string(),
        AccountPermission { allow_view: false, allow_download: true, allow_push: true },
    );
    assert!(is_allowed(&config, Need::View, &groups, None, Some("dev@example.com")));
    assert!(is_allowed(&config, Need::Download, &groups, None, Some("dev@example.com")));
    assert!(is_allowed(&config, Need::Push, &groups, None, Some("dev@example.com")));
    assert!(is_allowed(&config, Need::View, &groups, None, Some("other@example.com")));
    assert!(!is_allowed(&config, Need::Download, &groups, None, Some("other@example.com")));
    assert!(!is_allowed(&config, Need::Push, &groups, None, None));
}
