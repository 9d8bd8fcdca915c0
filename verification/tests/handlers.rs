use open_gitea::access::{AccessConfig, GroupStore, Mode, Need};
use open_gitea::accounts::AccountStore;
use open_gitea::keyed::{StrMap, StrSet};
use open_gitea::request::{
    access_config_dir, git_access_outcome, is_admin_identity, is_allowed_for_git, may_create_repo, parse_git_repo_and_need,
    sanitize_repo_name, wiki_dir_name, GitAccess,
};
use open_gitea::request::{create_repo_outcome, CreateRepoOutcome};

const ADMIN_EMAIL: &str = "admin@example.com";

#[test]
fn get_account_reflects_can_create_repos_state() {
    let mut store = AccountStore::default();
    let detail = store.account_detail("nobody@example.com");
    assert!(!detail.registered);
    assert!(!detail.can_create_repos);

    assert!(store.add_account("member@example.com", ADMIN_EMAIL, false).is_ok());
    assert!(store.set_create_permission("member@example.com", true).is_ok());
    let detail = store.account_detail("member@example.com");
    assert_eq!(detail.email, "member@example.com");
    assert!(detail.registered);
    assert!(detail.can_create_repos);
}

#[test]
fn get_account_requires_admin_session() {
    assert!(!is_admin_identity(None, ADMIN_EMAIL));
    assert!(!is_admin_identity(Some("member@example.com"), ADMIN_EMAIL));
    assert!(is_admin_identity(Some(ADMIN_EMAIL), ADMIN_EMAIL));
}

#[test]
fn create_repo_also_creates_wiki_sibling() {
    assert!(may_create_repo(Some(ADMIN_EMAIL), ADMIN_EMAIL, &StrSet::new(), &StrSet::new()));
    let dir = sanitize_repo_name("demo").unwrap();
    assert_eq!(dir, "demo.git");
    assert_eq!(wiki_dir_name(&dir), "demo.wiki.git");
}

#[test]
fn wiki_access_control_mirrors_main_repo() {
    let groups = GroupStore::default();
    let dir = sanitize_repo_name("secret").unwrap();
    let wiki = wiki_dir_name(&dir);
    assert_eq!(access_config_dir(&wiki, "/repos"), access_config_dir(&dir, "/repos"));
    assert_eq!(access_config_dir(&wiki, "/repos"), "/repos/secret.git");

    let private = AccessConfig::default();
    assert!(!is_allowed_for_git(None, ADMIN_EMAIL, Need::View, &private, &groups, None));

    let public = AccessConfig { mode: Mode::Public, group: None, allow_view: true, allow_download: false, allow_push: false, accounts: StrMap::new() };
    assert!(is_allowed_for_git(None, ADMIN_EMAIL, Need::View, &public, &groups, None));

    let (repo, need) = parse_git_repo_and_need("/secret.wiki.git/git-receive-pack", "").unwrap();
    assert_eq!(repo, "secret.wiki.git");
    assert_eq!(need, Need::Push);
    let allowed = is_allowed_for_git(None, ADMIN_EMAIL, need, &public, &groups, None);
    assert_eq!(git_access_outcome(allowed, false), GitAccess::AuthenticationRequired);
}

#[test]
fn create_repo_answers_in_order() {
    assert_eq!(create_repo_outcome(false, false, "../bad", true), CreateRepoOutcome::Forbidden);
    assert_eq!(create_repo_outcome(true, false, "../bad", true), CreateRepoOutcome::InsufficientStorage);
    assert_eq!(create_repo_outcome(true, true, "../bad", true), CreateRepoOutcome::InvalidName);
    assert_eq!(create_repo_outcome(true, true, "demo", true), CreateRepoOutcome::AlreadyExists);
    assert_eq!(
        create_repo_outcome(true, true, "demo", false),
        CreateRepoOutcome::Create { dir: "demo.git".to_string(), wiki: "demo.wiki.git".to_string() }
    );
}
