use open_gitea::access::{AccessConfig, GroupStore, Mode, Need};
use open_gitea::keyed::{StrMap, StrSet};
use open_gitea::request::{
    access_config_dir, extract_group_token, file_name_of, git_access_outcome, is_admin_identity, is_allowed_for_git, is_blank,
    may_create_repo, may_request_otp, parse_git_repo_and_need, raw_file_path, repo_listed, sanitize_repo_name, visible_repos, RepoEntry,
    sanitize_tree_path, session_token, tree_file_path, tree_listing, urlencoding_decode, wiki_dir_name, zip_paths,
    FilePathError, GitAccess,
};

fn public_view() -> AccessConfig {
    AccessConfig { mode: Mode::Public, group: None, allow_view: true, allow_download: false, allow_push: false, accounts: StrMap::new() }
}

#[test]
fn bearer_and_basic_headers_carry_the_session_token() {
    assert_eq!(session_token("Bearer abc123").as_deref(), Some("abc123"));
    // base64("admin@example.com:tok42")
    assert_eq!(session_token("Basic YWRtaW5AZXhhbXBsZS5jb206dG9rNDI=").as_deref(), Some("tok42"));
    // base64("no-colon")
    assert_eq!(session_token("Basic bm8tY29sb24="), None);
    assert_eq!(session_token("Basic !!!"), None);
    assert_eq!(session_token("Token abc"), None);
    assert_eq!(session_token("bearer abc"), None);
}

#[test]
fn percent_escapes_are_decoded() {
    assert_eq!(urlencoding_decode("a%20b"), "a b");
    assert_eq!(urlencoding_decode("%E3%81%82"), "あ");
    assert_eq!(urlencoding_decode("100%"), "100%");
    assert_eq!(urlencoding_decode("%zz"), "%zz");
    assert_eq!(urlencoding_decode("%+a"), "\n");
    assert_eq!(urlencoding_decode("%4"), "%4");
    assert_eq!(urlencoding_decode("%ff"), "\u{fffd}");
    assert_eq!(urlencoding_decode("plain/path.md"), "plain/path.md");
}

#[test]
fn group_token_comes_from_query_then_header() {
    assert_eq!(extract_group_token(Some("a=1&token=se%2Fcret&token=x"), Some("hdr")).as_deref(), Some("se/cret"));
    assert_eq!(extract_group_token(Some("a=1"), Some("hdr")).as_deref(), Some("hdr"));
    assert_eq!(extract_group_token(None, None), None);
}

#[test]
fn admin_and_demo_identities() {
    let config = AccessConfig::default();
    let groups = GroupStore::default();
    assert!(is_admin_identity(Some("admin@x"), "admin@x"));
    assert!(!is_admin_identity(None, "admin@x"));
    assert!(is_allowed_for_git(Some("admin@x"), "admin@x", Need::Push, &config, &groups, None));
    let demo = Some("demo@open-gitea.invalid");
    assert!(is_allowed_for_git(demo, "admin@x", Need::View, &config, &groups, None));
    assert!(is_allowed_for_git(demo, "admin@x", Need::Download, &config, &groups, None));
    assert!(!is_allowed_for_git(demo, "admin@x", Need::Push, &config, &groups, None));
    assert!(!is_allowed_for_git(None, "admin@x", Need::View, &config, &groups, None));
    assert!(is_allowed_for_git(None, "admin@x", Need::View, &public_view(), &groups, None));
}

#[test]
fn git_answers() {
    assert_eq!(git_access_outcome(true, false), GitAccess::Allowed);
    assert_eq!(git_access_outcome(false, false), GitAccess::AuthenticationRequired);
    assert_eq!(git_access_outcome(false, true), GitAccess::Forbidden);
}

#[test]
fn creation_and_otp_permissions() {
    let mut emails = StrSet::new();
    let mut creators = StrSet::new();
    emails.insert("m@x".to_string());
    assert!(may_create_repo(Some("admin@x"), "admin@x", &emails, &creators));
    assert!(!may_create_repo(Some("m@x"), "admin@x", &emails, &creators));
    creators.insert("m@x".to_string());
    assert!(may_create_repo(Some("m@x"), "admin@x", &emails, &creators));
    assert!(!may_create_repo(None, "admin@x", &emails, &creators));
    assert!(may_request_otp("admin@x", "admin@x", &emails));
    assert!(may_request_otp("m@x", "admin@x", &emails));
    assert!(!may_request_otp("z@x", "admin@x", &emails));
}

#[test]
fn repository_names_are_normalized() {
    assert_eq!(sanitize_repo_name("demo").unwrap(), "demo.git");
    assert_eq!(sanitize_repo_name("demo.git").unwrap(), "demo.git");
    assert!(sanitize_repo_name("").is_err());
    assert!(sanitize_repo_name("../etc").is_err());
    assert!(sanitize_repo_name("a/b").is_err());
    assert!(sanitize_repo_name("a\\b").is_err());
    assert_eq!(wiki_dir_name("demo.git"), "demo.wiki.git");
    assert_eq!(wiki_dir_name("demo"), "demo.wiki.git");
}

#[test]
fn wiki_reads_the_main_repository_settings() {
    assert_eq!(access_config_dir("proj.wiki.git", "/data"), "/data/proj.git");
    assert_eq!(access_config_dir("proj.git", "/data"), "/data/proj.git");
    assert_eq!(access_config_dir(&wiki_dir_name("proj.git"), "/data/"), "/data/proj.git");
}

#[test]
fn tree_paths_refuse_parent_segments() {
    assert!(sanitize_tree_path("a/b/c.md").is_ok());
    assert!(sanitize_tree_path("a/../b").is_err());
    assert!(sanitize_tree_path("..").is_err());
    assert!(sanitize_tree_path("a..b/c").is_ok());
    assert_eq!(tree_file_path("Home.md").unwrap(), "Home.md");
    assert_eq!(tree_file_path("docs%2F..%2Fx"), Err(FilePathError::InvalidPath));
    assert_eq!(tree_file_path(""), Err(FilePathError::PathRequired));
}

#[test]
fn raw_download_paths() {
    assert_eq!(raw_file_path("/api/repos/demo/raw/src/main.rs", "demo").unwrap(), "src/main.rs");
    assert_eq!(raw_file_path("/api/repos/demo/raw/a%20b.txt", "demo").unwrap(), "a b.txt");
    assert_eq!(raw_file_path("/api/repos/other/raw/x", "demo"), Err(FilePathError::InvalidPath));
    assert_eq!(raw_file_path("/api/repos/demo/raw/", "demo"), Err(FilePathError::PathRequired));
    assert_eq!(file_name_of("src/lib/mod.rs"), "mod.rs");
    assert_eq!(file_name_of("top"), "top");
}

#[test]
fn zip_selection() {
    assert_eq!(zip_paths("paths=a%2Cb,src").unwrap(), vec!["a", "b", "src"]);
    assert_eq!(zip_paths("x=1").unwrap(), Vec::<String>::new());
    assert!(zip_paths("paths=a,../b").is_err());
}

#[test]
fn git_routes() {
    assert_eq!(parse_git_repo_and_need("/demo.git/info/refs", "service=git-upload-pack"), Some(("demo.git".to_string(), Need::Download)));
    assert_eq!(parse_git_repo_and_need("/demo.git/info/refs", "service=git-receive-pack"), Some(("demo.git".to_string(), Need::Push)));
    assert_eq!(parse_git_repo_and_need("//demo.wiki.git/git-receive-pack", ""), Some(("demo.wiki.git".to_string(), Need::Push)));
    assert_eq!(parse_git_repo_and_need("/demo/info/refs", ""), None);
    assert_eq!(parse_git_repo_and_need("/demo.git", ""), None);
}

#[test]
fn blank_titles() {
    assert!(is_blank("  \t\n"));
    assert!(is_blank(""));
    assert!(!is_blank(" x "));
}

#[test]
fn repository_list_hides_wikis_and_private_repositories() {
    let groups = GroupStore::default();
    let private = AccessConfig::default();
    assert!(!repo_listed("demo.wiki.git", &public_view(), &groups, None, Some("admin@x")));
    assert!(repo_listed("demo.git", &private, &groups, None, Some("admin@x")));
    assert!(repo_listed("demo.git", &private, &groups, None, Some("member@x")));
    assert!(!repo_listed("demo.git", &private, &groups, None, None));
    assert!(repo_listed("demo.git", &public_view(), &groups, None, None));
}

#[test]
fn repository_list_is_sorted_and_filtered() {
    let groups = GroupStore::default();
    let entries = vec![
        RepoEntry { name: "zeta.git".to_string(), config: public_view() },
        RepoEntry { name: "alpha.git".to_string(), config: AccessConfig::default() },
        RepoEntry { name: "beta.git".to_string(), config: public_view() },
        RepoEntry { name: "beta.wiki.git".to_string(), config: public_view() },
    ];
    assert_eq!(visible_repos(&entries, &groups, None, None), vec!["beta.git", "zeta.git"]);
    assert_eq!(visible_repos(&entries, &groups, None, Some("member@x")), vec!["alpha.git", "beta.git", "zeta.git"]);
    assert!(visible_repos(&Vec::new(), &groups, None, None).is_empty());
}

#[test]
fn tree_listing_reads_lines() {
    assert_eq!(tree_listing(b"a.txt\nsrc/b.rs\n".to_vec()), vec!["a.txt", "src/b.rs"]);
    assert_eq!(tree_listing(b"".to_vec()), Vec::<String>::new());
    assert_eq!(tree_listing(vec![0xff, b'\n']), Vec::<String>::new());
    assert_eq!(tree_listing(b"x\r\ny".to_vec()), vec!["x", "y"]);
}

#[test]
fn encoded_parent_segments_are_refused_everywhere() {
    assert_eq!(raw_file_path("/api/repos/demo/raw/%2E%2E/secret", "demo"), Err(FilePathError::InvalidPath));
    assert!(zip_paths("paths=a%2C%2e%2e").is_err());
    assert_eq!(tree_file_path("%2e%2e"), Err(FilePathError::InvalidPath));
}
