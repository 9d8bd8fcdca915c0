use open_gitea::issues::{issues_path, IssueStatus, IssueStore, SetStatusError};

#[test]
fn create_list_and_get_round_trip() {
    let mut store = IssueStore::new();
    let issue = store.create("Bug".to_string(), "It's broken".to_string(), "alice@example.com".to_string());
    assert_eq!(issue.id, 0);
    assert_eq!(issue.status, IssueStatus::Open);

    let listed = store.list();
    assert_eq!(listed.len(), 1);
    assert_eq!(listed[0].title, "Bug");

    let fetched = store.get(0).unwrap();
    assert_eq!(fetched.body, "It's broken");
}

#[test]
fn ids_increment_across_multiple_issues() {
    let mut store = IssueStore::new();
    store.create("A".to_string(), "".to_string(), "a@x.com".to_string());
    let second = store.create("B".to_string(), "".to_string(), "a@x.com".to_string());
    assert_eq!(second.id, 1);
    assert_eq!(store.next_id, 2);
}

#[test]
fn set_status_updates_and_persists() {
    let mut store = IssueStore::new();
    store.create("A".to_string(), "".to_string(), "a@x.com".to_string());
    store.set_status(0, IssueStatus::Closed).unwrap();
    let fetched = store.get(0).unwrap();
    assert!(matches!(fetched.status, IssueStatus::Closed));
}

#[test]
fn set_status_on_missing_issue_errors() {
    let mut store = IssueStore::new();
    let result = store.set_status(999, IssueStatus::Closed);
    assert!(matches!(result, Err(SetStatusError::NotFound)));
}

#[test]
fn add_comment_appends_and_persists() {
    let mut store = IssueStore::new();
    store.create("A".to_string(), "".to_string(), "a@x.com".to_string());
    store.add_comment(0, "bob@example.com".to_string(), "Looking into it".to_string()).unwrap();
    let fetched = store.get(0).unwrap();
    assert_eq!(fetched.comments.len(), 1);
    assert_eq!(fetched.comments[0].author, "bob@example.com");
}

#[test]
fn add_comment_on_missing_issue_returns_none() {
    let mut store = IssueStore::new();
    let result = store.add_comment(999, "bob@example.com".to_string(), "x".to_string());
    assert!(result.is_none());
}

#[test]
fn create_at_and_comment_at_keep_given_timestamps() {
    let mut store = IssueStore::new();
    let issue = store.create_at("T".to_string(), "B".to_string(), "a@x.com".to_string(), "2026-01-01T00:00:00+00:00".to_string());
    assert_eq!(issue.created_at, "2026-01-01T00:00:00+00:00");
    assert!(issue.comments.is_empty());
    let c = store.add_comment_at(0, "b@x.com".to_string(), "hi".to_string(), "2026-01-02T00:00:00+00:00".to_string()).unwrap();
    assert_eq!(c.created_at, "2026-01-02T00:00:00+00:00");
    assert_eq!(store.get(0).unwrap().comments[0].body, "hi");
    assert_eq!(store.get(0).unwrap().status, IssueStatus::Open);
}

#[test]
fn first_issue_with_an_id_is_the_one_changed() {
    let mut store = IssueStore::new();
    store.create_at("A".to_string(), "".to_string(), "a".to_string(), "t".to_string());
    store.create_at("B".to_string(), "".to_string(), "a".to_string(), "t".to_string());
    store.set_status(1, IssueStatus::Closed).unwrap();
    assert_eq!(store.get(0).unwrap().status, IssueStatus::Open);
    assert_eq!(store.get(1).unwrap().status, IssueStatus::Closed);
    assert!(store.get(2).is_none());
}

#[test]
fn new_issues_and_comments_carry_the_current_time() {
    let mut store = IssueStore::new();
    let issue = store.create("A".to_string(), "".to_string(), "a@x.com".to_string());
    assert!(chrono::DateTime::parse_from_rfc3339(&issue.created_at).is_ok());
    let c = store.add_comment(0, "b".to_string(), "c".to_string()).unwrap();
    assert!(chrono::DateTime::parse_from_rfc3339(&c.created_at).is_ok());
}

#[test]
fn issue_file_sits_in_the_repository() {
    assert_eq!(issues_path("r/x.git"), "r/x.git/.open-gitea-issues.json");
}
