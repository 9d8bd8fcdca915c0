use open_gitea::access::{is_allowed, AccessConfig, AccountPermission, GroupStore, Need};
use open_gitea::accounts::{approval_target, accounts_path, generate_request_id, registration_locked, AccountStore, AddAccountError, DecideError};

#[test]
fn add_account_trims_and_checks_the_address() {
    let mut store = AccountStore::default();
    assert_eq!(store.add_account("  member@example.com ", "admin@example.com", false), Ok(()));
    assert!(store.emails.contains("member@example.com"));
    assert_eq!(store.add_account("no-at-sign", "admin@example.com", false), Err(AddAccountError::InvalidEmail));
    assert_eq!(store.add_account("other@example.com", "admin@example.com", true), Err(AddAccountError::Restricted));
    assert!(!store.emails.contains("other@example.com"));
    assert_eq!(store.add_account("admin@example.com", "admin@example.com", true), Ok(()));
}

#[test]
fn remove_and_detail() {
    let mut store = AccountStore::default();
    store.add_account("m@x.com", "a@x.com", false).unwrap();
    let d = store.account_detail("m@x.com");
    assert!(d.registered && !d.can_create_repos);
    assert_eq!(store.set_create_permission("m@x.com", true), Ok(()));
    assert!(store.account_detail("m@x.com").can_create_repos);
    assert_eq!(store.set_create_permission("m@x.com", false), Ok(()));
    assert!(!store.account_detail("m@x.com").can_create_repos);
    assert!(store.set_create_permission("nobody@x.com", true).is_err());
    assert!(store.remove_account("m@x.com"));
    assert!(!store.remove_account("m@x.com"));
    let d = store.account_detail("nobody@example.com");
    assert_eq!(d.email, "nobody@example.com");
    assert!(!d.registered && !d.can_create_repos);
}

#[test]
fn emails_come_sorted() {
    let mut store = AccountStore::default();
    for e in ["c@x", "a@x", "b@x"] {
        store.add_account(e, "", false).unwrap();
    }
    assert_eq!(store.sorted_emails(), vec!["a@x", "b@x", "c@x"]);
}

#[test]
fn requests_are_filed_and_decided() {
    let mut store = AccountStore::default();
    let id = store.request_access(" new@x.com", Some("demo".to_string()), None).unwrap();
    assert_eq!(id.len(), 24);
    assert_eq!(store.pending_requests.len(), 1);
    assert_eq!(store.pending_requests[0].email, "new@x.com");
    assert!(store.request_access("bad", None, None).is_err());
    assert!(matches!(store.decide_request("missing", true, "a@x.com", false), Err(DecideError::NotFound)));
    let req = store.decide_request(&id, true, "a@x.com", false).unwrap();
    assert_eq!(req.repo.as_deref(), Some("demo"));
    assert!(store.pending_requests.is_empty());
    assert!(store.emails.contains("new@x.com"));
}

#[test]
fn locked_registration_withdraws_the_request() {
    let mut store = AccountStore::default();
    store.push_request("r1".to_string(), "x@y.com", None, Some("please".to_string())).unwrap();
    assert!(matches!(store.decide_request("r1", true, "a@x.com", true), Err(DecideError::Restricted)));
    assert!(store.pending_requests.is_empty());
    assert!(!store.emails.contains("x@y.com"));
}

#[test]
fn denied_request_registers_nobody() {
    let mut store = AccountStore::default();
    store.push_request("r1".to_string(), "x@y.com", None, None).unwrap();
    let req = store.decide_request("r1", false, "a@x.com", true).unwrap();
    assert_eq!(req.id, "r1");
    assert!(!store.emails.contains("x@y.com"));
}

#[test]
fn request_ids_are_hex() {
    let id = generate_request_id();
    assert!(id.chars().all(|c| c.is_ascii_hexdigit()));
    assert_ne!(id, generate_request_id());
    assert_eq!(accounts_path("root"), "root/.open-gitea-accounts.json");
}

#[test]
fn registration_is_locked_unless_turned_off() {
    assert!(registration_locked(None));
    assert!(registration_locked(Some("true")));
    assert!(registration_locked(Some("FALSE")));
    assert!(!registration_locked(Some("false")));
    assert!(!registration_locked(Some("0")));
}

#[test]
fn approval_grants_the_chosen_permissions() {
    let mut store = AccountStore::default();
    store.push_request("r1".to_string(), "dev@example.com", Some("proj".to_string()), None).unwrap();
    let request = store.decide_request("r1", true, "admin@example.com", false).unwrap();
    assert!(store.emails.contains("dev@example.com"));
    assert!(store.pending_requests.is_empty());
    let dir = approval_target(&request, true).unwrap();
    assert_eq!(dir.as_deref(), Some("proj.git"));
    assert_eq!(approval_target(&request, false), Ok(None));

    let mut config = AccessConfig::default();
    let groups = GroupStore::default();
    config.grant_account(request.email.clone(), AccountPermission { allow_view: true, allow_download: false, allow_push: true });
    assert!(is_allowed(&config, Need::View, &groups, None, Some("dev@example.com")));
    assert!(!is_allowed(&config, Need::Download, &groups, None, Some("dev@example.com")));
    assert!(is_allowed(&config, Need::Push, &groups, None, Some("dev@example.com")));
    assert!(!is_allowed(&config, Need::View, &groups, None, Some("other@example.com")));

    store.push_request("r2".to_string(), "x@example.com", Some("../etc".to_string()), None).unwrap();
    let bad = store.decide_request("r2", true, "admin@example.com", false).unwrap();
    assert!(approval_target(&bad, true).is_err());
    store.push_request("r3".to_string(), "y@example.com", None, None).unwrap();
    let plain = store.decide_request("r3", true, "admin@example.com", false).unwrap();
    assert_eq!(approval_target(&plain, true), Ok(None));
}
