use open_gitea::request::session_token;
use open_gitea::web::{
    api_url, auth_greeting, begin_server_default, flag_value, stored_flag, feature_profile_labels, fetch_headers, is_memory_saver_mode, json_escape,
    login_outcome, markdown_to_html, merge_server_profile, next_profile, otp_request_body, otp_request_notice,
    otp_verify_body, profile_panel, profile_status_text, readme_request, readme_view, repo_list_status, LoginOutcome,
    ProfileEvent, ProfileFlags,
};

#[test]
fn api_urls_sit_under_the_mount_point() {
    assert_eq!(api_url("/api/repos"), "/open-gitea/api/repos");
}

#[test]
fn json_strings_are_escaped() {
    assert_eq!(json_escape("a\"b\\c\nd\re\tf\u{1}g"), "a\\\"b\\\\c\\nd\\re\\tf\\u0001g");
    assert_eq!(json_escape("plain text あ"), "plain text あ");
    assert_eq!(json_escape("\u{1f}"), "\\u001f");
}

#[test]
fn memory_saver_follows_the_profiles() {
    assert!(!is_memory_saver_mode(false, false, false));
    assert!(is_memory_saver_mode(true, false, false));
    assert!(is_memory_saver_mode(false, true, false));
    assert!(!is_memory_saver_mode(true, true, true));
}

#[test]
fn profile_labels_and_status() {
    assert!(feature_profile_labels(false, false, false).is_empty());
    assert_eq!(feature_profile_labels(true, false, true), vec!["省電力", "常時電源接続"]);
    assert_eq!(profile_status_text(Vec::new(), false), "通常モード (normal mode)");
    assert_eq!(profile_status_text(feature_profile_labels(true, true, false), true), "有効: 省電力 + 省メモリ + 省機能表示 (active)");
    assert_eq!(profile_status_text(Vec::new(), true), "有効: 省機能表示 (active)");
}

#[test]
fn markdown_renders_to_html() {
    let html = markdown_to_html("# Title\n\nSome *text*.");
    assert!(html.contains("<h1>Title</h1>"));
    assert!(html.contains("<em>text</em>"));
}

fn no_profile() -> ProfileFlags {
    ProfileFlags { power_save: false, memory_saver: false, always_on: false, minimal: false, server_default_applied: false }
}

#[test]
fn profile_clicks_and_panel() {
    let f = next_profile(no_profile(), ProfileEvent::PowerSave(true));
    let f = next_profile(f, ProfileEvent::ToggleMinimal);
    assert!(f.power_save && f.minimal && !f.memory_saver && !f.always_on);
    let p = profile_panel(f);
    assert!(!p.sections_visible);
    assert!(p.power_save_checked && !p.memory_saver_checked && !p.always_on_checked);
    assert_eq!(p.status, "有効: 省電力 + 省機能表示 (active)");
    let back = next_profile(next_profile(f, ProfileEvent::ToggleMinimal), ProfileEvent::ToggleMinimal);
    assert_eq!(back, f);
}

#[test]
fn restore_returns_to_normal_mode() {
    let f = ProfileFlags { power_save: true, memory_saver: true, always_on: true, minimal: true, server_default_applied: true };
    let g = next_profile(f, ProfileEvent::Restore);
    assert_eq!(g, ProfileFlags { server_default_applied: true, ..no_profile() });
    let p = profile_panel(g);
    assert!(p.sections_visible);
    assert_eq!(p.status, "通常モード (normal mode)");
    assert!(!is_memory_saver_mode(g.power_save, g.memory_saver, g.always_on));
}

#[test]
fn server_default_is_taken_over_once() {
    let (f, ask) = begin_server_default(no_profile());
    assert!(ask);
    assert!(f.server_default_applied);
    let (g, ask_again) = begin_server_default(f);
    assert!(!ask_again);
    assert_eq!(g, f);
    let user = ProfileFlags { memory_saver: true, ..f };
    let m = merge_server_profile(user, true, false, false);
    assert!(m.power_save && m.memory_saver && !m.always_on);
    assert_eq!(merge_server_profile(m, true, false, false), m);
}

#[test]
fn otp_request_bodies_and_notices() {
    assert_eq!(otp_request_body("a\"b@example.com"), Ok("{\"email\":\"a\\\"b@example.com\"}".to_string()));
    assert_eq!(otp_request_body("nobody"), Err("メールアドレスを入力してください".to_string()));
    assert_eq!(otp_request_notice(Some(200)), (true, "OTPを送信しました。届いたコードを入力してください。".to_string()));
    assert_eq!(otp_request_notice(Some(403)), (false, "このメールアドレスは登録されていません".to_string()));
    assert_eq!(otp_request_notice(Some(503)), (false, "サーバーのメール設定が未完了です".to_string()));
    assert_eq!(otp_request_notice(Some(500)), (false, "OTP送信に失敗しました(status 500)".to_string()));
    assert_eq!(otp_request_notice(None), (false, "OTP送信に失敗しました(通信エラー)".to_string()));
}

#[test]
fn login_bodies_and_outcomes() {
    assert_eq!(otp_verify_body("a@b.c", "123456"), Ok("{\"email\":\"a@b.c\",\"code\":\"123456\"}".to_string()));
    assert_eq!(otp_verify_body("a@b.c", ""), Err("コードを入力してください".to_string()));
    assert!(matches!(login_outcome(Some(200), Some("tok".to_string())), LoginOutcome::LoggedIn(t) if t == "tok"));
    assert!(matches!(login_outcome(Some(200), None), LoginOutcome::Refused(n) if n == "ログインに失敗しました(応答解析エラー)"));
    assert!(matches!(login_outcome(Some(401), Some("tok".to_string())), LoginOutcome::Refused(n) if n == "コードが正しくありません"));
    assert!(matches!(login_outcome(None, None), LoginOutcome::Refused(n) if n == "ログインに失敗しました(通信エラー)"));
}

#[test]
fn request_headers_carry_the_token_back_to_the_server() {
    let hs = fetch_headers(true, Some("tok42"));
    assert_eq!(
        hs,
        vec![
            ("Content-Type".to_string(), "application/json".to_string()),
            ("Authorization".to_string(), "Bearer tok42".to_string()),
        ]
    );
    assert_eq!(session_token(&hs[1].1).as_deref(), Some("tok42"));
    assert!(fetch_headers(false, None).is_empty());
    assert_eq!(auth_greeting(Some("me@x.jp")).as_deref(), Some("ログイン中: me@x.jp"));
    assert_eq!(auth_greeting(None), None);
}

#[test]
fn readme_area_and_repo_list_status() {
    assert_eq!(readme_request("demo"), ("/api/repos/demo/readme".to_string(), "demo のREADMEを読み込み中...".to_string()));
    let v = readme_view("demo", Some(Some(("main".to_string(), "# Hi".to_string()))));
    assert!(v.html.unwrap().contains("<h1>Hi</h1>"));
    assert_eq!(v.status, "demo (branch: main)");
    let v = readme_view("demo", Some(None));
    assert_eq!(v.html.as_deref(), Some("<p><em>README.md が見つかりませんでした。</em></p>"));
    assert_eq!(v.status, "demo: README.md無し");
    let v = readme_view("demo", None);
    assert!(v.html.is_none());
    assert_eq!(v.status, "demo: 読み込みに失敗しました");
    assert_eq!(repo_list_status(Some(3)), "3件のリポジトリ");
    assert_eq!(repo_list_status(None), "リポジトリ一覧の読み込みに失敗しました");
}

#[test]
fn switches_read_back_as_written() {
    assert_eq!(flag_value(true), "1");
    assert_eq!(flag_value(false), "0");
    assert!(stored_flag(Some(&flag_value(true))));
    assert!(!stored_flag(Some(&flag_value(false))));
    assert!(!stored_flag(None));
    assert!(!stored_flag(Some("true")));
}

#[test]
fn escaped_strings_parse_back_as_json() {
    for s in ["", "plain", "q\"b\\s", "line\nfeed\r\ttab", "\u{0}\u{1f}\u{7f}", "あ😀"] {
        let literal = format!("\"{}\"", json_escape(s));
        let parsed: String = serde_json::from_str(&literal).unwrap();
        assert_eq!(parsed, s);
        assert!(json_escape(s).chars().all(|c| c as u32 >= 0x20));
    }
}
