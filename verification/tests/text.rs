use open_gitea::text::{decimal_text, sort_strings, split_once_str, split_str, str_lt, text_lines, to_hex_lower, trim_str};

#[test]
fn trimming_uses_unicode_white_space() {
    assert_eq!(trim_str("\u{3000} a b \t\r\n"), "a b");
    assert_eq!(trim_str("   "), "");
}

#[test]
fn splitting() {
    assert_eq!(split_str("a&&b", '&'), vec!["a", "", "b"]);
    assert_eq!(split_str("", '&'), vec![""]);
    assert_eq!(split_once_str("user:pass:word", ':'), Some(("user".to_string(), "pass:word".to_string())));
    assert_eq!(split_once_str("nocolon", ':'), None);
}

#[test]
fn string_order_matches_std() {
    let mut expected = vec!["b".to_string(), "a".to_string(), "ab".to_string(), "B".to_string(), "あ".to_string(), "".to_string()];
    let got = sort_strings(expected.clone());
    expected.sort();
    assert_eq!(got, expected);
    assert!(str_lt("a", "ab"));
    assert!(!str_lt("ab", "ab"));
}

#[test]
fn hex_and_lines() {
    assert_eq!(to_hex_lower(&[0x00, 0xab, 0x7f]), "00ab7f");
    assert_eq!(text_lines("a\r\nb\n"), vec!["a", "b"]);
    assert_eq!(text_lines("a\rb\r"), vec!["a\rb\r"]);
    assert_eq!(text_lines("\n"), vec![""]);
}

#[test]
fn numbers_in_decimal() {
    assert_eq!(decimal_text(0), "0");
    assert_eq!(decimal_text(7), "7");
    assert_eq!(decimal_text(404), "404");
    assert_eq!(decimal_text(u64::MAX), "18446744073709551615");
}
