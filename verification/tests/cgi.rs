use open_gitea::cgi::{parse_cgi_response, parse_u16};

#[test]
fn cgi_status_headers_and_body() {
    let raw = b"Status: 404 Not Found\r\nContent-Type: text/plain\r\nExpires: never\r\n\r\nmissing";
    let resp = parse_cgi_response(raw).unwrap();
    assert_eq!(resp.status, 404);
    assert_eq!(resp.headers, vec![("Content-Type".to_string(), "text/plain".to_string()), ("Expires".to_string(), "never".to_string())]);
    assert_eq!(resp.body, b"missing".to_vec());
}

#[test]
fn cgi_defaults_to_ok() {
    let raw = b"Content-Type: application/x-git-upload-pack-advertisement\r\n\r\n\x00\x01";
    let resp = parse_cgi_response(raw).unwrap();
    assert_eq!(resp.status, 200);
    assert_eq!(resp.body, vec![0u8, 1u8]);
}

#[test]
fn cgi_ignores_bad_status_and_lines_without_colon() {
    let raw = b"status: 99\r\nnonsense\r\nSTATUS:  abc\r\nX-A:  b : c \r\n\r\n";
    let resp = parse_cgi_response(raw).unwrap();
    assert_eq!(resp.status, 200);
    assert_eq!(resp.headers, vec![("X-A".to_string(), "b : c".to_string())]);
    assert!(resp.body.is_empty());
}

#[test]
fn cgi_without_blank_line_is_malformed() {
    assert!(parse_cgi_response(b"Status: 200\r\n").is_err());
    assert!(parse_cgi_response(b"").is_err());
}

#[test]
fn u16_parsing() {
    assert_eq!(parse_u16("404"), Some(404));
    assert_eq!(parse_u16("+7"), Some(7));
    assert_eq!(parse_u16("65535"), Some(65535));
    assert_eq!(parse_u16("65536"), None);
    assert_eq!(parse_u16("+"), None);
    assert_eq!(parse_u16(""), None);
    assert_eq!(parse_u16("1a"), None);
    assert_eq!(parse_u16("0000000000000000000123"), Some(123));
}

#[test]
fn cgi_last_valid_status_wins() {
    let raw = b"Status: 403 Forbidden\r\nStatus: 404\r\nStatus: 1000\r\n\r\n";
    let resp = parse_cgi_response(raw).unwrap();
    assert_eq!(resp.status, 404);
    assert!(resp.headers.is_empty());
}
