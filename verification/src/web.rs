//! The decisions of the browser front end: where the API lives, JSON string
//! escaping, the login form, request headers, the README area, the stored
//! profile switches and the profile panel, and Markdown rendering.
use vstd::prelude::*;
use crate::keyed::string_views;
use crate::access::opt_view;
use crate::cgi::header_views;
use crate::request::bearer_prefix;
use crate::text::{chars_of, contains_char, decimal, decimal_text, hex_digit, push_char, str_eq};

verus! {

/// The path under which the service is mounted.
pub open spec fn base_path() -> Seq<char> {
    seq!['/', 'o', 'p', 'e', 'n', '-', 'g', 'i', 't', 'e', 'a']
}

/// The URL of the API path `path` under the mount point.
pub fn api_url(path: &str) -> (r: String)
    ensures
        r@ == base_path() + path@,
{
    proof {
        reveal_strlit("/open-gitea");
    }
    let mut r = String::from_str("/open-gitea");
    r.append(path);
    assert("/open-gitea"@ =~= base_path());
    r
}

/// How one character appears inside a JSON string literal.
pub open spec fn escape_char(c: char) -> Seq<char> {
    if c == '"' {
        seq!['\\', '"']
    } else if c == '\\' {
        seq!['\\', '\\']
    } else if c == '\n' {
        seq!['\\', 'n']
    } else if c == '\r' {
        seq!['\\', 'r']
    } else if c == '\t' {
        seq!['\\', 't']
    } else if (c as int) < 0x20 {
        seq!['\\', 'u', '0', '0', hex_digit((c as int) / 16), hex_digit((c as int) % 16)]
    } else {
        seq![c]
    }
}

/// The value of a hexadecimal digit, in either case.
pub open spec fn hex_char_value(c: char) -> Option<int> {
    if '0' <= c && c <= '9' {
        Some((c as int) - ('0' as int))
    } else if 'a' <= c && c <= 'f' {
        Some((c as int) - ('a' as int) + 10)
    } else if 'A' <= c && c <= 'F' {
        Some((c as int) - ('A' as int) + 10)
    } else {
        None
    }
}

/// The number that the first four characters of `t` spell as hexadecimal digits.
pub open spec fn hex4(t: Seq<char>) -> Option<int> {
    if t.len() < 4 {
        None
    } else {
        match (hex_char_value(t[0]), hex_char_value(t[1]), hex_char_value(t[2]), hex_char_value(t[3])) {
            (Some(a), Some(b), Some(c), Some(d)) => Some(a * 4096 + b * 256 + c * 16 + d),
            _ => None,
        }
    }
}

/// The character that the JSON escape `\e` stands for, other than `\u`.
pub open spec fn simple_escape(e: char) -> Option<char> {
    if e == '"' {
        Some('"')
    } else if e == '\\' {
        Some('\\')
    } else if e == '/' {
        Some('/')
    } else if e == 'b' {
        Some('\u{8}')
    } else if e == 'f' {
        Some('\u{c}')
    } else if e == 'n' {
        Some('\n')
    } else if e == 'r' {
        Some('\r')
    } else if e == 't' {
        Some('\t')
    } else {
        None
    }
}

/// The characters that the inside of a JSON string literal stands for
/// (RFC 8259): none when it holds an unescaped `"`, a control character,
/// or an escape that is not well formed, such as a lone surrogate.
pub open spec fn json_unescape(t: Seq<char>) -> Option<Seq<char>>
    decreases t.len(),
{
    if t.len() == 0 {
        Some(Seq::empty())
    } else if t[0] == '"' || (t[0] as int) < 0x20 {
        None
    } else if t[0] != '\\' {
        match json_unescape(t.skip(1)) {
            Some(r) => Some(seq![t[0]] + r),
            None => None,
        }
    } else if t.len() < 2 {
        None
    } else if t[1] == 'u' {
        if t.len() < 6 {
            None
        } else {
            match hex4(t.skip(2)) {
                Some(v) => if 0xD800 <= v && v < 0xDC00 {
                    if t.len() >= 12 && t[6] == '\\' && t[7] == 'u' {
                        match hex4(t.skip(8)) {
                            Some(w) => if 0xDC00 <= w && w < 0xE000 {
                                match json_unescape(t.skip(12)) {
                                    Some(r) => Some(seq![(0x10000 + (v - 0xD800) * 1024 + (w - 0xDC00)) as char] + r),
                                    None => None,
                                }
                            } else {
                                None
                            },
                            None => None,
                        }
                    } else {
                        None
                    }
                } else if 0xDC00 <= v && v < 0xE000 {
                    None
                } else {
                    match json_unescape(t.skip(6)) {
                        Some(r) => Some(seq![v as char] + r),
                        None => None,
                    }
                },
                None => None,
            }
        }
    } else {
        match simple_escape(t[1]) {
            Some(c) => match json_unescape(t.skip(2)) {
                Some(r) => Some(seq![c] + r),
                None => None,
            },
            None => None,
        }
    }
}

/// The string a JSON string literal `t` (quotes included) stands for.
pub open spec fn json_string_literal(t: Seq<char>) -> Option<Seq<char>> {
    if t.len() >= 2 && t[0] == '"' && t.last() == '"' {
        json_unescape(t.subrange(1, t.len() - 1))
    } else {
        None
    }
}

/// `s` escaped for use inside a JSON string literal.
pub open spec fn json_escape_spec(s: Seq<char>) -> Seq<char>
    decreases s.len(),
{
    if s.len() == 0 {
        Seq::empty()
    } else {
        json_escape_spec(s.drop_last()) + escape_char(s.last())
    }
}

fn push_all(out: &mut String, cs: &[char])
    ensures
        final(out)@ == old(out)@ + cs@,
{
    let mut i: usize = 0;
    while i < cs.len()
        invariant
            i <= cs@.len(),
            out@ == old(out)@ + cs@.take(i as int),
        decreases cs@.len() - i,
    {
        push_char(out, cs[i]);
        assert(cs@.take(i + 1) =~= cs@.take(i as int).push(cs@[i as int]));
        i += 1;
    }
    assert(cs@.take(i as int) =~= cs@);
}

fn hex_char(n: u32) -> (c: char)
    requires
        n < 16,
    ensures
        c == hex_digit(n as int),
{
    if n < 10 {
        ((48u8 + n as u8) as char)
    } else {
        ((87u8 + n as u8) as char)
    }
}

proof fn lemma_char_as_u32(c: char)
    ensures
        (c as u32) as int == c as int,
        (c as int) >= 0,
{
}

/// Escapes `"`, `\` and control characters of `s` for a JSON string literal.
pub fn json_escape(s: &str) -> (r: String)
    ensures
        r@ == json_escape_spec(s@),
{
    let v = chars_of(s);
    let mut out = String::new();
    let mut i: usize = 0;
    while i < v.len()
        invariant
            i <= v@.len(),
            out@ == json_escape_spec(v@.take(i as int)),
        decreases v@.len() - i,
    {
        let c = v[i];
        proof {
            lemma_char_as_u32(c);
        }
        let ghost before = out@;
        if c == '"' {
            push_all(&mut out, &['\\', '"']);
        } else if c == '\\' {
            push_all(&mut out, &['\\', '\\']);
        } else if c == '\n' {
            push_all(&mut out, &['\\', 'n']);
        } else if c == '\r' {
            push_all(&mut out, &['\\', 'r']);
        } else if c == '\t' {
            push_all(&mut out, &['\\', 't']);
        } else if (c as u32) < 0x20 {
            let n = c as u32;
            assert(n as int == c as int);
            let hi = hex_char(n / 16);
            let lo = hex_char(n % 16);
            push_all(&mut out, &['\\', 'u', '0', '0', hi, lo]);
        } else {
            push_char(&mut out, c);
        }
        assert(v@.take(i + 1).drop_last() =~= v@.take(i as int));
        assert(out@ =~= before + escape_char(c));
        i += 1;
    }
    assert(v@.take(i as int) =~= v@);
    out
}

/// Automatic loading of wiki page lists is held back when power saving or
/// memory saving is on, unless the device is always on mains power.
pub fn is_memory_saver_mode(power_save: bool, memory_saver: bool, always_on: bool) -> (r: bool)
    ensures
        r == (!always_on && (power_save || memory_saver)),
{
    !always_on && (power_save || memory_saver)
}

/// The label of the power-saving profile.
pub open spec fn power_save_label() -> Seq<char> {
    seq!['省', '電', '力']
}

/// The label of the memory-saving profile.
pub open spec fn memory_saver_label() -> Seq<char> {
    seq!['省', 'メ', 'モ', 'リ']
}

/// The label of the always-on-mains profile.
pub open spec fn always_on_label() -> Seq<char> {
    seq!['常', '時', '電', '源', '接', '続']
}

/// The label of the reduced-features display.
pub open spec fn minimal_label() -> Seq<char> {
    seq!['省', '機', '能', '表', '示']
}

/// The labels of the profiles that are on, in a fixed order.
pub open spec fn profile_labels_spec(power_save: bool, memory_saver: bool, always_on: bool) -> Seq<Seq<char>> {
    let a = if power_save { seq![power_save_label()] } else { Seq::empty() };
    let b = if memory_saver { seq![memory_saver_label()] } else { Seq::empty() };
    let c = if always_on { seq![always_on_label()] } else { Seq::empty() };
    a + b + c
}

/// The labels of the active profiles.
pub fn feature_profile_labels(power_save: bool, memory_saver: bool, always_on: bool) -> (r: Vec<String>)
    ensures
        string_views(r@) == profile_labels_spec(power_save, memory_saver, always_on),
{
    proof {
        reveal_strlit("省電力");
        reveal_strlit("省メモリ");
        reveal_strlit("常時電源接続");
    }
    assert("省電力"@ =~= power_save_label());
    assert("省メモリ"@ =~= memory_saver_label());
    assert("常時電源接続"@ =~= always_on_label());
    let mut labels: Vec<String> = Vec::new();
    let ghost l0 = labels@;
    if power_save {
        labels.push(String::from_str("省電力"));
    }
    let ghost l1 = labels@;
    assert(string_views(l1) =~= (if power_save { seq![power_save_label()] } else { Seq::<Seq<char>>::empty() }));
    if memory_saver {
        labels.push(String::from_str("省メモリ"));
    }
    let ghost l2 = labels@;
    assert(string_views(l2) =~= string_views(l1) + (if memory_saver { seq![memory_saver_label()] } else { Seq::<Seq<char>>::empty() }));
    if always_on {
        labels.push(String::from_str("常時電源接続"));
    }
    assert(string_views(labels@) =~= string_views(l2) + (if always_on { seq![always_on_label()] } else { Seq::<Seq<char>>::empty() }));
    labels
}

/// `parts` joined with `sep` between neighbours.
pub open spec fn join_with(parts: Seq<Seq<char>>, sep: Seq<char>) -> Seq<char>
    decreases parts.len(),
{
    if parts.len() == 0 {
        Seq::empty()
    } else if parts.len() == 1 {
        parts[0]
    } else {
        join_with(parts.drop_last(), sep) + sep + parts.last()
    }
}

/// `"通常モード (normal mode)"`.
pub open spec fn normal_mode_text() -> Seq<char> {
    seq!['通', '常', 'モ', 'ー', 'ド', ' ', '(', 'n', 'o', 'r', 'm', 'a', 'l', ' ', 'm', 'o', 'd', 'e', ')']
}

/// The status line of the profile panel: the normal-mode text when nothing
/// is on, else the active labels (with the reduced display last) joined by ` + `.
pub open spec fn profile_status_spec(labels: Seq<Seq<char>>, minimal: bool) -> Seq<char> {
    let all = if minimal { labels.push(minimal_label()) } else { labels };
    if all.len() == 0 {
        normal_mode_text()
    } else {
        seq!['有', '効', ':', ' '] + join_with(all, seq![' ', '+', ' ']) + seq![' ', '(', 'a', 'c', 't', 'i', 'v', 'e', ')']
    }
}

/// The status line for the active profile labels `labels`.
pub fn profile_status_text(labels: Vec<String>, minimal: bool) -> (r: String)
    ensures
        r@ == profile_status_spec(string_views(labels@), minimal),
{
    proof {
        reveal_strlit("省機能表示");
        reveal_strlit("通常モード (normal mode)");
        reveal_strlit("有効: ");
        reveal_strlit(" + ");
        reveal_strlit(" (active)");
    }
    assert("省機能表示"@ =~= minimal_label());
    assert("通常モード (normal mode)"@ =~= normal_mode_text());
    assert("有効: "@ =~= seq!['有', '効', ':', ' ']);
    assert(" + "@ =~= seq![' ', '+', ' ']);
    assert(" (active)"@ =~= seq![' ', '(', 'a', 'c', 't', 'i', 'v', 'e', ')']);
    let mut all = labels;
    let ghost base = string_views(all@);
    if minimal {
        all.push(String::from_str("省機能表示"));
    }
    let ghost av = string_views(all@);
    assert(av =~= (if minimal { base.push(minimal_label()) } else { base }));
    if all.len() == 0 {
        return String::from_str("通常モード (normal mode)");
    }
    let mut out = String::from_str("有効: ");
    let mut i: usize = 0;
    while i < all.len()
        invariant
            i <= all@.len(),
            av == string_views(all@),
            av.len() > 0,
            " + "@ == seq![' ', '+', ' '],
            out@ == seq!['有', '効', ':', ' '] + join_with(av.take(i as int), seq![' ', '+', ' ']),
        decreases all@.len() - i,
    {
        let ghost before = out@;
        if i > 0 {
            out.append(" + ");
        }
        out.append(all[i].as_str());
        proof {
            let t = av.take(i + 1);
            assert(t.drop_last() =~= av.take(i as int));
            assert(t.last() == all@[i as int]@);
            if i == 0 {
                assert(av.take(0) =~= Seq::<Seq<char>>::empty());
                assert(out@ =~= seq!['有', '効', ':', ' '] + join_with(t, seq![' ', '+', ' ']));
            } else {
                assert(out@ =~= seq!['有', '効', ':', ' '] + join_with(t, seq![' ', '+', ' ']));
            }
        }
        i += 1;
    }
    assert(av.take(i as int) =~= av);
    out.append(" (active)");
    out
}

/// The HTML that `pulldown_cmark` renders the CommonMark text `src` to.
pub uninterp spec fn commonmark_html(src: Seq<char>) -> Seq<char>;

/// `pulldown_cmark::html::push_html` into an empty string over
/// `pulldown_cmark::Parser::new(src)`. Claimed: the result is the named rendering.
#[verifier::external_body]
fn render_commonmark(src: &str) -> (r: String)
    ensures
        r@ == commonmark_html(src@),
{
    let mut html_out = String::new();
    pulldown_cmark::html::push_html(&mut html_out, pulldown_cmark::Parser::new(src));
    html_out
}

/// Markdown text rendered as HTML.
pub fn markdown_to_html(src: &str) -> (r: String)
    ensures
        r@ == commonmark_html(src@),
{
    render_commonmark(src)
}

/// How a switch is written to the browser's storage: `1` for on, `0` for off.
pub open spec fn flag_text(on: bool) -> Seq<char> {
    if on {
        "1"@
    } else {
        "0"@
    }
}

/// A switch as read back from the browser's storage: on exactly when the
/// stored value is `1`; a missing value is off.
pub open spec fn flag_read(stored: Option<Seq<char>>) -> bool {
    stored == Some("1"@)
}

/// The stored form of a switch.
pub fn flag_value(on: bool) -> (r: String)
    ensures
        r@ == flag_text(on),
{
    if on {
        String::from_str("1")
    } else {
        String::from_str("0")
    }
}

/// Reads a switch from its stored value.
pub fn stored_flag(stored: Option<&str>) -> (r: bool)
    ensures
        r == flag_read(opt_view(stored)),
{
    match stored {
        Some(v) => str_eq(v, "1"),
        None => false,
    }
}

/// The profile switches the front end keeps in the browser.
#[derive(Debug, Clone, Copy, PartialEq, Eq, Structural)]
pub struct ProfileFlags {
    pub power_save: bool,
    pub memory_saver: bool,
    pub always_on: bool,
    /// Non-essential sections are hidden.
    pub minimal: bool,
    /// The server's default profile was taken over once already.
    pub server_default_applied: bool,
}

/// A click in the profile panel.
#[derive(Debug, Clone, Copy, PartialEq, Eq, Structural)]
pub enum ProfileEvent {
    /// The power-saving box was set to the given state.
    PowerSave(bool),
    /// The memory-saving box was set to the given state.
    MemorySaver(bool),
    /// The always-on-mains box was set to the given state.
    AlwaysOn(bool),
    /// The reduced-display button.
    ToggleMinimal,
    /// The button that restores normal mode.
    Restore,
}

/// The switches after the click `e`.
pub open spec fn profile_after(f: ProfileFlags, e: ProfileEvent) -> ProfileFlags {
    match e {
        ProfileEvent::PowerSave(on) => ProfileFlags { power_save: on, ..f },
        ProfileEvent::MemorySaver(on) => ProfileFlags { memory_saver: on, ..f },
        ProfileEvent::AlwaysOn(on) => ProfileFlags { always_on: on, ..f },
        ProfileEvent::ToggleMinimal => ProfileFlags { minimal: !f.minimal, ..f },
        ProfileEvent::Restore => ProfileFlags {
            power_save: false,
            memory_saver: false,
            always_on: false,
            minimal: false,
            ..f
        },
    }
}

/// Applies a click in the profile panel.
pub fn next_profile(f: ProfileFlags, e: ProfileEvent) -> (r: ProfileFlags)
    ensures
        r == profile_after(f, e),
{
    match e {
        ProfileEvent::PowerSave(on) => ProfileFlags { power_save: on, ..f },
        ProfileEvent::MemorySaver(on) => ProfileFlags { memory_saver: on, ..f },
        ProfileEvent::AlwaysOn(on) => ProfileFlags { always_on: on, ..f },
        ProfileEvent::ToggleMinimal => ProfileFlags { minimal: !f.minimal, ..f },
        ProfileEvent::Restore => ProfileFlags {
            power_save: false,
            memory_saver: false,
            always_on: false,
            minimal: false,
            ..f
        },
    }
}

/// Whether to ask the server for its default profile, and the switches
/// with that asking recorded: only the first time in a browser.
pub open spec fn server_default_begin(f: ProfileFlags) -> (ProfileFlags, bool) {
    (ProfileFlags { server_default_applied: true, ..f }, !f.server_default_applied)
}

/// Decides whether the server's default profile is still to be fetched.
pub fn begin_server_default(f: ProfileFlags) -> (r: (ProfileFlags, bool))
    ensures
        r == server_default_begin(f),
{
    (ProfileFlags { server_default_applied: true, ..f }, !f.server_default_applied)
}

/// The server's default profile taken over: each switch it turns on is
/// turned on, and none is turned off.
pub open spec fn server_profile_merged(f: ProfileFlags, power_save: bool, memory_saver: bool, always_on: bool) -> ProfileFlags {
    ProfileFlags {
        power_save: f.power_save || power_save,
        memory_saver: f.memory_saver || memory_saver,
        always_on: f.always_on || always_on,
        ..f
    }
}

/// Takes over the server's default profile.
pub fn merge_server_profile(f: ProfileFlags, power_save: bool, memory_saver: bool, always_on: bool) -> (r: ProfileFlags)
    ensures
        r == server_profile_merged(f, power_save, memory_saver, always_on),
{
    ProfileFlags {
        power_save: f.power_save || power_save,
        memory_saver: f.memory_saver || memory_saver,
        always_on: f.always_on || always_on,
        ..f
    }
}

/// What the profile panel shows.
#[derive(Debug)]
pub struct ProfilePanel {
    /// The non-essential sections are shown.
    pub sections_visible: bool,
    pub power_save_checked: bool,
    pub memory_saver_checked: bool,
    pub always_on_checked: bool,
    /// The status line.
    pub status: String,
}

/// The panel for the switches `f`.
pub fn profile_panel(f: ProfileFlags) -> (r: ProfilePanel)
    ensures
        r.sections_visible == !f.minimal,
        r.power_save_checked == f.power_save,
        r.memory_saver_checked == f.memory_saver,
        r.always_on_checked == f.always_on,
        r.status@ == profile_status_spec(profile_labels_spec(f.power_save, f.memory_saver, f.always_on), f.minimal),
{
    let labels = feature_profile_labels(f.power_save, f.memory_saver, f.always_on);
    let status = profile_status_text(labels, f.minimal);
    ProfilePanel {
        sections_visible: !f.minimal,
        power_save_checked: f.power_save,
        memory_saver_checked: f.memory_saver,
        always_on_checked: f.always_on,
        status,
    }
}

/// `{"email":"<email>"}`, the address escaped.
pub open spec fn otp_request_body_spec(email: Seq<char>) -> Seq<char> {
    "{\"email\":\""@ + json_escape_spec(email) + "\"}"@
}

/// The body of the request for a one-time code, or, when the address holds
/// no `@`, the notice that asks for an address.
pub fn otp_request_body(email: &str) -> (r: Result<String, String>)
    ensures
        match r {
            Ok(b) => email@.contains('@') && b@ == otp_request_body_spec(email@),
            Err(n) => !email@.contains('@') && n@ == "メールアドレスを入力してください"@,
        },
{
    if !contains_char(email, '@') {
        return Err(String::from_str("メールアドレスを入力してください"));
    }
    let mut b = String::from_str("{\"email\":\"");
    let e = json_escape(email);
    b.append(e.as_str());
    b.append("\"}");
    Ok(b)
}

/// The notice after asking for a one-time code, from the status of the
/// answer (none when no answer came).
pub open spec fn otp_request_text(status: Option<u16>) -> Seq<char> {
    match status {
        Some(s) => if s == 200 {
            "OTPを送信しました。届いたコードを入力してください。"@
        } else if s == 403 {
            "このメールアドレスは登録されていません"@
        } else if s == 503 {
            "サーバーのメール設定が未完了です"@
        } else {
            "OTP送信に失敗しました(status "@ + decimal(s as nat) + ")"@
        },
        None => "OTP送信に失敗しました(通信エラー)"@,
    }
}

/// Whether the code entry appears, and the notice, after asking for a
/// one-time code.
pub fn otp_request_notice(status: Option<u16>) -> (r: (bool, String))
    ensures
        r.0 == (status == Some(200u16)),
        r.1@ == otp_request_text(status),
{
    match status {
        Some(s) => if s == 200 {
            (true, String::from_str("OTPを送信しました。届いたコードを入力してください。"))
        } else if s == 403 {
            (false, String::from_str("このメールアドレスは登録されていません"))
        } else if s == 503 {
            (false, String::from_str("サーバーのメール設定が未完了です"))
        } else {
            let mut t = String::from_str("OTP送信に失敗しました(status ");
            let d = decimal_text(s as u64);
            t.append(d.as_str());
            t.append(")");
            (false, t)
        },
        None => (false, String::from_str("OTP送信に失敗しました(通信エラー)")),
    }
}

/// `{"email":"<email>","code":"<code>"}`, both escaped.
pub open spec fn otp_verify_body_spec(email: Seq<char>, code: Seq<char>) -> Seq<char> {
    "{\"email\":\""@ + json_escape_spec(email) + "\",\"code\":\""@ + json_escape_spec(code) + "\"}"@
}

/// The body of the login request, or, when no code was entered, the notice
/// that asks for it.
pub fn otp_verify_body(email: &str, code: &str) -> (r: Result<String, String>)
    ensures
        match r {
            Ok(b) => code@.len() > 0 && b@ == otp_verify_body_spec(email@, code@),
            Err(n) => code@.len() == 0 && n@ == "コードを入力してください"@,
        },
{
    if code.is_empty() {
        return Err(String::from_str("コードを入力してください"));
    }
    let mut b = String::from_str("{\"email\":\"");
    let e = json_escape(email);
    b.append(e.as_str());
    b.append("\",\"code\":\"");
    let c = json_escape(code);
    b.append(c.as_str());
    b.append("\"}");
    Ok(b)
}

/// How a login attempt ended.
#[derive(Debug)]
pub enum LoginOutcome {
    /// Logged in; the session token to keep.
    LoggedIn(String),
    /// Not logged in; the notice says why.
    Refused(String),
}

/// Why a login attempt was refused, from the status of the answer (none
/// when no answer came); a 200 here is one without a token.
pub open spec fn login_refusal_text(status: Option<u16>) -> Seq<char> {
    match status {
        Some(s) => if s == 200 {
            "ログインに失敗しました(応答解析エラー)"@
        } else {
            "コードが正しくありません"@
        },
        None => "ログインに失敗しました(通信エラー)"@,
    }
}

/// The end of a login attempt, from the status of the answer and the token
/// read from its body.
pub fn login_outcome(status: Option<u16>, token: Option<String>) -> (r: LoginOutcome)
    ensures
        status == Some(200u16) && token is Some ==> r == LoginOutcome::LoggedIn(token->0),
        !(status == Some(200u16) && token is Some) ==> (r matches LoginOutcome::Refused(n) && n@ == login_refusal_text(status)),
{
    match status {
        Some(s) => if s == 200 {
            match token {
                Some(t) => LoginOutcome::LoggedIn(t),
                None => LoginOutcome::Refused(String::from_str("ログインに失敗しました(応答解析エラー)")),
            }
        } else {
            LoginOutcome::Refused(String::from_str("コードが正しくありません"))
        },
        None => LoginOutcome::Refused(String::from_str("ログインに失敗しました(通信エラー)")),
    }
}

/// The headers of a request from the front end: a JSON content type when it
/// has a body, and the session token as a bearer credential when one is kept.
pub open spec fn fetch_headers_spec(has_body: bool, token: Option<Seq<char>>) -> Seq<(Seq<char>, Seq<char>)> {
    let a = if has_body {
        seq![("Content-Type"@, "application/json"@)]
    } else {
        Seq::empty()
    };
    let b = match token {
        Some(t) => seq![("Authorization"@, bearer_prefix() + t)],
        None => Seq::empty(),
    };
    a + b
}

/// The headers to send with a request from the front end.
pub fn fetch_headers(has_body: bool, token: Option<&str>) -> (r: Vec<(String, String)>)
    ensures
        header_views(r@) == fetch_headers_spec(has_body, opt_view(token)),
{
    proof {
        reveal_strlit("Bearer ");
    }
    assert("Bearer "@ =~= bearer_prefix());
    let mut r: Vec<(String, String)> = Vec::new();
    if has_body {
        r.push((String::from_str("Content-Type"), String::from_str("application/json")));
    }
    let ghost a = header_views(r@);
    assert(a =~= (if has_body {
        seq![("Content-Type"@, "application/json"@)]
    } else {
        Seq::<(Seq<char>, Seq<char>)>::empty()
    }));
    if let Some(t) = token {
        let mut v = String::from_str("Bearer ");
        v.append(t);
        let ghost hv = (("Authorization"@, v@));
        r.push((String::from_str("Authorization"), v));
        assert(header_views(r@) =~= a.push(hv));
    }
    assert(header_views(r@) =~= fetch_headers_spec(has_body, opt_view(token)));
    r
}

/// The greeting of the login area: for a kept address, the logged-in view
/// greets it; with none, the anonymous view shows and there is no greeting.
pub fn auth_greeting(stored_email: Option<&str>) -> (r: Option<String>)
    ensures
        match stored_email {
            Some(e) => r matches Some(g) && g@ == "ログイン中: "@ + e@,
            None => r is None,
        },
{
    match stored_email {
        Some(e) => {
            let mut g = String::from_str("ログイン中: ");
            g.append(e);
            Some(g)
        },
        None => None,
    }
}

/// What the README area shows.
#[derive(Debug)]
pub struct ReadmeView {
    /// New content of the README area, when it changes.
    pub html: Option<String>,
    /// The status line.
    pub status: String,
}

/// The API path of a repository's README.
pub open spec fn readme_path_spec(repo: Seq<char>) -> Seq<char> {
    "/api/repos/"@ + repo + "/readme"@
}

/// The API path to fetch and the status line while the README of `repo` loads.
pub fn readme_request(repo: &str) -> (r: (String, String))
    ensures
        r.0@ == readme_path_spec(repo@),
        r.1@ == repo@ + " のREADMEを読み込み中..."@,
{
    let mut p = String::from_str("/api/repos/");
    p.append(repo);
    p.append("/readme");
    let mut s = repo.to_owned();
    s.append(" のREADMEを読み込み中...");
    (p, s)
}

/// The README area after loading: `fetched` is none when the request
/// failed, else the branch and Markdown content read from the answer, when
/// it had both.
pub fn readme_view(repo: &str, fetched: Option<Option<(String, String)>>) -> (r: ReadmeView)
    ensures
        match fetched {
            None => r.html is None && r.status@ == repo@ + ": 読み込みに失敗しました"@,
            Some(None) => r.html matches Some(h) && h@ == "<p><em>README.md が見つかりませんでした。</em></p>"@
                && r.status@ == repo@ + ": README.md無し"@,
            Some(Some((branch, content))) => r.html matches Some(h) && h@ == commonmark_html(content@)
                && r.status@ == repo@ + " (branch: "@ + branch@ + ")"@,
        },
{
    let mut status = repo.to_owned();
    match fetched {
        None => {
            status.append(": 読み込みに失敗しました");
            ReadmeView { html: None, status }
        },
        Some(None) => {
            status.append(": README.md無し");
            ReadmeView { html: Some(String::from_str("<p><em>README.md が見つかりませんでした。</em></p>")), status }
        },
        Some(Some((branch, content))) => {
            status.append(" (branch: ");
            status.append(branch.as_str());
            status.append(")");
            ReadmeView { html: Some(markdown_to_html(content.as_str())), status }
        },
    }
}

/// The status line after loading the repository list: how many there are,
/// or that loading failed.
pub fn repo_list_status(count: Option<usize>) -> (r: String)
    ensures
        match count {
            Some(n) => r@ == decimal(n as nat) + "件のリポジトリ"@,
            None => r@ == "リポジトリ一覧の読み込みに失敗しました"@,
        },
{
    match count {
        Some(n) => {
            let mut t = decimal_text(n as u64);
            t.append("件のリポジトリ");
            t
        },
        None => String::from_str("リポジトリ一覧の読み込みに失敗しました"),
    }
}

} // verus!
