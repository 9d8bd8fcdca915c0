//! Reading the CGI output of `git http-backend`: header lines, a blank
//! line, then the body; a `Status:` header sets the status code.
use vstd::prelude::*;
use crate::keyed::string_views;
use crate::request::utf8_lossy;
use crate::text::{
    chars_of, is_whitespace, is_ws, split_once_spec, split_once_str, string_of_range, trim, trim_start,
    trim_str,
};

verus! {

/// Bytes `i..i+4` of `s` are `\r\n\r\n`.
pub open spec fn blank_line_at(s: Seq<u8>, i: int) -> bool {
    s[i] == 13 && s[i + 1] == 10 && s[i + 2] == 13 && s[i + 3] == 10
}

/// The first `i` at or after `from` where `\r\n\r\n` starts.
pub open spec fn blank_line_from(s: Seq<u8>, from: int) -> Option<int>
    decreases s.len() - from,
{
    if from < 0 || from + 4 > s.len() {
        None
    } else if blank_line_at(s, from) {
        Some(from)
    } else {
        blank_line_from(s, from + 1)
    }
}

/// Where `blank_line_from` finds the blank line, four bytes fit.
pub proof fn lemma_blank_line_from(s: Seq<u8>, from: int)
    ensures
        blank_line_from(s, from) matches Some(p) ==> from <= p && p + 4 <= s.len() && blank_line_at(s, p),
    decreases s.len() - from,
{
    if !(from < 0 || from + 4 > s.len()) && !blank_line_at(s, from) {
        lemma_blank_line_from(s, from + 1);
    }
}

/// Finds where the header block of `raw` ends.
pub fn find_blank_line(raw: &[u8]) -> (r: Option<usize>)
    ensures
        match r {
            Some(i) => blank_line_from(raw@, 0) == Some(i as int),
            None => blank_line_from(raw@, 0) is None,
        },
{
    let n = raw.len();
    if n < 4 {
        return None;
    }
    let mut i: usize = 0;
    while i <= n - 4
        invariant
            n == raw@.len(),
            n >= 4,
            i <= n - 3,
            blank_line_from(raw@, i as int) == blank_line_from(raw@, 0),
        decreases n - i,
    {
        if raw[i] == 13 && raw[i + 1] == 10 && raw[i + 2] == 13 && raw[i + 3] == 10 {
            return Some(i);
        }
        i += 1;
    }
    None
}

/// The index of the first `\r\n` in `s`, or the length of `s` if there is none.
pub open spec fn crlf_pos(s: Seq<char>) -> int
    decreases s.len(),
{
    if s.len() < 2 {
        s.len() as int
    } else if s[0] == '\r' && s[1] == '\n' {
        0
    } else {
        1 + crlf_pos(s.drop_first())
    }
}

/// What `crlf_pos` returns.
pub proof fn lemma_crlf_pos(s: Seq<char>)
    ensures
        0 <= crlf_pos(s) <= s.len(),
        crlf_pos(s) + 2 <= s.len() ==> s[crlf_pos(s)] == '\r' && s[crlf_pos(s) + 1] == '\n',
        crlf_pos(s) + 2 > s.len() ==> crlf_pos(s) == s.len(),
        forall|j: int| 0 <= j < crlf_pos(s) && j + 1 < s.len() ==> !(#[trigger] s[j] == '\r' && s[j + 1] == '\n'),
    decreases s.len(),
{
    if s.len() >= 2 && !(s[0] == '\r' && s[1] == '\n') {
        let t = s.drop_first();
        lemma_crlf_pos(t);
        assert forall|j: int| 0 <= j < crlf_pos(s) && j + 1 < s.len() implies !(#[trigger] s[j] == '\r' && s[j + 1] == '\n') by {
            if j > 0 {
                assert(s[j] == t[j - 1] && s[j + 1] == t[j]);
            }
        }
    }
}

proof fn lemma_crlf_pos_at(s: Seq<char>, i: int)
    requires
        0 <= i <= s.len(),
        forall|j: int| 0 <= j < i && j + 1 < s.len() ==> !(#[trigger] s[j] == '\r' && s[j + 1] == '\n'),
        i + 2 <= s.len() ==> s[i] == '\r' && s[i + 1] == '\n',
        i + 2 > s.len() ==> i == s.len() || (i + 1 == s.len() && !(s.len() >= 2 && s[i - 1] == '\r' && s[i] == '\n')),
    ensures
        crlf_pos(s) == if i + 2 <= s.len() { i } else { s.len() as int },
{
    lemma_crlf_pos(s);
    let p = crlf_pos(s);
    if i + 2 <= s.len() {
        if p < i {
            assert(!(s[p] == '\r' && s[p + 1] == '\n'));
        }
        if i < p {
            assert(!(s[i] == '\r' && s[i + 1] == '\n'));
        }
    } else {
        if p + 2 <= s.len() {
            assert(p < i);
            assert(!(s[p] == '\r' && s[p + 1] == '\n'));
        }
    }
}

/// The pieces of `s` between occurrences of `\r\n`, as `str::split("\r\n")` gives them.
pub open spec fn split_crlf(s: Seq<char>) -> Seq<Seq<char>>
    decreases s.len(),
{
    let p = crlf_pos(s);
    if p + 2 <= s.len() {
        proof {
            lemma_crlf_pos(s);
        }
        seq![s.take(p)] + split_crlf(s.skip(p + 2))
    } else {
        seq![s]
    }
}

/// The pieces of `s` between occurrences of `\r\n`.
pub fn split_crlf_str(s: &str) -> (r: Vec<String>)
    ensures
        string_views(r@) == split_crlf(s@),
{
    let v = chars_of(s);
    let n = v.len();
    let mut pieces: Vec<String> = Vec::new();
    let mut start: usize = 0;
    let mut i: usize = 0;
    assert(v@.skip(0) =~= v@);
    while n - i > 1
        invariant
            n == v@.len(),
            v@ == s@,
            start <= i <= n,
            string_views(pieces@) + split_crlf(v@.skip(start as int)) == split_crlf(v@),
            forall|k: int| start <= k < i && k + 1 < n ==> !(#[trigger] v@[k] == '\r' && v@[k + 1] == '\n'),
        decreases n - i,
    {
        if v[i] == '\r' && v[i + 1] == '\n' {
            let ghost rest = v@.skip(start as int);
            proof {
                assert forall|j: int| 0 <= j < i - start && j + 1 < rest.len() implies !(#[trigger] rest[j] == '\r' && rest[j + 1] == '\n') by {
                    assert(rest[j] == v@[start + j] && rest[j + 1] == v@[start + j + 1]);
                }
                assert(rest[i - start] == '\r' && rest[i - start + 1] == '\n');
                lemma_crlf_pos_at(rest, i - start);
                assert(rest.take(i - start) =~= v@.subrange(start as int, i as int));
                assert(rest.skip(i - start + 2) =~= v@.skip(i + 2));
            }
            let piece = string_of_range(&v, start, i);
            let ghost before = pieces@;
            pieces.push(piece);
            assert(string_views(pieces@) =~= string_views(before).push(piece@));
            assert(string_views(pieces@) + split_crlf(v@.skip(i + 2)) =~= string_views(before) + split_crlf(rest));
            start = i + 2;
            i = i + 2;
        } else {
            i += 1;
        }
    }
    let ghost rest = v@.skip(start as int);
    proof {
        assert forall|j: int| 0 <= j < rest.len() && j + 1 < rest.len() implies !(#[trigger] rest[j] == '\r' && rest[j + 1] == '\n') by {
            assert(rest[j] == v@[start + j] && rest[j + 1] == v@[start + j + 1]);
        }
        lemma_crlf_pos(rest);
        if crlf_pos(rest) + 2 <= rest.len() {
            assert(false);
        }
    }
    let piece = string_of_range(&v, start, n);
    assert(piece@ =~= rest);
    let ghost before = pieces@;
    pieces.push(piece);
    assert(string_views(pieces@) =~= string_views(before).push(rest));
    pieces
}

/// `c` with an ASCII capital letter made small.
pub open spec fn ascii_lower(c: char) -> char {
    if 'A' <= c && c <= 'Z' {
        ((c as int) + 32) as char
    } else {
        c
    }
}

/// `a` and `b` are equal ignoring ASCII case.
pub open spec fn eq_ignore_ascii_case(a: Seq<char>, b: Seq<char>) -> bool {
    a.len() == b.len() && forall|i: int| 0 <= i < a.len() ==> ascii_lower(a[i]) == ascii_lower(#[trigger] b[i])
}

fn ascii_lower_exec(c: char) -> (r: char)
    ensures
        r == ascii_lower(c),
{
    if 'A' <= c && c <= 'Z' {
        ((c as u8) + 32) as char
    } else {
        c
    }
}

/// `"Status"`.
pub open spec fn status_name() -> Seq<char> {
    seq!['S', 't', 'a', 't', 'u', 's']
}

/// Whether `name` is `Status` in any ASCII case.
pub fn is_status_name(name: &str) -> (r: bool)
    ensures
        r == eq_ignore_ascii_case(name@, status_name()),
{
    let v = chars_of(name);
    let w: Vec<char> = vec!['S', 't', 'a', 't', 'u', 's'];
    assert(w@ =~= status_name());
    if v.len() != w.len() {
        return false;
    }
    let mut i: usize = 0;
    while i < v.len()
        invariant
            i <= v@.len(),
            v@.len() == w@.len(),
            v@ == name@,
            w@ == status_name(),
            forall|j: int| 0 <= j < i ==> ascii_lower(v@[j]) == ascii_lower(#[trigger] w@[j]),
        decreases v@.len() - i,
    {
        if ascii_lower_exec(v[i]) != ascii_lower_exec(w[i]) {
            return false;
        }
        i += 1;
    }
    true
}

/// The index of the first white-space character of `s`, or its length.
pub open spec fn ws_pos(s: Seq<char>) -> int
    decreases s.len(),
{
    if s.len() == 0 {
        0
    } else if is_ws(s[0]) {
        0
    } else {
        1 + ws_pos(s.drop_first())
    }
}

/// `ws_pos` is the first index holding white space.
pub proof fn lemma_ws_pos_at(s: Seq<char>, i: int)
    requires
        0 <= i <= s.len(),
        forall|j: int| 0 <= j < i ==> !is_ws(s[j]),
        i < s.len() ==> is_ws(s[i]),
    ensures
        ws_pos(s) == i,
    decreases i,
{
    if i > 0 {
        let t = s.drop_first();
        assert forall|j: int| 0 <= j < i - 1 implies !is_ws(t[j]) by {
            assert(t[j] == s[j + 1]);
        }
        lemma_ws_pos_at(t, i - 1);
    }
}

/// The first white-space-separated word of `s`, as `split_whitespace().next()` gives it.
pub open spec fn first_word(s: Seq<char>) -> Option<Seq<char>> {
    let t = trim_start(s);
    if t.len() == 0 {
        None
    } else {
        Some(t.take(ws_pos(t)))
    }
}

/// The first word of text that has no leading white space.
fn first_word_trimmed(s: &str) -> (r: Option<String>)
    requires
        s@.len() == 0 || !is_ws(s@[0]),
    ensures
        match r {
            Some(w) => first_word(s@) == Some(w@),
            None => first_word(s@) is None,
        },
{
    let v = chars_of(s);
    assert(trim_start(v@) == v@);
    if v.len() == 0 {
        return None;
    }
    let mut i: usize = 0;
    while i < v.len() && !is_whitespace(v[i])
        invariant
            i <= v@.len(),
            forall|j: int| 0 <= j < i ==> !is_ws(v@[j]),
        decreases v@.len() - i,
    {
        i += 1;
    }
    proof {
        lemma_ws_pos_at(v@, i as int);
    }
    Some(string_of_range(&v, 0, i))
}

/// `c` is an ASCII decimal digit.
pub open spec fn is_digit(c: char) -> bool {
    '0' <= c && c <= '9'
}

/// The number that the decimal digits `s` spell.
pub open spec fn dec_value(s: Seq<char>) -> int
    decreases s.len(),
{
    if s.len() == 0 {
        0
    } else {
        dec_value(s.drop_last()) * 10 + ((s.last() as int) - ('0' as int))
    }
}

proof fn lemma_dec_value_grows(s: Seq<char>, k: int)
    requires
        0 <= k <= s.len(),
        forall|i: int| 0 <= i < s.len() ==> is_digit(#[trigger] s[i]),
    ensures
        0 <= dec_value(s.take(k)) <= dec_value(s),
    decreases s.len(),
{
    if s.len() > 0 {
        let p = s.drop_last();
        assert forall|i: int| 0 <= i < p.len() implies is_digit(#[trigger] p[i]) by {
            assert(p[i] == s[i]);
        }
        if k == s.len() {
            assert(s.take(k) =~= s);
            lemma_dec_value_grows(p, p.len() as int);
            assert(p.take(p.len() as int) =~= p);
        } else {
            lemma_dec_value_grows(p, k);
            assert(p.take(k) =~= s.take(k));
            lemma_dec_value_grows(p, p.len() as int);
            assert(p.take(p.len() as int) =~= p);
        }
    } else {
        assert(s.take(k) =~= s);
    }
}

/// `s` without one leading `+`.
pub open spec fn unsigned_digits(s: Seq<char>) -> Seq<char> {
    if s.len() > 0 && s[0] == '+' {
        s.drop_first()
    } else {
        s
    }
}

/// Every character of `s` is a decimal digit.
pub open spec fn all_digits(s: Seq<char>) -> bool {
    forall|i: int| 0 <= i < s.len() ==> is_digit(#[trigger] s[i])
}

/// What `str::parse::<u16>` reads: an optional `+`, then decimal digits
/// whose value fits in sixteen bits.
pub open spec fn parse_u16_spec(s: Seq<char>) -> Option<u16> {
    let d = unsigned_digits(s);
    if d.len() > 0 && all_digits(d) && dec_value(d) <= 65535 {
        Some(dec_value(d) as u16)
    } else {
        None
    }
}

/// Reads a decimal `u16`.
pub fn parse_u16(s: &str) -> (r: Option<u16>)
    ensures
        r == parse_u16_spec(s@),
{
    let v = chars_of(s);
    let mut i: usize = 0;
    if v.len() > 0 && v[0] == '+' {
        i = 1;
    }
    let ghost d = unsigned_digits(s@);
    assert(d =~= v@.skip(i as int));
    if i == v.len() {
        return None;
    }
    let mut acc: u32 = 0;
    let start = i;
    while i < v.len()
        invariant
            start <= i <= v@.len(),
            v@ == s@,
            d == unsigned_digits(s@),
            d =~= v@.skip(start as int),
            forall|j: int| start <= j < i ==> is_digit(#[trigger] v@[j]),
            acc as int == dec_value(v@.subrange(start as int, i as int)),
            acc <= 65535,
        decreases v@.len() - i,
    {
        let c = v[i];
        if !('0' <= c && c <= '9') {
            assert(d[i - start] == c);
            assert(!is_digit(d[i - start]));
            return None;
        }
        let digit = (c as u32) - 48;
        assert(v@.subrange(start as int, i + 1).drop_last() =~= v@.subrange(start as int, i as int));
        let next = acc * 10 + digit;
        assert(d.take(i + 1 - start) =~= v@.subrange(start as int, i + 1));
        assert(digit as int == (c as int) - ('0' as int));
        assert(dec_value(v@.subrange(start as int, i + 1)) == next as int);
        if next > 65535 {
            proof {
                if all_digits(d) {
                    lemma_dec_value_grows(d, i + 1 - start);
                }
            }
            return None;
        }
        acc = next;
        i += 1;
    }
    assert(v@.subrange(start as int, i as int) =~= d);
    Some(acc as u16)
}

/// The status codes `http::StatusCode::from_u16` accepts: 100 to 999.
pub open spec fn valid_status_code(code: u16) -> bool {
    100 <= code && code <= 999
}

/// The status code a header line sets: a `Status` header whose first word
/// is a number from 100 to 999.
pub open spec fn status_of_line(line: Seq<char>) -> Option<u16> {
    match split_once_spec(line, ':') {
        Some((n, v)) => if eq_ignore_ascii_case(trim(n), status_name()) {
            match first_word(trim(v)) {
                Some(w) => match parse_u16_spec(w) {
                    Some(c) => if valid_status_code(c) {
                        Some(c)
                    } else {
                        None
                    },
                    None => None,
                },
                None => None,
            }
        } else {
            None
        },
        None => None,
    }
}

/// The header a line passes on: every `name: value` line but `Status`,
/// both parts trimmed.
pub open spec fn header_of_line(line: Seq<char>) -> Option<(Seq<char>, Seq<char>)> {
    match split_once_spec(line, ':') {
        Some((n, v)) => if eq_ignore_ascii_case(trim(n), status_name()) {
            None
        } else {
            Some((trim(n), trim(v)))
        },
        None => None,
    }
}

/// The status the header lines set: the last valid `Status`, else 200.
pub open spec fn cgi_status(lines: Seq<Seq<char>>) -> u16
    decreases lines.len(),
{
    if lines.len() == 0 {
        200
    } else {
        match status_of_line(lines.last()) {
            Some(c) => c,
            None => cgi_status(lines.drop_last()),
        }
    }
}

/// The headers the lines pass on, in order.
pub open spec fn cgi_headers(lines: Seq<Seq<char>>) -> Seq<(Seq<char>, Seq<char>)>
    decreases lines.len(),
{
    if lines.len() == 0 {
        Seq::empty()
    } else {
        let h = cgi_headers(lines.drop_last());
        match header_of_line(lines.last()) {
            Some(p) => h.push(p),
            None => h,
        }
    }
}

/// A response read from CGI output.
#[derive(Debug)]
pub struct CgiResponse {
    pub status: u16,
    pub headers: Vec<(String, String)>,
    pub body: Vec<u8>,
}

/// The views of a sequence of header pairs.
pub open spec fn header_views(s: Seq<(String, String)>) -> Seq<(Seq<char>, Seq<char>)> {
    s.map_values(|p: (String, String)| (p.0@, p.1@))
}

/// CGI output without the blank line that ends its headers.
#[derive(Debug, Clone, Copy, PartialEq, Eq, Structural)]
pub struct MalformedCgi;

/// The status, headers and body of CGI output `raw`, or none when it has
/// no blank line after its headers.
pub open spec fn cgi_spec(raw: Seq<u8>) -> Option<(u16, Seq<(Seq<char>, Seq<char>)>, Seq<u8>)> {
    match blank_line_from(raw, 0) {
        Some(p) => {
            let lines = split_crlf(utf8_lossy(raw.take(p)));
            Some((cgi_status(lines), cgi_headers(lines), raw.skip(p + 4)))
        },
        None => None,
    }
}

/// Reads one header line.
fn read_line(line: &str) -> (r: (Option<u16>, Option<(String, String)>))
    ensures
        r.0 == status_of_line(line@),
        match r.1 {
            Some((n, v)) => header_of_line(line@) == Some((n@, v@)),
            None => header_of_line(line@) is None,
        },
{
    match split_once_str(line, ':') {
        Some((n, v)) => {
            let name = trim_str(n.as_str());
            let value = trim_str(v.as_str());
            if is_status_name(name.as_str()) {
                proof {
                    crate::text::lemma_trim_first(v@);
                }
                let code = match first_word_trimmed(value.as_str()) {
                    Some(w) => match parse_u16(w.as_str()) {
                        Some(c) => if 100 <= c && c <= 999 {
                            Some(c)
                        } else {
                            None
                        },
                        None => None,
                    },
                    None => None,
                };
                (code, None)
            } else {
                (None, Some((name, value)))
            }
        },
        None => (None, None),
    }
}

/// Reads CGI output into status, headers and body.
pub fn parse_cgi_response(raw: &[u8]) -> (r: Result<CgiResponse, MalformedCgi>)
    ensures
        match r {
            Ok(resp) => cgi_spec(raw@) == Some((resp.status, header_views(resp.headers@), resp.body@)),
            Err(_) => cgi_spec(raw@) is None,
        },
{
    let sep = match find_blank_line(raw) {
        Some(i) => i,
        None => return Err(MalformedCgi),
    };
    proof {
        lemma_blank_line_from(raw@, 0);
    }
    let header_bytes = slice_prefix(raw, sep);
    let total = raw.len();
    assert(sep + 4 <= total);
    let body = slice_suffix(raw, sep + 4);
    let text = crate::request::string_from_utf8_lossy(header_bytes.as_slice());
    let lines = split_crlf_str(text.as_str());
    let ghost ls = string_views(lines@);
    let mut status: u16 = 200;
    let mut headers: Vec<(String, String)> = Vec::new();
    let mut k: usize = 0;
    while k < lines.len()
        invariant
            k <= lines@.len(),
            ls == string_views(lines@),
            status == cgi_status(ls.take(k as int)),
            header_views(headers@) == cgi_headers(ls.take(k as int)),
        decreases lines@.len() - k,
    {
        let (code, header) = read_line(lines[k].as_str());
        assert(ls.take(k + 1).drop_last() =~= ls.take(k as int));
        assert(ls.take(k + 1).last() == lines@[k as int]@);
        if let Some(c) = code {
            status = c;
        }
        if let Some(h) = header {
            let ghost before = headers@;
            let ghost hv = (h.0@, h.1@);
            headers.push(h);
            assert(header_views(headers@) =~= header_views(before).push(hv));
        }
        k += 1;
    }
    assert(ls.take(k as int) =~= ls);
    Ok(CgiResponse { status, headers, body })
}

/// `raw[..n]` as a vector.
fn slice_prefix(raw: &[u8], n: usize) -> (r: Vec<u8>)
    requires
        n <= raw@.len(),
    ensures
        r@ == raw@.take(n as int),
{
    let mut r: Vec<u8> = Vec::new();
    let mut i: usize = 0;
    while i < n
        invariant
            i <= n <= raw@.len(),
            r@ == raw@.take(i as int),
        decreases n - i,
    {
        r.push(raw[i]);
        assert(raw@.take(i + 1) =~= raw@.take(i as int).push(raw@[i as int]));
        i += 1;
    }
    r
}

/// `raw[n..]` as a vector.
fn slice_suffix(raw: &[u8], n: usize) -> (r: Vec<u8>)
    requires
        n <= raw@.len(),
    ensures
        r@ == raw@.skip(n as int),
{
    let mut r: Vec<u8> = Vec::new();
    let mut i: usize = n;
    while i < raw.len()
        invariant
            n <= i <= raw@.len(),
            r@ == raw@.subrange(n as int, i as int),
        decreases raw@.len() - i,
    {
        r.push(raw[i]);
        assert(raw@.subrange(n as int, i + 1) =~= raw@.subrange(n as int, i as int).push(raw@[i as int]));
        i += 1;
    }
    assert(raw@.subrange(n as int, raw@.len() as int) =~= raw@.skip(n as int));
    r
}

} // verus!
