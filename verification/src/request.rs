//! What the HTTP layer decides from a request: credentials, group tokens,
//! percent-decoding, who may do what, and safe repository and tree paths.
use vstd::prelude::*;
use vstd::utf8::{decode_utf8, valid_utf8};
use crate::access::{allowed, is_allowed, opt_view, AccessConfig, GroupInfo, GroupStore, Need};
use crate::keyed::{string_views, StrSet};
use crate::text::{
    chars_of, contains_char, contains_pair, ends_with_str, has_pair, join, join_path, lemma_same_multiset_set_nodup,
    sort_strings, sorted_strs, split_on, split_once_spec, split_once_str, split_str, str_eq, strip_prefix_str,
    strip_suffix_str,
};

verus! {

/// What the `base64` crate's standard engine (`general_purpose::STANDARD`,
/// padded alphabet) decodes `encoded` to, or none when it rejects it.
pub uninterp spec fn base64_standard_decode(encoded: Seq<char>) -> Option<Seq<u8>>;

/// `base64::Engine::decode` with `base64::engine::general_purpose::STANDARD`.
/// Claimed: the result is the named decoding of the input.
#[verifier::external_body]
fn base64_decode(encoded: &str) -> (r: Option<Vec<u8>>)
    ensures
        match r {
            Some(b) => base64_standard_decode(encoded@) == Some(b@),
            None => base64_standard_decode(encoded@) is None,
        },
{
    base64::Engine::decode(&base64::engine::general_purpose::STANDARD, encoded).ok()
}

/// `String::from_utf8`. Claimed, as its documentation says: it succeeds
/// exactly on valid UTF-8, and then holds the decoded characters.
#[verifier::external_body]
fn string_from_utf8(bytes: Vec<u8>) -> (r: Option<String>)
    ensures
        r is Some <==> valid_utf8(bytes@),
        r matches Some(s) ==> s@ == decode_utf8(bytes@),
{
    String::from_utf8(bytes).ok()
}

/// What `String::from_utf8_lossy` makes of `bytes`.
pub uninterp spec fn utf8_lossy(bytes: Seq<u8>) -> Seq<char>;

/// `String::from_utf8_lossy`. Claimed: the result is the named lossy
/// decoding, and valid UTF-8 decodes with nothing replaced.
#[verifier::external_body]
pub(crate) fn string_from_utf8_lossy(bytes: &[u8]) -> (r: String)
    ensures
        r@ == utf8_lossy(bytes@),
        valid_utf8(bytes@) ==> r@ == decode_utf8(bytes@),
{
    String::from_utf8_lossy(bytes).into_owned()
}

/// `"Bearer "`.
pub open spec fn bearer_prefix() -> Seq<char> {
    seq!['B', 'e', 'a', 'r', 'e', 'r', ' ']
}

/// `"Basic "`.
pub open spec fn basic_prefix() -> Seq<char> {
    seq!['B', 'a', 's', 'i', 'c', ' ']
}

/// The password of `email:password` text: what follows the first `:`.
pub open spec fn basic_password(text: Seq<char>) -> Option<Seq<char>> {
    match split_once_spec(text, ':') {
        Some((_, p)) => Some(p),
        None => None,
    }
}

/// The session token an `Authorization` header carries: the rest of a
/// `Bearer` header, or the password of decoded `Basic` credentials.
pub open spec fn session_token_spec(header: Seq<char>) -> Option<Seq<char>> {
    if bearer_prefix().is_prefix_of(header) {
        Some(header.skip(7))
    } else if basic_prefix().is_prefix_of(header) {
        match base64_standard_decode(header.skip(6)) {
            Some(bytes) => if valid_utf8(bytes) {
                basic_password(decode_utf8(bytes))
            } else {
                None
            },
            None => None,
        }
    } else {
        None
    }
}

/// The password part of decoded `email:password` credentials.
pub fn basic_credentials_token(text: &str) -> (r: Option<String>)
    ensures
        match r {
            Some(t) => basic_password(text@) == Some(t@),
            None => basic_password(text@) is None,
        },
{
    match split_once_str(text, ':') {
        Some((_, token)) => Some(token),
        None => None,
    }
}

/// The password inside `Basic` credentials that were already base64-decoded
/// to `decoded` (none when they are not UTF-8).
pub fn basic_token_from_decoded(decoded: Vec<u8>) -> (r: Option<String>)
    ensures
        match r {
            Some(t) => valid_utf8(decoded@) && basic_password(decode_utf8(decoded@)) == Some(t@),
            None => !valid_utf8(decoded@) || basic_password(decode_utf8(decoded@)) is None,
        },
{
    match string_from_utf8(decoded) {
        Some(text) => basic_credentials_token(text.as_str()),
        None => None,
    }
}

/// The session token carried by an `Authorization` header value.
pub fn session_token(header: &str) -> (r: Option<String>)
    ensures
        match r {
            Some(t) => session_token_spec(header@) == Some(t@),
            None => session_token_spec(header@) is None,
        },
{
    proof {
        reveal_strlit("Bearer ");
        reveal_strlit("Basic ");
    }
    assert("Bearer "@ =~= bearer_prefix());
    assert("Basic "@ =~= basic_prefix());
    if let Some(token) = strip_prefix_str(header, "Bearer ") {
        return Some(token);
    }
    if let Some(encoded) = strip_prefix_str(header, "Basic ") {
        return match base64_decode(encoded.as_str()) {
            Some(bytes) => basic_token_from_decoded(bytes),
            None => None,
        };
    }
    None
}

/// The logged-in identity is the administrator.
pub fn is_admin_identity(identity: Option<&str>, admin_email: &str) -> (r: bool)
    ensures
        r == (identity matches Some(i) && i@ == admin_email@),
{
    match identity {
        Some(i) => str_eq(i, admin_email),
        None => false,
    }
}

// --- percent-decoding ---

/// The value of one hexadecimal digit byte.
pub open spec fn hex_value(b: u8) -> Option<u8> {
    if 48 <= b <= 57 {
        Some((b - 48) as u8)
    } else if 97 <= b <= 102 {
        Some((b - 87) as u8)
    } else if 65 <= b <= 70 {
        Some((b - 55) as u8)
    } else {
        None
    }
}

/// What `u8::from_str_radix(.., 16)` reads from the two bytes `a`, `b`:
/// two hex digits, or `+` and one hex digit.
pub open spec fn hex_pair(a: u8, b: u8) -> Option<u8> {
    match (hex_value(a), hex_value(b)) {
        (Some(x), Some(y)) => Some((x * 16 + y) as u8),
        (None, Some(y)) => if a == 43 {
            Some(y)
        } else {
            None
        },
        _ => None,
    }
}

/// `%XY` sequences with a readable pair replaced by the byte they stand for.
pub open spec fn percent_decode(s: Seq<u8>) -> Seq<u8>
    decreases s.len(),
{
    if s.len() == 0 {
        Seq::empty()
    } else if s[0] == 37 && s.len() > 2 && hex_pair(s[1], s[2]) is Some {
        seq![hex_pair(s[1], s[2])->0] + percent_decode(s.skip(3))
    } else {
        seq![s[0]] + percent_decode(s.skip(1))
    }
}

fn hex_value_exec(b: u8) -> (r: Option<u8>)
    ensures
        r == hex_value(b),
{
    if 48 <= b && b <= 57 {
        Some(b - 48)
    } else if 97 <= b && b <= 102 {
        Some(b - 87)
    } else if 65 <= b && b <= 70 {
        Some(b - 55)
    } else {
        None
    }
}

fn hex_pair_exec(a: u8, b: u8) -> (r: Option<u8>)
    ensures
        r == hex_pair(a, b),
{
    match (hex_value_exec(a), hex_value_exec(b)) {
        (Some(x), Some(y)) => Some(x * 16 + y),
        (None, Some(y)) => if a == 43 {
            Some(y)
        } else {
            None
        },
        _ => None,
    }
}

/// Replaces each readable `%XY` in `bytes`.
pub fn percent_decode_bytes(bytes: &[u8]) -> (r: Vec<u8>)
    ensures
        r@ == percent_decode(bytes@),
{
    let mut out: Vec<u8> = Vec::new();
    let mut i: usize = 0;
    let n = bytes.len();
    assert(bytes@.skip(0) =~= bytes@);
    while i < n
        invariant
            i <= n,
            n == bytes@.len(),
            out@ + percent_decode(bytes@.skip(i as int)) == percent_decode(bytes@),
        decreases n - i,
    {
        let ghost rest = bytes@.skip(i as int);
        if bytes[i] == 37 && n - i > 2 {
            if let Some(v) = hex_pair_exec(bytes[i + 1], bytes[i + 2]) {
                assert(rest[1] == bytes@[i + 1] && rest[2] == bytes@[i + 2]);
                assert(rest.skip(3) =~= bytes@.skip(i + 3));
                let ghost before = out@;
                out.push(v);
                assert(out@ + percent_decode(bytes@.skip(i + 3)) =~= before + percent_decode(rest));
                i += 3;
                continue;
            }
        }
        assert(rest.skip(1) =~= bytes@.skip(i + 1));
        let ghost before = out@;
        out.push(bytes[i]);
        assert(out@ + percent_decode(bytes@.skip(i + 1)) =~= before + percent_decode(rest));
        i += 1;
    }
    assert(out@ + percent_decode(bytes@.skip(n as int)) =~= out@);
    out
}

/// Percent-decoding of text, the bytes read back as UTF-8, with invalid
/// sequences replaced when there are any.
pub open spec fn url_decode(s: Seq<char>) -> Seq<char> {
    let b = percent_decode(vstd::utf8::encode_utf8(s));
    if valid_utf8(b) {
        decode_utf8(b)
    } else {
        utf8_lossy(b)
    }
}

/// Decodes `%XX` escapes in `input`.
pub fn urlencoding_decode(input: &str) -> (r: String)
    ensures
        r@ == url_decode(input@),
{
    let bytes = input.as_bytes();
    let out = percent_decode_bytes(bytes);
    string_from_utf8_lossy(out.as_slice())
}

// --- group tokens ---

/// `"token="`.
pub open spec fn token_key() -> Seq<char> {
    seq!['t', 'o', 'k', 'e', 'n', '=']
}

/// The first of `pieces` that starts with `key`, without the key.
pub open spec fn first_with_prefix(pieces: Seq<Seq<char>>, key: Seq<char>) -> Option<Seq<char>>
    decreases pieces.len(),
{
    if pieces.len() == 0 {
        None
    } else if key.is_prefix_of(pieces[0]) {
        Some(pieces[0].skip(key.len() as int))
    } else {
        first_with_prefix(pieces.drop_first(), key)
    }
}

/// The first `key…` item of `items`, without the key.
pub fn find_with_prefix(items: &Vec<String>, key: &str) -> (r: Option<String>)
    ensures
        match r {
            Some(v) => first_with_prefix(string_views(items@), key@) == Some(v@),
            None => first_with_prefix(string_views(items@), key@) is None,
        },
{
    let mut i: usize = 0;
    let ghost all = string_views(items@);
    assert(all.skip(0) =~= all);
    while i < items.len()
        invariant
            i <= items@.len(),
            all == string_views(items@),
            first_with_prefix(all.skip(i as int), key@) == first_with_prefix(all, key@),
        decreases items@.len() - i,
    {
        let ghost rest = all.skip(i as int);
        assert(rest[0] == items@[i as int]@);
        assert(rest.drop_first() =~= all.skip(i + 1));
        if let Some(v) = strip_prefix_str(items[i].as_str(), key) {
            return Some(v);
        }
        i += 1;
    }
    None
}

/// The group token a request presents: from the first `token=` item of
/// the query (percent-decoded), else from the group-token header.
pub open spec fn group_token_spec(query: Option<Seq<char>>, header: Option<Seq<char>>) -> Option<Seq<char>> {
    match query {
        Some(q) => match first_with_prefix(split_on(q, '&'), token_key()) {
            Some(v) => Some(url_decode(v)),
            None => header,
        },
        None => header,
    }
}

/// The group token presented by a request with query `query` and
/// group-token header `header`.
pub fn extract_group_token(query: Option<&str>, header: Option<&str>) -> (r: Option<String>)
    ensures
        match r {
            Some(t) => group_token_spec(opt_view(query), opt_view(header)) == Some(t@),
            None => group_token_spec(opt_view(query), opt_view(header)) is None,
        },
{
    proof {
        reveal_strlit("token=");
    }
    assert("token="@ =~= token_key());
    if let Some(q) = query {
        let items = split_str(q, '&');
        if let Some(v) = find_with_prefix(&items, "token=") {
            return Some(urlencoding_decode(v.as_str()));
        }
    }
    match header {
        Some(h) => Some(h.to_owned()),
        None => None,
    }
}

// --- who may do what ---

/// The fixed identity of the demonstration login.
pub open spec fn demo_identity() -> Seq<char> {
    seq!['d', 'e', 'm', 'o', '@', 'o', 'p', 'e', 'n', '-', 'g', 'i', 't', 'e', 'a', '.', 'i', 'n', 'v', 'a', 'l', 'i', 'd']
}

/// The administrator may do anything; the demonstration login may view and
/// download but never push; everyone else goes by the repository's rules.
pub open spec fn git_allowed(
    identity: Option<Seq<char>>,
    admin_email: Seq<char>,
    need: Need,
    config: &AccessConfig,
    groups: Map<Seq<char>, GroupInfo>,
    token: Option<Seq<char>>,
) -> bool {
    if identity == Some(admin_email) {
        true
    } else if identity == Some(demo_identity()) {
        need == Need::View || need == Need::Download
    } else {
        allowed(config, need, groups, token, identity)
    }
}

/// Whether the requester `identity` may do `need` in a repository with
/// settings `config`.
pub fn is_allowed_for_git(
    identity: Option<&str>,
    admin_email: &str,
    need: Need,
    config: &AccessConfig,
    groups: &GroupStore,
    token: Option<&str>,
) -> (r: bool)
    ensures
        r == git_allowed(opt_view(identity), admin_email@, need, config, groups.groups@, opt_view(token)),
{
    proof {
        reveal_strlit("demo@open-gitea.invalid");
    }
    assert("demo@open-gitea.invalid"@ =~= demo_identity());
    if is_admin_identity(identity, admin_email) {
        return true;
    }
    if let Some(i) = identity {
        if str_eq(i, "demo@open-gitea.invalid") {
            return match need {
                Need::View | Need::Download => true,
                Need::Push => false,
            };
        }
    }
    is_allowed(config, need, groups, token, identity)
}

/// How a git request that may be refused is answered.
#[derive(Debug, Clone, Copy, PartialEq, Eq, Structural)]
pub enum GitAccess {
    /// Go on to the git backend.
    Allowed,
    /// 401 with a `WWW-Authenticate` challenge, so that git sends credentials.
    AuthenticationRequired,
    /// 403.
    Forbidden,
}

/// The answer to a git request: allowed, a challenge when no credentials
/// were sent, or a refusal.
pub fn git_access_outcome(allowed: bool, has_authorization: bool) -> (r: GitAccess)
    ensures
        r == (if allowed {
            GitAccess::Allowed
        } else if !has_authorization {
            GitAccess::AuthenticationRequired
        } else {
            GitAccess::Forbidden
        }),
{
    if allowed {
        GitAccess::Allowed
    } else if !has_authorization {
        GitAccess::AuthenticationRequired
    } else {
        GitAccess::Forbidden
    }
}

/// The administrator, or a registered account that also holds the create
/// permission, may create repositories.
pub open spec fn creation_allowed(
    identity: Option<Seq<char>>,
    admin_email: Seq<char>,
    emails: Set<Seq<char>>,
    can_create_repos: Set<Seq<char>>,
) -> bool {
    match identity {
        Some(i) => i == admin_email || (emails.contains(i) && can_create_repos.contains(i)),
        None => false,
    }
}

/// Whether the requester `identity` may create repositories.
pub fn may_create_repo(
    identity: Option<&str>,
    admin_email: &str,
    emails: &StrSet,
    can_create_repos: &StrSet,
) -> (r: bool)
    ensures
        r == creation_allowed(opt_view(identity), admin_email@, emails@, can_create_repos@),
{
    if is_admin_identity(identity, admin_email) {
        return true;
    }
    match identity {
        Some(e) => emails.contains(e) && can_create_repos.contains(e),
        None => false,
    }
}

/// A repository directory appears in the repository list: wiki
/// repositories never do; others do for any logged-in requester, and for an
/// anonymous one when the repository's rules let it view.
pub open spec fn listed_spec(
    dir_name: Seq<char>,
    config: &AccessConfig,
    groups: Map<Seq<char>, GroupInfo>,
    token: Option<Seq<char>>,
    identity: Option<Seq<char>>,
) -> bool {
    &&& !wiki_suffix().is_suffix_of(dir_name)
    &&& match identity {
        Some(_) => true,
        None => allowed(config, Need::View, groups, token, None),
    }
}

/// Whether the repository directory `dir_name` appears in the list shown to
/// the requester `identity` (none when not logged in).
pub fn repo_listed(
    dir_name: &str,
    config: &AccessConfig,
    groups: &GroupStore,
    token: Option<&str>,
    identity: Option<&str>,
) -> (r: bool)
    ensures
        r == listed_spec(dir_name@, config, groups.groups@, opt_view(token), opt_view(identity)),
{
    proof {
        reveal_strlit(".wiki.git");
    }
    assert(".wiki.git"@ =~= wiki_suffix());
    if ends_with_str(dir_name, ".wiki.git") {
        return false;
    }
    match identity {
        Some(_) => true,
        None => is_allowed(config, Need::View, groups, token, None),
    }
}

/// A repository directory under the repositories root, with its access settings.
#[derive(Debug)]
pub struct RepoEntry {
    pub name: String,
    pub config: AccessConfig,
}

/// The names among `entries` that appear in the list, in the order given.
pub open spec fn visible_names(
    entries: Seq<RepoEntry>,
    groups: Map<Seq<char>, GroupInfo>,
    token: Option<Seq<char>>,
    identity: Option<Seq<char>>,
) -> Seq<Seq<char>>
    decreases entries.len(),
{
    if entries.len() == 0 {
        Seq::empty()
    } else {
        let p = visible_names(entries.drop_last(), groups, token, identity);
        let e = entries.last();
        if listed_spec(e.name@, &e.config, groups, token, identity) {
            p.push(e.name@)
        } else {
            p
        }
    }
}

/// No two entries have the same name.
pub open spec fn names_unique(entries: Seq<RepoEntry>) -> bool {
    forall|i: int, j: int| 0 <= i < entries.len() && 0 <= j < entries.len() && i != j ==> entries[i].name@ != entries[j].name@
}

/// A name is listed exactly when some entry of that name is listed, and
/// unique entry names give a list without repeats.
pub proof fn lemma_visible_names(
    entries: Seq<RepoEntry>,
    groups: Map<Seq<char>, GroupInfo>,
    token: Option<Seq<char>>,
    identity: Option<Seq<char>>,
)
    ensures
        forall|x: Seq<char>| #[trigger] visible_names(entries, groups, token, identity).contains(x) <==> exists|i: int|
            0 <= i < entries.len() && entries[i].name@ == x && listed_spec(x, &entries[i].config, groups, token, identity),
        names_unique(entries) ==> visible_names(entries, groups, token, identity).no_duplicates(),
    decreases entries.len(),
{
    if entries.len() > 0 {
        let d = entries.drop_last();
        let e = entries.last();
        let n = entries.len() - 1;
        let p = visible_names(d, groups, token, identity);
        lemma_visible_names(d, groups, token, identity);
        let v = visible_names(entries, groups, token, identity);
        assert forall|x: Seq<char>| #[trigger] v.contains(x) <==> exists|i: int|
            0 <= i < entries.len() && entries[i].name@ == x && listed_spec(x, &entries[i].config, groups, token, identity) by {
            if v.contains(x) {
                if p.contains(x) {
                    let i = choose|i: int| 0 <= i < d.len() && d[i].name@ == x && listed_spec(x, &d[i].config, groups, token, identity);
                    assert(entries[i] == d[i]);
                } else {
                    let k = choose|k: int| 0 <= k < v.len() && v[k] == x;
                    if k < p.len() {
                        assert(p[k] == x);
                    }
                    assert(entries[n] == e);
                }
            }
            if exists|i: int| 0 <= i < entries.len() && entries[i].name@ == x && listed_spec(x, &entries[i].config, groups, token, identity) {
                let i = choose|i: int| 0 <= i < entries.len() && entries[i].name@ == x && listed_spec(x, &entries[i].config, groups, token, identity);
                if i < n {
                    assert(d[i] == entries[i]);
                    assert(p.contains(x));
                    let k = choose|k: int| 0 <= k < p.len() && p[k] == x;
                    assert(v[k] == x);
                } else {
                    assert(v[v.len() - 1] == x);
                }
            }
        }
        if names_unique(entries) {
            assert(names_unique(d)) by {
                assert forall|i: int, j: int| 0 <= i < d.len() && 0 <= j < d.len() && i != j implies d[i].name@ != d[j].name@ by {
                    assert(d[i] == entries[i] && d[j] == entries[j]);
                }
            }
            if listed_spec(e.name@, &e.config, groups, token, identity) {
                assert(!p.contains(e.name@)) by {
                    if p.contains(e.name@) {
                        let i = choose|i: int| 0 <= i < d.len() && d[i].name@ == e.name@ && listed_spec(e.name@, &d[i].config, groups, token, identity);
                        assert(d[i] == entries[i]);
                        assert(entries[n] == e);
                    }
                }
                assert forall|a: int, b: int| 0 <= a < v.len() && 0 <= b < v.len() && a != b implies v[a] != v[b] by {
                    if a < p.len() && b < p.len() {
                        assert(v[a] == p[a] && v[b] == p[b]);
                    } else if a < p.len() {
                        assert(v[a] == p[a]);
                    } else if b < p.len() {
                        assert(v[b] == p[b]);
                    }
                }
            }
        }
    }
}

/// The repository list shown to the requester `identity`: the names of the
/// listed entries, in ascending order.
pub fn visible_repos(
    entries: &Vec<RepoEntry>,
    groups: &GroupStore,
    token: Option<&str>,
    identity: Option<&str>,
) -> (r: Vec<String>)
    ensures
        sorted_strs(string_views(r@)),
        string_views(r@).to_multiset() == visible_names(entries@, groups.groups@, opt_view(token), opt_view(identity)).to_multiset(),
        forall|x: Seq<char>| #[trigger] string_views(r@).contains(x) <==> exists|i: int|
            0 <= i < entries@.len() && entries@[i].name@ == x
                && listed_spec(x, &entries@[i].config, groups.groups@, opt_view(token), opt_view(identity)),
        names_unique(entries@) ==> string_views(r@).no_duplicates(),
{
    let ghost gs = groups.groups@;
    let ghost tv = opt_view(token);
    let ghost iv = opt_view(identity);
    let mut names: Vec<String> = Vec::new();
    let mut i: usize = 0;
    while i < entries.len()
        invariant
            i <= entries@.len(),
            gs == groups.groups@,
            tv == opt_view(token),
            iv == opt_view(identity),
            string_views(names@) == visible_names(entries@.take(i as int), gs, tv, iv),
        decreases entries@.len() - i,
    {
        let e = &entries[i];
        assert(entries@.take(i + 1).drop_last() =~= entries@.take(i as int));
        assert(entries@.take(i + 1).last() == entries@[i as int]);
        if repo_listed(e.name.as_str(), &e.config, groups, token, identity) {
            let ghost before = names@;
            let n = e.name.clone();
            names.push(n);
            assert(string_views(names@) =~= string_views(before).push(e.name@));
        }
        i += 1;
    }
    assert(entries@.take(i as int) =~= entries@);
    let ghost v = visible_names(entries@, gs, tv, iv);
    let r = sort_strings(names);
    proof {
        lemma_visible_names(entries@, gs, tv, iv);
        broadcast use vstd::seq_lib::to_multiset_contains;
        assert forall|x: Seq<char>| #[trigger] string_views(r@).contains(x) <==> v.contains(x) by {
            assert(string_views(r@).contains(x) <==> string_views(r@).to_multiset().count(x) > 0);
            assert(v.contains(x) <==> v.to_multiset().count(x) > 0);
        }
        if names_unique(entries@) {
            lemma_same_multiset_set_nodup(v, string_views(r@));
        }
    }
    r
}

/// An OTP may be sent to the administrator or to a registered address.
pub fn may_request_otp(email: &str, admin_email: &str, emails: &StrSet) -> (r: bool)
    ensures
        r == (email@ == admin_email@ || emails@.contains(email@)),
{
    str_eq(email, admin_email) || emails.contains(email)
}

// --- repository names and paths ---

/// `".git"`.
pub open spec fn git_suffix() -> Seq<char> {
    seq!['.', 'g', 'i', 't']
}

/// `".wiki.git"`.
pub open spec fn wiki_suffix() -> Seq<char> {
    seq!['.', 'w', 'i', 'k', 'i', '.', 'g', 'i', 't']
}

/// A repository name is refused when empty or holding `..`, `/` or `\`.
pub open spec fn bad_repo_name(name: Seq<char>) -> bool {
    name.len() == 0 || has_pair(name, '.', '.') || name.contains('/') || name.contains('\\')
}

/// The directory name of a repository: the name with `.git` added unless
/// it ends with it.
pub open spec fn repo_dir_spec(name: Seq<char>) -> Seq<char> {
    if git_suffix().is_suffix_of(name) {
        name
    } else {
        name + git_suffix()
    }
}

/// A repository name that was refused.
#[derive(Debug, Clone, Copy, PartialEq, Eq, Structural)]
pub struct InvalidRepoName;

/// The directory name for the repository `name`, refusing path traversal.
pub fn sanitize_repo_name(name: &str) -> (r: Result<String, InvalidRepoName>)
    ensures
        match r {
            Ok(d) => !bad_repo_name(name@) && d@ == repo_dir_spec(name@),
            Err(_) => bad_repo_name(name@),
        },
{
    proof {
        reveal_strlit(".git");
    }
    assert(".git"@ =~= git_suffix());
    if name.is_empty() || contains_pair(name, '.', '.') || contains_char(name, '/') || contains_char(name, '\\') {
        return Err(InvalidRepoName);
    }
    if ends_with_str(name, ".git") {
        Ok(name.to_owned())
    } else {
        let mut d = name.to_owned();
        d.append(".git");
        Ok(d)
    }
}

/// The wiki repository beside `<base>.git`: `<base>.wiki.git`.
pub open spec fn wiki_dir_spec(repo_dir: Seq<char>) -> Seq<char> {
    let base = if git_suffix().is_suffix_of(repo_dir) {
        repo_dir.take(repo_dir.len() - 4)
    } else {
        repo_dir
    };
    base + wiki_suffix()
}

/// The directory name of the wiki that belongs to the repository directory `repo_dir_name`.
pub fn wiki_dir_name(repo_dir_name: &str) -> (r: String)
    ensures
        r@ == wiki_dir_spec(repo_dir_name@),
{
    proof {
        reveal_strlit(".git");
        reveal_strlit(".wiki.git");
    }
    assert(".git"@ =~= git_suffix());
    assert(".wiki.git"@ =~= wiki_suffix());
    let mut base = match strip_suffix_str(repo_dir_name, ".git") {
        Some(b) => b,
        None => repo_dir_name.to_owned(),
    };
    base.append(".wiki.git");
    base
}

/// How a request to create a repository is answered.
#[derive(Debug, PartialEq, Eq)]
pub enum CreateRepoOutcome {
    /// The requester may not create repositories (403).
    Forbidden,
    /// Too little free disk space (507).
    InsufficientStorage,
    /// The name is refused (400).
    InvalidName,
    /// The repository exists already (409).
    AlreadyExists,
    /// Create the bare repository `dir` and its wiki `wiki` (201).
    Create { dir: String, wiki: String },
}

/// The answer to a request to create the repository `name`, checked in this
/// order: permission, free space, the name, then whether its directory
/// exists (`exists` says so of the directory the name gives; it is not read
/// for a refused name).
pub fn create_repo_outcome(authorized: bool, capacity_allowed: bool, name: &str, exists: bool) -> (r: CreateRepoOutcome)
    ensures
        !authorized ==> r == CreateRepoOutcome::Forbidden,
        authorized && !capacity_allowed ==> r == CreateRepoOutcome::InsufficientStorage,
        authorized && capacity_allowed && bad_repo_name(name@) ==> r == CreateRepoOutcome::InvalidName,
        authorized && capacity_allowed && !bad_repo_name(name@) && exists ==> r == CreateRepoOutcome::AlreadyExists,
        authorized && capacity_allowed && !bad_repo_name(name@) && !exists ==> (r matches CreateRepoOutcome::Create { dir, wiki }
            && dir@ == repo_dir_spec(name@) && wiki@ == wiki_dir_spec(repo_dir_spec(name@))),
{
    if !authorized {
        return CreateRepoOutcome::Forbidden;
    }
    if !capacity_allowed {
        return CreateRepoOutcome::InsufficientStorage;
    }
    let dir = match sanitize_repo_name(name) {
        Ok(d) => d,
        Err(_) => return CreateRepoOutcome::InvalidName,
    };
    if exists {
        return CreateRepoOutcome::AlreadyExists;
    }
    let wiki = wiki_dir_name(dir.as_str());
    CreateRepoOutcome::Create { dir, wiki }
}

/// The directory whose access settings govern the repository directory
/// `repo_dir`: a wiki goes by its main repository.
pub open spec fn access_dir_spec(repo_dir: Seq<char>, root: Seq<char>) -> Seq<char> {
    if wiki_suffix().is_suffix_of(repo_dir) {
        join_path(root, repo_dir.take(repo_dir.len() - 9) + git_suffix())
    } else {
        join_path(root, repo_dir)
    }
}

/// Where to read the access settings of the repository directory `repo_dir_name`.
pub fn access_config_dir(repo_dir_name: &str, repos_root: &str) -> (r: String)
    ensures
        r@ == access_dir_spec(repo_dir_name@, repos_root@),
{
    proof {
        reveal_strlit(".git");
        reveal_strlit(".wiki.git");
    }
    assert(".git"@ =~= git_suffix());
    assert(".wiki.git"@ =~= wiki_suffix());
    match strip_suffix_str(repo_dir_name, ".wiki.git") {
        Some(mut base) => {
            base.append(".git");
            join(repos_root, base.as_str())
        },
        None => join(repos_root, repo_dir_name),
    }
}

/// A path inside a tree is refused when one of its `/`-separated segments is `..`.
pub open spec fn bad_tree_path(path: Seq<char>) -> bool {
    split_on(path, '/').contains(seq!['.', '.'])
}

/// A tree path that was refused.
#[derive(Debug, Clone, Copy, PartialEq, Eq, Structural)]
pub struct InvalidPath;

/// Refuses a tree path with a `..` segment.
pub fn sanitize_tree_path(path: &str) -> (r: Result<(), InvalidPath>)
    ensures
        r is Ok <==> !bad_tree_path(path@),
{
    proof {
        reveal_strlit("..");
    }
    assert(".."@ =~= seq!['.', '.']);
    let segments = split_str(path, '/');
    let ghost segs = string_views(segments@);
    let mut i: usize = 0;
    while i < segments.len()
        invariant
            i <= segments@.len(),
            segs == string_views(segments@),
            segs == split_on(path@, '/'),
            ".."@ == seq!['.', '.'],
            forall|j: int| 0 <= j < i ==> segs[j] != seq!['.', '.'],
        decreases segments@.len() - i,
    {
        let dots = str_eq(segments[i].as_str(), "..");
        if dots {
            assert(segs[i as int] == seq!['.', '.']);
            return Err(InvalidPath);
        }
        i += 1;
    }
    Ok(())
}

/// Why a file path taken from a URL was refused.
#[derive(Debug, Clone, Copy, PartialEq, Eq, Structural)]
pub enum FilePathError {
    /// Not under the expected prefix, or holding a `..` segment.
    InvalidPath,
    /// Empty after decoding.
    PathRequired,
}

/// A percent-encoded path inside a tree, decoded and checked.
pub open spec fn tree_file_spec(encoded: Seq<char>) -> Result<Seq<char>, FilePathError> {
    let p = url_decode(encoded);
    if bad_tree_path(p) {
        Err(FilePathError::InvalidPath)
    } else if p.len() == 0 {
        Err(FilePathError::PathRequired)
    } else {
        Ok(p)
    }
}

/// Decodes a path inside a tree (a wiki page or a file) and refuses `..`
/// segments and the empty path.
pub fn tree_file_path(encoded: &str) -> (r: Result<String, FilePathError>)
    ensures
        match r {
            Ok(p) => tree_file_spec(encoded@) == Ok::<Seq<char>, FilePathError>(p@),
            Err(e) => tree_file_spec(encoded@) == Err::<Seq<char>, FilePathError>(e),
        },
{
    let p = urlencoding_decode(encoded);
    if sanitize_tree_path(p.as_str()).is_err() {
        return Err(FilePathError::InvalidPath);
    }
    if p.as_str().is_empty() {
        return Err(FilePathError::PathRequired);
    }
    Ok(p)
}

/// `/api/repos/<name>/raw/`.
pub open spec fn raw_prefix(name: Seq<char>) -> Seq<char> {
    seq!['/', 'a', 'p', 'i', '/', 'r', 'e', 'p', 'o', 's', '/'] + name + seq!['/', 'r', 'a', 'w', '/']
}

/// The file a raw-download URL path names.
pub open spec fn raw_file_spec(uri_path: Seq<char>, name: Seq<char>) -> Result<Seq<char>, FilePathError> {
    if raw_prefix(name).is_prefix_of(uri_path) {
        tree_file_spec(uri_path.skip(raw_prefix(name).len() as int))
    } else {
        Err(FilePathError::InvalidPath)
    }
}

/// The file named by the URL path `uri_path` of a raw download from the
/// repository `name`.
pub fn raw_file_path(uri_path: &str, name: &str) -> (r: Result<String, FilePathError>)
    ensures
        match r {
            Ok(p) => raw_file_spec(uri_path@, name@) == Ok::<Seq<char>, FilePathError>(p@),
            Err(e) => raw_file_spec(uri_path@, name@) == Err::<Seq<char>, FilePathError>(e),
        },
{
    proof {
        reveal_strlit("/api/repos/");
        reveal_strlit("/raw/");
    }
    let mut prefix = String::from_str("/api/repos/");
    prefix.append(name);
    prefix.append("/raw/");
    assert(prefix@ =~= raw_prefix(name@));
    match strip_prefix_str(uri_path, prefix.as_str()) {
        Some(rest) => tree_file_path(rest.as_str()),
        None => Err(FilePathError::InvalidPath),
    }
}

/// The last `/`-separated segment of a path: the file name.
pub fn file_name_of(path: &str) -> (r: String)
    ensures
        r@ == split_on(path@, '/').last(),
{
    let segs = split_str(path, '/');
    proof {
        crate::text::lemma_split_on_nonempty(path@, '/');
    }
    let k = segs.len() - 1;
    let r = segs[k].clone();
    r
}

/// `"paths="`.
pub open spec fn paths_key() -> Seq<char> {
    seq!['p', 'a', 't', 'h', 's', '=']
}

/// The paths a ZIP request selects: the first `paths=` item of the query,
/// decoded and split at commas, or none at all; refused when one has a
/// `..` segment.
pub open spec fn zip_paths_spec(query: Seq<char>) -> Result<Seq<Seq<char>>, InvalidPath> {
    match first_with_prefix(split_on(query, '&'), paths_key()) {
        Some(v) => {
            let ps = split_on(url_decode(v), ',');
            if exists|i: int| 0 <= i < ps.len() && bad_tree_path(#[trigger] ps[i]) {
                Err(InvalidPath)
            } else {
                Ok(ps)
            }
        },
        None => Ok(Seq::empty()),
    }
}

/// The paths selected by the query string `query` of a ZIP request.
pub fn zip_paths(query: &str) -> (r: Result<Vec<String>, InvalidPath>)
    ensures
        match r {
            Ok(ps) => zip_paths_spec(query@) == Ok::<Seq<Seq<char>>, InvalidPath>(string_views(ps@)),
            Err(_) => zip_paths_spec(query@) is Err,
        },
{
    proof {
        reveal_strlit("paths=");
    }
    assert("paths="@ =~= paths_key());
    let items = split_str(query, '&');
    match find_with_prefix(&items, "paths=") {
        Some(v) => {
            let decoded = urlencoding_decode(v.as_str());
            let ps = split_str(decoded.as_str(), ',');
            let mut i: usize = 0;
            while i < ps.len()
                invariant
                    i <= ps@.len(),
                    first_with_prefix(split_on(query@, '&'), paths_key()) == Some(v@),
                    string_views(ps@) == split_on(url_decode(v@), ','),
                    forall|j: int| 0 <= j < i ==> !bad_tree_path(#[trigger] string_views(ps@)[j]),
                decreases ps@.len() - i,
            {
                if sanitize_tree_path(ps[i].as_str()).is_err() {
                    assert(bad_tree_path(string_views(ps@)[i as int]));
                    return Err(InvalidPath);
                }
                i += 1;
            }
            Ok(ps)
        },
        None => {
            let none: Vec<String> = Vec::new();
            assert(string_views(none@) =~= Seq::<Seq<char>>::empty());
            Ok(none)
        },
    }
}

/// Whether `s` is empty once white space is trimmed.
pub fn is_blank(s: &str) -> (r: bool)
    ensures
        r == (crate::text::trim(s@).len() == 0),
{
    let t = crate::text::trim_str(s);
    t.as_str().is_empty()
}

/// `s` without its leading `c` characters.
pub open spec fn drop_leading(s: Seq<char>, c: char) -> Seq<char>
    decreases s.len(),
{
    if s.len() > 0 && s[0] == c {
        drop_leading(s.drop_first(), c)
    } else {
        s
    }
}

/// Removes the leading `c` characters of `s`.
pub fn trim_start_char(s: &str, c: char) -> (r: String)
    ensures
        r@ == drop_leading(s@, c),
{
    let v = chars_of(s);
    let mut i: usize = 0;
    assert(v@.skip(0) =~= v@);
    while i < v.len() && v[i] == c
        invariant
            i <= v@.len(),
            drop_leading(v@.skip(i as int), c) == drop_leading(v@, c),
        decreases v@.len() - i,
    {
        assert(v@.skip(i as int).drop_first() =~= v@.skip(i + 1));
        i += 1;
    }
    assert(v@.subrange(i as int, v@.len() as int) =~= v@.skip(i as int));
    crate::text::string_of_range(&v, i, v.len())
}

/// `t` occurs somewhere in `s`.
pub open spec fn contains_seq(s: Seq<char>, t: Seq<char>) -> bool {
    exists|i: int| 0 <= i && i + t.len() <= s.len() && #[trigger] s.subrange(i, i + t.len()) == t
}

/// Whether `t` occurs in `s`.
pub fn contains_str(s: &str, t: &str) -> (r: bool)
    ensures
        r == contains_seq(s@, t@),
{
    let v = chars_of(s);
    let w = chars_of(t);
    if w.len() > v.len() {
        return false;
    }
    if w.len() == 0 {
        assert(s@.subrange(0int, 0int + t@.len()) =~= t@);
        return true;
    }
    let n = v.len();
    let last = n - w.len();
    let mut i: usize = 0;
    while i <= last
        invariant
            last + w@.len() == v@.len(),
            n == v@.len(),
            w@.len() > 0,
            v@ == s@,
            w@ == t@,
            forall|k: int| 0 <= k < i && k <= last ==> #[trigger] v@.subrange(k, k + w@.len()) != w@,
        decreases last + 1 - i,
    {
        let mut j: usize = 0;
        while j < w.len() && v[i + j] == w[j]
            invariant
                i <= last,
                n == v@.len(),
                last + w@.len() == v@.len(),
                j <= w@.len(),
                forall|m: int| 0 <= m < j ==> v@[i + m] == w@[m],
            decreases w@.len() - j,
        {
            j += 1;
        }
        if j == w.len() {
            assert(v@.subrange(i as int, i + w@.len()) =~= w@);
            return true;
        }
        assert(v@.subrange(i as int, i + w@.len())[j as int] != w@[j as int]);
        i += 1;
    }
    false
}

/// `"git-receive-pack"`.
pub open spec fn receive_pack() -> Seq<char> {
    seq!['g', 'i', 't', '-', 'r', 'e', 'c', 'e', 'i', 'v', 'e', '-', 'p', 'a', 'c', 'k']
}

/// `"service=git-receive-pack"`.
pub open spec fn receive_pack_service() -> Seq<char> {
    seq!['s', 'e', 'r', 'v', 'i', 'c', 'e', '='] + receive_pack()
}

/// The repository directory and the kind of access a git smart-HTTP path
/// asks for: a push when it targets `git-receive-pack`, else a download.
pub open spec fn git_route_spec(path_info: Seq<char>, query: Seq<char>) -> Option<(Seq<char>, Need)> {
    match split_once_spec(drop_leading(path_info, '/'), '/') {
        Some((repo, rest)) => if git_suffix().is_suffix_of(repo) {
            Some((repo, if rest == receive_pack() || contains_seq(query, receive_pack_service()) {
                Need::Push
            } else {
                Need::Download
            }))
        } else {
            None
        },
        None => None,
    }
}

/// Reads the repository directory and the needed access from a git
/// smart-HTTP `PATH_INFO` and query string.
pub fn parse_git_repo_and_need(path_info: &str, query_string: &str) -> (r: Option<(String, Need)>)
    ensures
        match r {
            Some((repo, need)) => git_route_spec(path_info@, query_string@) == Some((repo@, need)),
            None => git_route_spec(path_info@, query_string@) is None,
        },
{
    proof {
        reveal_strlit(".git");
        reveal_strlit("git-receive-pack");
        reveal_strlit("service=git-receive-pack");
    }
    assert(".git"@ =~= git_suffix());
    assert("git-receive-pack"@ =~= receive_pack());
    assert("service=git-receive-pack"@ =~= receive_pack_service());
    let trimmed = trim_start_char(path_info, '/');
    let (repo, rest) = match split_once_str(trimmed.as_str(), '/') {
        Some(p) => p,
        None => return None,
    };
    if !ends_with_str(repo.as_str(), ".git") {
        return None;
    }
    let push = str_eq(rest.as_str(), "git-receive-pack") || contains_str(query_string, "service=git-receive-pack");
    let need = if push {
        Need::Push
    } else {
        Need::Download
    };
    Some((repo, need))
}

/// The file names that `git ls-tree -r --name-only` printed: its lines, or
/// none when the output is not UTF-8.
pub fn tree_listing(stdout: Vec<u8>) -> (r: Vec<String>)
    ensures
        valid_utf8(stdout@) ==> string_views(r@) == crate::text::lines_spec(decode_utf8(stdout@)),
        !valid_utf8(stdout@) ==> r@.len() == 0,
{
    match string_from_utf8(stdout) {
        Some(text) => crate::text::text_lines(text.as_str()),
        None => Vec::new(),
    }
}

} // verus!
