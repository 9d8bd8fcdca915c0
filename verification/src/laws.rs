//! Properties that hold across the library's operations.
use vstd::prelude::*;
use crate::access::{account_grants, allowed, flag_for, rule_grants, AccessConfig, AccountPermission, GroupInfo, Mode, Need};
use crate::cgi::{
    all_digits, cgi_status, dec_value, eq_ignore_ascii_case, first_word, is_digit, lemma_ws_pos_at, status_name,
    status_of_line, unsigned_digits,
};
use crate::issues::{find_issue, ids_ok, lemma_find_issue, with_comment, with_status, CommentModel, IssueModel, IssueStatus};
use crate::releases::{described_names, tags_read, ReleaseTag};
use crate::request::{
    drop_leading, git_route_spec, receive_pack, receive_pack_service,
    first_with_prefix, group_token_spec, hex_value, percent_decode, token_key, url_decode,
    access_dir_spec, bad_repo_name, bad_tree_path, bearer_prefix, creation_allowed, demo_identity, git_allowed,
    git_suffix, lemma_visible_names, listed_spec, names_unique, raw_file_spec, repo_dir_spec, session_token_spec,
    tree_file_spec, visible_names, wiki_dir_spec, wiki_suffix, zip_paths_spec, RepoEntry,
};
use crate::text::{decimal, hex_digit, is_ws, join_path, lemma_char_pos_at, split_on, trim, trim_end, trim_start};
use crate::web::{
    escape_char, fetch_headers_spec, flag_read, flag_text, hex4, hex_char_value, json_escape_spec, json_string_literal,
    json_unescape, minimal_label, normal_mode_text, profile_after, profile_labels_spec, profile_status_spec,
    server_default_begin, server_profile_merged, ProfileEvent, ProfileFlags,
};

verus! {

/// A private repository is closed to every requester that has no grant of
/// its own, whatever its flags say and whatever token is presented.
pub proof fn law_private_denies_without_grant(
    config: AccessConfig,
    need: Need,
    groups: Map<Seq<char>, GroupInfo>,
    token: Option<Seq<char>>,
    email: Option<Seq<char>>,
)
    requires
        config.mode == Mode::Private,
        !account_grants(&config, need, email),
    ensures
        !allowed(&config, need, groups, token, email),
{
}

/// An account's own grant for a need opens the repository for that need,
/// whatever its mode, flags and groups.
pub proof fn law_account_grant_opens(
    config: AccessConfig,
    need: Need,
    groups: Map<Seq<char>, GroupInfo>,
    token: Option<Seq<char>>,
    email: Seq<char>,
)
    requires
        config.accounts@.contains_key(email),
        flag_for(
            need,
            config.accounts@[email].allow_view,
            config.accounts@[email].allow_download,
            config.accounts@[email].allow_push,
        ),
    ensures
        allowed(&config, need, groups, token, Some(email)),
{
}

/// In a public repository a requester without a grant may do exactly what
/// the repository's flag for that need allows: view, download and push are
/// decided independently.
pub proof fn law_public_follows_flags(
    config: AccessConfig,
    need: Need,
    groups: Map<Seq<char>, GroupInfo>,
    token: Option<Seq<char>>,
    email: Option<Seq<char>>,
)
    requires
        config.mode == Mode::Public,
        !account_grants(&config, need, email),
    ensures
        allowed(&config, need, groups, token, email) == flag_for(
            need,
            config.allow_view,
            config.allow_download,
            config.allow_push,
        ),
{
}

/// In a group repository a requester without a grant is let in exactly
/// when the flag allows the need and the presented token is the token of
/// the repository's group.
pub proof fn law_group_needs_matching_token(
    config: AccessConfig,
    need: Need,
    groups: Map<Seq<char>, GroupInfo>,
    token: Option<Seq<char>>,
    email: Option<Seq<char>>,
)
    requires
        config.mode == Mode::Group,
        !account_grants(&config, need, email),
    ensures
        allowed(&config, need, groups, token, email) == (flag_for(
            need,
            config.allow_view,
            config.allow_download,
            config.allow_push,
        ) && config.group is Some && token is Some && groups.contains_key(config.group->0@)
            && groups[config.group->0@].token@ == token->0),
{
}

/// Once the group a repository names is deleted, the repository is closed
/// to every requester without a grant, as if it were private.
pub proof fn law_deleted_group_closes(
    config: AccessConfig,
    need: Need,
    groups: Map<Seq<char>, GroupInfo>,
    token: Option<Seq<char>>,
    email: Option<Seq<char>>,
)
    requires
        config.mode == Mode::Group,
        config.group is Some,
        !account_grants(&config, need, email),
    ensures
        !allowed(&config, need, groups.remove(config.group->0@), token, email),
{
}

/// The token handed out when a group is created opens every repository
/// that is in group mode for that group, for each need its flags allow.
pub proof fn law_created_group_token_opens(
    config: AccessConfig,
    need: Need,
    groups: Map<Seq<char>, GroupInfo>,
    token: String,
    email: Option<Seq<char>>,
)
    requires
        config.mode == Mode::Group,
        config.group is Some,
        flag_for(need, config.allow_view, config.allow_download, config.allow_push),
    ensures
        allowed(&config, need, groups.insert(config.group->0@, GroupInfo { token }), Some(token@), email),
{
}

/// The administrator may do anything in every repository.
pub proof fn law_admin_always_allowed(
    admin_email: Seq<char>,
    need: Need,
    config: AccessConfig,
    groups: Map<Seq<char>, GroupInfo>,
    token: Option<Seq<char>>,
)
    ensures
        git_allowed(Some(admin_email), admin_email, need, &config, groups, token),
{
}

/// The demonstration login may view and download everything and never
/// push, whatever a repository's settings.
pub proof fn law_demo_never_pushes(
    admin_email: Seq<char>,
    config: AccessConfig,
    groups: Map<Seq<char>, GroupInfo>,
    token: Option<Seq<char>>,
)
    requires
        admin_email != demo_identity(),
    ensures
        !git_allowed(Some(demo_identity()), admin_email, Need::Push, &config, groups, token),
        git_allowed(Some(demo_identity()), admin_email, Need::View, &config, groups, token),
        git_allowed(Some(demo_identity()), admin_email, Need::Download, &config, groups, token),
{
}

/// A repository directory name always ends with `.git`, and normalizing it
/// again changes nothing.
pub proof fn law_repo_dir_normal(name: Seq<char>)
    ensures
        git_suffix().is_suffix_of(repo_dir_spec(name)),
        repo_dir_spec(repo_dir_spec(name)) == repo_dir_spec(name),
{
    let d = repo_dir_spec(name);
    if !git_suffix().is_suffix_of(name) {
        assert(d.subrange(d.len() - 4, d.len() as int) =~= git_suffix());
    }
}

/// An accepted repository name that does not end in `.` gives a directory
/// name that is accepted in turn.
pub proof fn law_repo_dir_accepted(name: Seq<char>)
    requires
        !bad_repo_name(name),
        name.last() != '.',
    ensures
        !bad_repo_name(repo_dir_spec(name)),
{
    let d = repo_dir_spec(name);
    if !git_suffix().is_suffix_of(name) {
        assert(!d.contains('/')) by {
            if d.contains('/') {
                let i = choose|i: int| 0 <= i < d.len() && d[i] == '/';
                if i < name.len() {
                    assert(name[i] == '/');
                }
            }
        }
        assert(!d.contains('\\')) by {
            if d.contains('\\') {
                let i = choose|i: int| 0 <= i < d.len() && d[i] == '\\';
                if i < name.len() {
                    assert(name[i] == '\\');
                }
            }
        }
        assert(!crate::text::has_pair(d, '.', '.')) by {
            if crate::text::has_pair(d, '.', '.') {
                let i = choose|i: int| 0 <= i && i + 1 < d.len() && #[trigger] d[i] == '.' && d[i + 1] == '.';
                if i + 1 < name.len() {
                    assert(name[i] == '.' && name[i + 1] == '.');
                } else if i + 1 == name.len() {
                    assert(d[i] == name.last());
                } else {
                    assert(d[i + 1] != '.');
                }
            }
        }
    }
}

/// A repository and its wiki read their access settings from the same
/// place: the repository's own directory. (A repository whose directory
/// name itself ends in `.wiki.git` is read as a wiki and is left out.)
pub proof fn law_wiki_shares_access(repo_dir: Seq<char>, root: Seq<char>)
    requires
        git_suffix().is_suffix_of(repo_dir),
        !wiki_suffix().is_suffix_of(repo_dir),
    ensures
        access_dir_spec(wiki_dir_spec(repo_dir), root) == join_path(root, repo_dir),
        access_dir_spec(repo_dir, root) == join_path(root, repo_dir),
{
    let base = repo_dir.take(repo_dir.len() - 4);
    let w = wiki_dir_spec(repo_dir);
    assert(w == base + wiki_suffix());
    assert(w.subrange(w.len() - 9, w.len() as int) =~= wiki_suffix());
    assert(w.take(w.len() - 9) =~= base);
    assert(base + git_suffix() =~= repo_dir);
}

/// A newly created issue, which takes the next id, is what a look-up of
/// that id finds, and the ids stay below the next id and distinct.
pub proof fn law_created_issue_found(ms: Seq<IssueModel>, next_id: u64, m: IssueModel)
    requires
        ids_ok(ms, next_id),
        next_id < u64::MAX,
        m.id == next_id,
    ensures
        find_issue(ms.push(m), next_id) == Some(ms.len() as int),
        ids_ok(ms.push(m), (next_id + 1) as u64),
{
    let s = ms.push(m);
    lemma_find_issue(s, next_id);
    assert(s.drop_last() =~= ms);
    lemma_find_issue(ms, next_id);
    assert(find_issue(ms, next_id) is None) by {
        if find_issue(ms, next_id) is Some {
            let i = find_issue(ms, next_id)->0;
            assert(ms[i].id < next_id);
        }
    }
}

/// Changing an issue's status leaves every id where it was: the issue is
/// found again at the same place, with the new status, and the ids stay valid.
pub proof fn law_status_change_found(ms: Seq<IssueModel>, next_id: u64, id: u64, status: IssueStatus)
    requires
        ids_ok(ms, next_id),
        find_issue(ms, id) is Some,
    ensures
        ({
            let i = find_issue(ms, id)->0;
            let ns = ms.update(i, with_status(ms[i], status));
            &&& find_issue(ns, id) == Some(i)
            &&& ns[i].status == status
            &&& ids_ok(ns, next_id)
        }),
{
    let i = find_issue(ms, id)->0;
    let ns = ms.update(i, with_status(ms[i], status));
    lemma_find_issue(ms, id);
    lemma_find_issue(ns, id);
    assert forall|j: int| 0 <= j < ns.len() implies #[trigger] ns[j].id == ms[j].id by {}
    if find_issue(ns, id) is Some {
        let k = find_issue(ns, id)->0;
        assert(ns[k].id == ms[k].id);
    }
}

/// Commenting on an issue leaves every id where it was: the issue is found
/// again at the same place, its comments end with the new one, and the ids
/// stay valid.
pub proof fn law_comment_found(ms: Seq<IssueModel>, next_id: u64, id: u64, c: CommentModel)
    requires
        ids_ok(ms, next_id),
        find_issue(ms, id) is Some,
    ensures
        ({
            let i = find_issue(ms, id)->0;
            let ns = ms.update(i, with_comment(ms[i], c));
            &&& find_issue(ns, id) == Some(i)
            &&& ns[i].comments == ms[i].comments.push(c)
            &&& ids_ok(ns, next_id)
        }),
{
    let i = find_issue(ms, id)->0;
    let ns = ms.update(i, with_comment(ms[i], c));
    lemma_find_issue(ms, id);
    lemma_find_issue(ns, id);
    assert forall|j: int| 0 <= j < ns.len() implies #[trigger] ns[j].id == ms[j].id by {}
    if find_issue(ns, id) is Some {
        let k = find_issue(ns, id)->0;
        assert(ns[k].id == ms[k].id);
    }
}

/// Text without quotes, backslashes or control characters is its own JSON escape.
pub proof fn law_json_escape_plain(s: Seq<char>)
    requires
        forall|i: int| 0 <= i < s.len() ==> #[trigger] s[i] != '"' && s[i] != '\\' && (s[i] as int) >= 0x20,
    ensures
        json_escape_spec(s) == s,
    decreases s.len(),
{
    if s.len() > 0 {
        let p = s.drop_last();
        assert forall|i: int| 0 <= i < p.len() implies #[trigger] p[i] != '"' && p[i] != '\\' && (p[i] as int) >= 0x20 by {
            assert(p[i] == s[i]);
        }
        law_json_escape_plain(p);
        let c = s.last();
        assert(c != '\n' && c != '\r' && c != '\t');
        assert(escape_char(c) == seq![c]);
        assert(p.push(c) =~= s);
    }
}

proof fn lemma_scalar_bytes_not_percent(c: char)
    requires
        c != '%',
    ensures
        !vstd::utf8::encode_scalar(c as u32).contains(37u8),
{
    let u = c as u32;
    vstd::utf8::char_is_scalar(c);
    let e = vstd::utf8::encode_scalar(u);
    if vstd::utf8::has_width_1_encoding(u) {
        if e.contains(37u8) {
            assert(e[0] == 37u8);
            assert((u & 0x7F) as u8 == 37u8 && u <= 0x7F ==> u == 37u32) by (bit_vector);
            vstd::utf8::char_u32_cast(c, u);
            assert((37u32 as char) == '%');
        }
    } else {
        assert forall|x: u8| (0xC0u8 | x) != 37u8 && (0xE0u8 | x) != 37u8 && (0xF0u8 | x) != 37u8 && (0x80u8 | x) != 37u8 by {
            assert((0xC0u8 | x) != 37u8 && (0xE0u8 | x) != 37u8 && (0xF0u8 | x) != 37u8 && (0x80u8 | x) != 37u8) by (bit_vector);
        }
    }
}

proof fn lemma_encode_not_percent(s: Seq<char>)
    requires
        !s.contains('%'),
    ensures
        !vstd::utf8::encode_utf8(s).contains(37u8),
    decreases s.len(),
{
    if s.len() > 0 {
        let t = s.drop_first();
        assert(!t.contains('%')) by {
            if t.contains('%') {
                let i = choose|i: int| 0 <= i < t.len() && t[i] == '%';
                assert(s[i + 1] == '%');
            }
        }
        lemma_encode_not_percent(t);
        lemma_scalar_bytes_not_percent(s[0]);
        let a = vstd::utf8::encode_scalar(s[0] as u32);
        let b = vstd::utf8::encode_utf8(t);
        assert(!(a + b).contains(37u8)) by {
            if (a + b).contains(37u8) {
                let i = choose|i: int| 0 <= i < (a + b).len() && (a + b)[i] == 37u8;
                if i < a.len() {
                    assert(a[i] == 37u8);
                } else {
                    assert(b[i - a.len()] == 37u8);
                }
            }
        }
    }
}

proof fn lemma_percent_decode_plain(b: Seq<u8>)
    requires
        !b.contains(37u8),
    ensures
        crate::request::percent_decode(b) == b,
    decreases b.len(),
{
    if b.len() > 0 {
        let t = b.skip(1);
        assert(!t.contains(37u8)) by {
            if t.contains(37u8) {
                let i = choose|i: int| 0 <= i < t.len() && t[i] == 37u8;
                assert(b[i + 1] == 37u8);
            }
        }
        lemma_percent_decode_plain(t);
        assert(seq![b[0]] + t =~= b);
    }
}

/// Decoding text that holds no `%` gives the text back unchanged.
pub proof fn law_url_decode_plain(s: Seq<char>)
    requires
        !s.contains('%'),
    ensures
        crate::request::url_decode(s) == s,
{
    lemma_encode_not_percent(s);
    lemma_percent_decode_plain(vstd::utf8::encode_utf8(s));
    vstd::utf8::encode_utf8_valid_utf8(s);
    vstd::utf8::encode_utf8_decode_utf8(s);
}

/// Granting one account its own permissions decides exactly what that
/// account may do beyond the general rule, and changes nothing for any
/// other requester.
pub proof fn law_grant_governs_account(
    before: AccessConfig,
    after: AccessConfig,
    email: Seq<char>,
    perm: AccountPermission,
    need: Need,
    groups: Map<Seq<char>, GroupInfo>,
    token: Option<Seq<char>>,
    other: Option<Seq<char>>,
)
    requires
        after.accounts@ == before.accounts@.insert(email, perm),
        after.mode == before.mode,
        after.group == before.group,
        after.allow_view == before.allow_view,
        after.allow_download == before.allow_download,
        after.allow_push == before.allow_push,
        other != Some(email),
    ensures
        allowed(&after, need, groups, token, Some(email)) == (flag_for(
            need,
            perm.allow_view,
            perm.allow_download,
            perm.allow_push,
        ) || rule_grants(&before, need, groups, token)),
        allowed(&after, need, groups, token, other) == allowed(&before, need, groups, token, other),
{
}

/// The session token the front end sends as a bearer credential is the
/// token the server reads back from the request.
pub proof fn law_bearer_round_trip(has_body: bool, token: Seq<char>)
    ensures
        ({
            let hs = fetch_headers_spec(has_body, Some(token));
            &&& hs.last().0 == "Authorization"@
            &&& session_token_spec(hs.last().1) == Some(token)
        }),
{
    let v = bearer_prefix() + token;
    assert(v.subrange(0, 7) =~= bearer_prefix());
    assert(v.skip(7) =~= token);
}

/// Restoring normal mode turns every profile off: the status line reads
/// normal mode, every section shows, and wiki lists load by themselves.
pub proof fn law_restore_is_normal(f: ProfileFlags)
    ensures
        ({
            let g = profile_after(f, ProfileEvent::Restore);
            &&& profile_status_spec(profile_labels_spec(g.power_save, g.memory_saver, g.always_on), g.minimal)
                == normal_mode_text()
            &&& !g.minimal
            &&& !(!g.always_on && (g.power_save || g.memory_saver))
        }),
{
    assert(profile_labels_spec(false, false, false) =~= Seq::<Seq<char>>::empty());
}

/// The status line reads normal mode exactly when no profile is on and the
/// display is not reduced.
pub proof fn law_normal_mode_iff_nothing_on(power_save: bool, memory_saver: bool, always_on: bool, minimal: bool)
    ensures
        (profile_status_spec(profile_labels_spec(power_save, memory_saver, always_on), minimal) == normal_mode_text())
            <==> (!power_save && !memory_saver && !always_on && !minimal),
{
    let labels = profile_labels_spec(power_save, memory_saver, always_on);
    let t = profile_status_spec(labels, minimal);
    if !power_save && !memory_saver && !always_on {
        assert(labels =~= Seq::<Seq<char>>::empty());
    }
    if power_save || memory_saver || always_on || minimal {
        let all = if minimal { labels.push(minimal_label()) } else { labels };
        assert(all.len() > 0);
        assert(t[0] == '有');
        assert(normal_mode_text()[0] == '通');
    }
}

/// Pressing the reduced-display button twice gives back the switches as they were.
pub proof fn law_toggle_minimal_twice(f: ProfileFlags)
    ensures
        profile_after(profile_after(f, ProfileEvent::ToggleMinimal), ProfileEvent::ToggleMinimal) == f,
{
}

/// The server's default profile is asked for at most once in a browser,
/// and taking it over turns no switch off and is not changed by repeating it.
pub proof fn law_server_default_once(f: ProfileFlags, power_save: bool, memory_saver: bool, always_on: bool)
    ensures
        ({
            let g = server_default_begin(f).0;
            server_default_begin(g) == (g, false)
        }),
        ({
            let m = server_profile_merged(f, power_save, memory_saver, always_on);
            &&& (f.power_save ==> m.power_save)
            &&& (f.memory_saver ==> m.memory_saver)
            &&& (f.always_on ==> m.always_on)
            &&& m.minimal == f.minimal
            &&& server_profile_merged(m, power_save, memory_saver, always_on) == m
        }),
{
}

/// Registering an address lets it log in but not create repositories: that
/// takes the separate create permission.
pub proof fn law_registration_alone_cannot_create(
    email: Seq<char>,
    admin_email: Seq<char>,
    emails: Set<Seq<char>>,
    can_create_repos: Set<Seq<char>>,
)
    requires
        email != admin_email,
        !can_create_repos.contains(email),
    ensures
        !creation_allowed(Some(email), admin_email, emails.insert(email), can_create_repos),
        creation_allowed(Some(email), admin_email, emails.insert(email), can_create_repos.insert(email)),
{
}

/// CGI header lines that set no valid status leave the status at 200.
pub proof fn law_cgi_status_default(lines: Seq<Seq<char>>)
    requires
        forall|i: int| 0 <= i < lines.len() ==> status_of_line(#[trigger] lines[i]) is None,
    ensures
        cgi_status(lines) == 200,
    decreases lines.len(),
{
    if lines.len() > 0 {
        let p = lines.drop_last();
        assert forall|i: int| 0 <= i < p.len() implies status_of_line(#[trigger] p[i]) is None by {
            assert(p[i] == lines[i]);
        }
        law_cgi_status_default(p);
        assert(status_of_line(lines[lines.len() - 1]) is None);
    }
}

/// Of several `Status` header lines, the last valid one sets the status.
pub proof fn law_cgi_last_status_wins(lines: Seq<Seq<char>>, i: int, code: u16)
    requires
        0 <= i < lines.len(),
        status_of_line(lines[i]) == Some(code),
        forall|j: int| i < j < lines.len() ==> status_of_line(#[trigger] lines[j]) is None,
    ensures
        cgi_status(lines) == code,
    decreases lines.len(),
{
    if i < lines.len() - 1 {
        let p = lines.drop_last();
        assert(p[i] == lines[i]);
        assert forall|j: int| i < j < p.len() implies status_of_line(#[trigger] p[j]) is None by {
            assert(p[j] == lines[j]);
        }
        law_cgi_last_status_wins(p, i, code);
        assert(status_of_line(lines[lines.len() - 1]) is None);
    }
}

/// Every path that is accepted stays inside its tree or root, however it
/// was percent-encoded: an accepted file path, raw-download path or ZIP
/// selection has no `..` segment, and an accepted repository name gives a
/// directory name without `/` or `\`.
pub proof fn law_accepted_paths_stay_inside(encoded: Seq<char>, uri_path: Seq<char>, name: Seq<char>, query: Seq<char>)
    ensures
        tree_file_spec(encoded) matches Ok(p) ==> !bad_tree_path(p) && p.len() > 0,
        raw_file_spec(uri_path, name) matches Ok(p) ==> !bad_tree_path(p) && p.len() > 0,
        zip_paths_spec(query) matches Ok(ps) ==> forall|i: int| 0 <= i < ps.len() ==> !bad_tree_path(#[trigger] ps[i]),
        !bad_repo_name(name) ==> !repo_dir_spec(name).contains('/') && !repo_dir_spec(name).contains('\\'),
{
    if !bad_repo_name(name) {
        let d = repo_dir_spec(name);
        if !git_suffix().is_suffix_of(name) {
            assert(!d.contains('/')) by {
                if d.contains('/') {
                    let i = choose|i: int| 0 <= i < d.len() && d[i] == '/';
                    if i < name.len() {
                        assert(name[i] == '/');
                    }
                }
            }
            assert(!d.contains('\\')) by {
                if d.contains('\\') {
                    let i = choose|i: int| 0 <= i < d.len() && d[i] == '\\';
                    if i < name.len() {
                        assert(name[i] == '\\');
                    }
                }
            }
        }
    }
}

/// A switch written to the browser's storage reads back as written.
pub proof fn law_flag_round_trip(on: bool)
    ensures
        flag_read(Some(flag_text(on))) == on,
{
    reveal_strlit("1");
    reveal_strlit("0");
    assert("1"@ != "0"@) by {
        assert("1"@[0] != "0"@[0]);
    }
}

/// The repository list: a logged-in requester is shown every repository
/// directory but the wikis; an anonymous one is shown, of directories with
/// distinct names, exactly the non-wiki ones whose rules let it view.
pub proof fn law_repository_list(
    entries: Seq<RepoEntry>,
    groups: Map<Seq<char>, GroupInfo>,
    token: Option<Seq<char>>,
    identity: Seq<char>,
)
    ensures
        forall|i: int| 0 <= i < entries.len() ==> (#[trigger] visible_names(entries, groups, token, Some(identity)).contains(entries[i].name@)
            <==> !wiki_suffix().is_suffix_of(entries[i].name@)),
        names_unique(entries) ==> forall|i: int| 0 <= i < entries.len() ==> (#[trigger] visible_names(entries, groups, token, None).contains(entries[i].name@)
            <==> (!wiki_suffix().is_suffix_of(entries[i].name@) && allowed(&entries[i].config, Need::View, groups, token, None))),
{
    lemma_visible_names(entries, groups, token, Some(identity));
    lemma_visible_names(entries, groups, token, None);
    assert forall|i: int| 0 <= i < entries.len() implies (#[trigger] visible_names(entries, groups, token, Some(identity)).contains(entries[i].name@)
        <==> !wiki_suffix().is_suffix_of(entries[i].name@)) by {
        let x = entries[i].name@;
        if !wiki_suffix().is_suffix_of(x) {
            assert(listed_spec(x, &entries[i].config, groups, token, Some(identity)));
        }
    }
    if names_unique(entries) {
        assert forall|i: int| 0 <= i < entries.len() implies (#[trigger] visible_names(entries, groups, token, None).contains(entries[i].name@)
            <==> (!wiki_suffix().is_suffix_of(entries[i].name@) && allowed(&entries[i].config, Need::View, groups, token, None))) by {
            let x = entries[i].name@;
            if visible_names(entries, groups, token, None).contains(x) {
                let j = choose|j: int| 0 <= j < entries.len() && entries[j].name@ == x && listed_spec(x, &entries[j].config, groups, token, None);
                assert(j == i);
            }
            if !wiki_suffix().is_suffix_of(x) && allowed(&entries[i].config, Need::View, groups, token, None) {
                assert(listed_spec(x, &entries[i].config, groups, token, None));
            }
        }
    }
}

proof fn lemma_escape_front(s: Seq<char>)
    requires
        s.len() > 0,
    ensures
        json_escape_spec(s) == escape_char(s[0]) + json_escape_spec(s.drop_first()),
    decreases s.len(),
{
    if s.len() == 1 {
        assert(s.drop_last() =~= Seq::<char>::empty());
        assert(s.drop_first() =~= Seq::<char>::empty());
        assert(json_escape_spec(s) =~= escape_char(s[0]) + json_escape_spec(s.drop_first()));
    } else {
        let p = s.drop_last();
        lemma_escape_front(p);
        assert(p.drop_first() =~= s.drop_first().drop_last());
        assert(s.drop_first().last() == s.last());
        assert(p[0] == s[0]);
        assert(json_escape_spec(s) =~= escape_char(s[0]) + json_escape_spec(s.drop_first()));
    }
}

proof fn lemma_char_nonneg(c: char)
    ensures
        (c as int) >= 0,
{
}

proof fn lemma_hex_digit_value(k: int)
    requires
        0 <= k < 16,
    ensures
        hex_char_value(hex_digit(k)) == Some(k),
{
}

proof fn lemma_unescape_unit(c: char, r: Seq<char>)
    ensures
        json_unescape(escape_char(c) + r) == (match json_unescape(r) {
            Some(x) => Some(seq![c] + x),
            None => None,
        }),
{
    let t = escape_char(c) + r;
    if c == '"' || c == '\\' || c == '\n' || c == '\r' || c == '\t' {
        assert(t[0] == '\\');
        assert(t.skip(2) =~= r);
    } else if (c as int) < 0x20 {
        let n = c as int;
        lemma_char_nonneg(c);
        lemma_hex_digit_value(n / 16);
        lemma_hex_digit_value(n % 16);
        assert(t[0] == '\\' && t[1] == 'u');
        assert(t.skip(2)[0] == '0' && t.skip(2)[1] == '0');
        assert(hex4(t.skip(2)) == Some(n));
        assert(t.skip(6) =~= r);
        vstd::utf8::char_u32_cast(c, c as u32);
        assert((n as char) == c);
    } else {
        assert(t[0] == c);
        assert(t.skip(1) =~= r);
    }
}

proof fn lemma_unescape_escape(s: Seq<char>)
    ensures
        json_unescape(json_escape_spec(s)) == Some(s),
    decreases s.len(),
{
    if s.len() == 0 {
        assert(json_escape_spec(s) =~= Seq::<char>::empty());
    } else {
        lemma_escape_front(s);
        lemma_unescape_escape(s.drop_first());
        lemma_unescape_unit(s[0], json_escape_spec(s.drop_first()));
        assert(seq![s[0]] + s.drop_first() =~= s);
    }
}

proof fn lemma_escape_no_controls(s: Seq<char>)
    ensures
        forall|i: int| 0 <= i < json_escape_spec(s).len() ==> (#[trigger] json_escape_spec(s)[i] as int) >= 0x20,
    decreases s.len(),
{
    if s.len() > 0 {
        let p = s.drop_last();
        lemma_escape_no_controls(p);
        let a = json_escape_spec(p);
        let b = escape_char(s.last());
        let c = s.last();
        lemma_char_nonneg(c);
        if (c as int) < 0x20 && c != '\n' && c != '\r' && c != '\t' {
            lemma_hex_digit_value((c as int) / 16);
            lemma_hex_digit_value((c as int) % 16);
        }
        assert forall|i: int| 0 <= i < b.len() implies (#[trigger] b[i] as int) >= 0x20 by {
            if c == '"' || c == '\\' || c == '\n' || c == '\r' || c == '\t' {
                assert(b[0] == '\\');
                assert(('\\' as int) == 92 && ('"' as int) == 34 && ('n' as int) == 110 && ('r' as int) == 114 && ('t' as int) == 116);
                assert(b[1] == '"' || b[1] == '\\' || b[1] == 'n' || b[1] == 'r' || b[1] == 't');
                assert(i == 0 || i == 1);
                assert((b[i] as int) >= 0x20);
            } else if (c as int) < 0x20 {
                let h = hex_digit((c as int) / 16);
                let l = hex_digit((c as int) % 16);
                assert(b == seq!['\\', 'u', '0', '0', h, l]);
                assert(hex_char_value(h) is Some && hex_char_value(l) is Some);
                assert((h as int) >= 48 && (l as int) >= 48);
                assert(('\\' as int) == 92 && ('u' as int) == 117 && ('0' as int) == 48);
                assert(0 <= i < 6);
                assert((b[i] as int) >= 0x20);
            } else {
                assert(b =~= seq![c]);
                assert(i == 0);
                assert((c as int) >= 0x20);
                assert((b[i] as int) >= 0x20);
            }
        }
        assert forall|i: int| 0 <= i < json_escape_spec(s).len() implies (#[trigger] json_escape_spec(s)[i] as int) >= 0x20 by {
            if i < a.len() {
                assert(json_escape_spec(s)[i] == a[i]);
            } else {
                assert(json_escape_spec(s)[i] == b[i - a.len()]);
            }
        }
    }
}

/// An escaped string placed between quotes is a JSON string literal that
/// stands for exactly the original string: every `"` and `\` in it is
/// escaped and it holds no control character.
pub proof fn law_json_escape_round_trip(s: Seq<char>)
    ensures
        json_string_literal(seq!['"'] + json_escape_spec(s) + seq!['"']) == Some(s),
        forall|i: int| 0 <= i < json_escape_spec(s).len() ==> (#[trigger] json_escape_spec(s)[i] as int) >= 0x20,
{
    let t = seq!['"'] + json_escape_spec(s) + seq!['"'];
    assert(t.subrange(1, t.len() - 1) =~= json_escape_spec(s));
    lemma_unescape_escape(s);
    lemma_escape_no_controls(s);
}

/// The release list holds, for the tag names git listed, the tags that
/// could be read, in git's order: when each result belongs to the name at
/// its place, the names of the list are the described names in order, each
/// release is the result at its name's place, and distinct names give a
/// list without repeats.
pub proof fn law_release_list(names: Seq<Seq<char>>, results: Seq<Option<ReleaseTag>>)
    requires
        names.len() == results.len(),
        forall|i: int| 0 <= i < results.len() ==> (#[trigger] results[i] matches Some(t) ==> t.name@ == names[i]),
    ensures
        tags_read(results).map_values(|t: ReleaseTag| t.name@) == described_names(names, results),
        forall|k: int| #![trigger tags_read(results)[k]] 0 <= k < tags_read(results).len() ==> exists|i: int|
            0 <= i < results.len() && #[trigger] results[i] == Some(tags_read(results)[k]),
        names.no_duplicates() ==> described_names(names, results).no_duplicates(),
    decreases results.len(),
{
    if results.len() > 0 {
        let pn = names.drop_last();
        let pr = results.drop_last();
        assert forall|i: int| 0 <= i < pr.len() implies (#[trigger] pr[i] matches Some(t) ==> t.name@ == pn[i]) by {
            assert(pr[i] == results[i] && pn[i] == names[i]);
        }
        law_release_list(pn, pr);
        let n = results.len() - 1;
        let p = tags_read(pr);
        let t = tags_read(results);
        assert(results[n] == results.last());
        assert(t.map_values(|t: ReleaseTag| t.name@) =~= described_names(names, results));
        assert forall|k: int| #![trigger t[k]] 0 <= k < t.len() implies exists|i: int|
            0 <= i < results.len() && #[trigger] results[i] == Some(t[k]) by {
            if k < p.len() {
                let i = choose|i: int| 0 <= i < pr.len() && #[trigger] pr[i] == Some(p[k]);
                assert(results[i] == pr[i]);
            } else {
                assert(results[n] == Some(t[k]));
            }
        }
        if names.no_duplicates() {
            let dp = described_names(pn, pr);
            let d = described_names(names, results);
            assert(pn.no_duplicates()) by {
                assert forall|a: int, b: int| 0 <= a < pn.len() && 0 <= b < pn.len() && a != b implies pn[a] != pn[b] by {
                    assert(pn[a] == names[a] && pn[b] == names[b]);
                }
            }
            lemma_described_names_from(pn, pr);
            if results.last() is Some {
                assert(!dp.contains(names.last())) by {
                    if dp.contains(names.last()) {
                        let k = choose|k: int| 0 <= k < dp.len() && dp[k] == names.last();
                        assert(pn.contains(dp[k]));
                        let i = choose|i: int| 0 <= i < pn.len() && pn[i] == dp[k];
                        assert(names[i] == names[n]);
                    }
                }
                assert forall|a: int, b: int| 0 <= a < d.len() && 0 <= b < d.len() && a != b implies d[a] != d[b] by {
                    if a < dp.len() && b < dp.len() {
                        assert(d[a] == dp[a] && d[b] == dp[b]);
                    } else if a < dp.len() {
                        assert(d[a] == dp[a]);
                    } else if b < dp.len() {
                        assert(d[b] == dp[b]);
                    }
                }
            }
        }
    }
}

/// Every described name is one of `names`.
proof fn lemma_described_names_from(names: Seq<Seq<char>>, results: Seq<Option<ReleaseTag>>)
    requires
        names.len() == results.len(),
    ensures
        forall|k: int| 0 <= k < described_names(names, results).len()
            ==> names.contains(#[trigger] described_names(names, results)[k]),
    decreases results.len(),
{
    if results.len() > 0 {
        let pn = names.drop_last();
        let pr = results.drop_last();
        lemma_described_names_from(pn, pr);
        let dp = described_names(pn, pr);
        let d = described_names(names, results);
        assert forall|k: int| 0 <= k < d.len() implies names.contains(#[trigger] d[k]) by {
            if k < dp.len() {
                assert(d[k] == dp[k]);
                assert(pn.contains(dp[k]));
                let i = choose|i: int| 0 <= i < pn.len() && pn[i] == dp[k];
                assert(names[i] == pn[i]);
            } else {
                assert(names[names.len() - 1] == d[k]);
            }
        }
    }
}

/// Each need is governed by its own flag alone. In a public repository a
/// requester without a grant of its own may view exactly when viewing is
/// allowed, download exactly when downloading is allowed and push exactly
/// when pushing is allowed; and an account's own grant allows each need
/// exactly when its own flag for that need is set.
pub proof fn law_each_need_its_own_flag(
    config: AccessConfig,
    groups: Map<Seq<char>, GroupInfo>,
    token: Option<Seq<char>>,
    email: Option<Seq<char>>,
    member: Seq<char>,
)
    ensures
        config.mode == Mode::Public && (email matches Some(e) ==> !config.accounts@.contains_key(e)) ==> {
            &&& allowed(&config, Need::View, groups, token, email) == config.allow_view
            &&& allowed(&config, Need::Download, groups, token, email) == config.allow_download
            &&& allowed(&config, Need::Push, groups, token, email) == config.allow_push
        },
        config.accounts@.contains_key(member) ==> {
            let p = config.accounts@[member];
            &&& account_grants(&config, Need::View, Some(member)) == p.allow_view
            &&& account_grants(&config, Need::Download, Some(member)) == p.allow_download
            &&& account_grants(&config, Need::Push, Some(member)) == p.allow_push
        },
{
}

/// Where the group token comes from: the first `token=` item of the query,
/// percent-decoded; when the query has no such item, or there is no query,
/// the group-token header, whatever it holds.
pub proof fn law_group_token_source(q: Seq<char>, header: Option<Seq<char>>, i: int)
    ensures
        group_token_spec(None, header) == header,
        (forall|j: int| 0 <= j < split_on(q, '&').len()
            ==> !seq!['t', 'o', 'k', 'e', 'n', '='].is_prefix_of(#[trigger] split_on(q, '&')[j]))
            ==> group_token_spec(Some(q), header) == header,
        0 <= i < split_on(q, '&').len() && seq!['t', 'o', 'k', 'e', 'n', '='].is_prefix_of(split_on(q, '&')[i])
            && (forall|j: int| 0 <= j < i ==> !seq!['t', 'o', 'k', 'e', 'n', '='].is_prefix_of(#[trigger] split_on(q, '&')[j]))
            ==> group_token_spec(Some(q), header) == Some(url_decode(split_on(q, '&')[i].skip(6))),
{
    let pieces = split_on(q, '&');
    let key = seq!['t', 'o', 'k', 'e', 'n', '='];
    assert(key =~= token_key());
    lemma_first_with_prefix(pieces, key, i);
}

/// `first_with_prefix` finds the first piece that starts with the key.
proof fn lemma_first_with_prefix(pieces: Seq<Seq<char>>, key: Seq<char>, i: int)
    ensures
        (forall|j: int| 0 <= j < pieces.len() ==> !key.is_prefix_of(#[trigger] pieces[j])) ==> first_with_prefix(pieces, key) is None,
        0 <= i < pieces.len() && key.is_prefix_of(pieces[i]) && (forall|j: int| 0 <= j < i ==> !key.is_prefix_of(#[trigger] pieces[j]))
            ==> first_with_prefix(pieces, key) == Some(pieces[i].skip(key.len() as int)),
    decreases pieces.len(),
{
    if pieces.len() > 0 {
        let rest = pieces.drop_first();
        assert forall|j: int| 0 <= j < rest.len() implies rest[j] == pieces[j + 1] by {}
        if (forall|j: int| 0 <= j < pieces.len() ==> !key.is_prefix_of(#[trigger] pieces[j])) {
            assert(!key.is_prefix_of(pieces[0]));
            lemma_first_with_prefix(rest, key, i - 1);
            assert forall|j: int| 0 <= j < rest.len() implies !key.is_prefix_of(#[trigger] rest[j]) by {
                assert(!key.is_prefix_of(pieces[j + 1]));
            }
        }
        if 0 <= i < pieces.len() && key.is_prefix_of(pieces[i]) && (forall|j: int| 0 <= j < i ==> !key.is_prefix_of(#[trigger] pieces[j])) {
            if i > 0 {
                assert(!key.is_prefix_of(pieces[0]));
                lemma_first_with_prefix(rest, key, i - 1);
                assert(rest[i - 1] == pieces[i]);
                assert forall|j: int| 0 <= j < i - 1 implies !key.is_prefix_of(#[trigger] rest[j]) by {
                    assert(!key.is_prefix_of(pieces[j + 1]));
                }
            }
        }
    }
}

/// Every byte comes back from its percent escape, whether its two
/// hexadecimal digits are written in upper or in lower case.
pub proof fn law_percent_escape_decodes(b: u8, rest: Seq<u8>)
    ensures
        ({
            let hi = (b / 16) as int;
            let lo = (b % 16) as int;
            let upper_hi = (if hi < 10 { 48 + hi } else { 55 + hi }) as u8;
            let upper_lo = (if lo < 10 { 48 + lo } else { 55 + lo }) as u8;
            let lower_hi = (if hi < 10 { 48 + hi } else { 87 + hi }) as u8;
            let lower_lo = (if lo < 10 { 48 + lo } else { 87 + lo }) as u8;
            &&& percent_decode(seq![37u8, upper_hi, upper_lo] + rest) == seq![b] + percent_decode(rest)
            &&& percent_decode(seq![37u8, lower_hi, lower_lo] + rest) == seq![b] + percent_decode(rest)
        }),
{
    let hi = (b / 16) as int;
    let lo = (b % 16) as int;
    let upper_hi = (if hi < 10 { 48 + hi } else { 55 + hi }) as u8;
    let upper_lo = (if lo < 10 { 48 + lo } else { 55 + lo }) as u8;
    let lower_hi = (if hi < 10 { 48 + hi } else { 87 + hi }) as u8;
    let lower_lo = (if lo < 10 { 48 + lo } else { 87 + lo }) as u8;
    let u = seq![37u8, upper_hi, upper_lo] + rest;
    let l = seq![37u8, lower_hi, lower_lo] + rest;
    assert(hex_value(upper_hi) == Some(hi as u8));
    assert(hex_value(upper_lo) == Some(lo as u8));
    assert(hex_value(lower_hi) == Some(hi as u8));
    assert(hex_value(lower_lo) == Some(lo as u8));
    assert(hi * 16 + lo == b);
    assert(u[0] == 37u8 && u[1] == upper_hi && u[2] == upper_lo);
    assert(l[0] == 37u8 && l[1] == lower_hi && l[2] == lower_lo);
    assert(u.skip(3) =~= rest);
    assert(l.skip(3) =~= rest);
}

/// A git smart-HTTP path `/<repo>/<rest>` names the repository `<repo>`
/// (a directory name ending in `.git`), and it is a push exactly when
/// `<rest>` is `git-receive-pack` or the query holds
/// `service=git-receive-pack`; anything else, such as `git-upload-pack` or
/// `info/refs?service=git-upload-pack`, is a download.
pub proof fn law_git_route(repo: Seq<char>, rest: Seq<char>, query: Seq<char>)
    requires
        seq!['.', 'g', 'i', 't'].is_suffix_of(repo),
        !repo.contains('/'),
    ensures
        ({
            let receive = seq!['g', 'i', 't', '-', 'r', 'e', 'c', 'e', 'i', 'v', 'e', '-', 'p', 'a', 'c', 'k'];
            let service = seq!['s', 'e', 'r', 'v', 'i', 'c', 'e', '='] + receive;
            let push = rest == receive || exists|i: int|
                0 <= i && i + service.len() <= query.len() && #[trigger] query.subrange(i, i + service.len()) == service;
            git_route_spec(seq!['/'] + repo + seq!['/'] + rest, query) == Some((repo, if push {
                Need::Push
            } else {
                Need::Download
            }))
        }),
{
    let path = seq!['/'] + repo + seq!['/'] + rest;
    let x = repo + seq!['/'] + rest;
    assert(path.drop_first() =~= x);
    assert(repo[0] != '/');
    assert(x[0] == repo[0]);
    assert(drop_leading(x, '/') == x);
    assert(drop_leading(path, '/') == x);
    assert forall|j: int| 0 <= j < repo.len() implies x[j] != '/' by {
        assert(x[j] == repo[j]);
    }
    assert(x[repo.len() as int] == '/');
    lemma_char_pos_at(x, '/', repo.len() as int);
    assert(x.take(repo.len() as int) =~= repo);
    assert(x.skip(repo.len() as int + 1) =~= rest);
    assert(git_suffix() =~= seq!['.', 'g', 'i', 't']);
    assert(receive_pack_service() =~= seq!['s', 'e', 'r', 'v', 'i', 'c', 'e', '='] + receive_pack());
}

/// The decimal text of a number is non-empty, all digits, and spells it.
proof fn lemma_decimal_digits(n: nat)
    ensures
        decimal(n).len() > 0,
        all_digits(decimal(n)),
        dec_value(decimal(n)) == n,
    decreases n,
{
    if n < 10 {
        let ch = (('0' as int) + n) as char;
        assert((ch as int) == 48 + n);
        assert(decimal(n) == seq![ch]);
        assert(is_digit(ch));
        assert(decimal(n).drop_last() =~= Seq::<char>::empty());
        assert(dec_value(Seq::<char>::empty()) == 0);
        assert(decimal(n).last() == ch);
        assert(dec_value(decimal(n)) == n);
    } else {
        lemma_decimal_digits(n / 10);
        let p = decimal(n / 10);
        let d = decimal(n);
        let ch = (('0' as int) + n % 10) as char;
        assert((ch as int) == 48 + n % 10);
        assert(d == p.push(ch));
        assert(is_digit(ch));
        assert(d.drop_last() =~= p);
        assert(d.last() == ch);
        assert(dec_value(d) == dec_value(p) * 10 + n % 10);
        assert(n == (n / 10) * 10 + n % 10);
        assert forall|i: int| 0 <= i < d.len() implies is_digit(#[trigger] d[i]) by {
            if i < p.len() {
                assert(d[i] == p[i]);
            }
        }
    }
}

/// A `Status` header sets the status to the number it starts with exactly
/// when that number lies between 100 and 999, whatever reason phrase follows
/// it; any other number leaves the status alone.
pub proof fn law_status_header(c: u16, reason: Seq<char>)
    requires
        reason.len() == 0 || (is_ws(reason[0]) && !is_ws(reason.last())),
    ensures
        status_of_line(seq!['S', 't', 'a', 't', 'u', 's', ':', ' '] + decimal(c as nat) + reason)
            == (if 100 <= c && c <= 999 { Some(c) } else { None }),
{
    let d = decimal(c as nat);
    lemma_decimal_digits(c as nat);
    let name = seq!['S', 't', 'a', 't', 'u', 's'];
    let v = seq![' '] + d + reason;
    let line = seq!['S', 't', 'a', 't', 'u', 's', ':', ' '] + d + reason;
    assert forall|j: int| 0 <= j < 6 implies line[j] != ':' by {}
    assert(line[6] == ':');
    lemma_char_pos_at(line, ':', 6);
    assert(line.take(6) =~= name);
    assert(line.skip(7) =~= v);
    assert(trim_start(name) == name);
    assert(trim_end(name) == name);
    assert(name =~= status_name());
    assert(eq_ignore_ascii_case(trim(name), status_name()));
    let t = d + reason;
    assert(is_digit(d[0]));
    assert(v.drop_first() =~= t);
    assert(t[0] == d[0]);
    assert(trim_start(t) == t);
    assert(trim_start(v) == t);
    if reason.len() == 0 {
        assert(t =~= d);
        assert(is_digit(d[d.len() - 1]));
    } else {
        assert(t.last() == reason.last());
    }
    assert(trim_end(t) == t);
    assert(trim(v) == t);
    assert forall|j: int| 0 <= j < d.len() implies !is_ws(#[trigger] t[j]) by {
        assert(t[j] == d[j]);
        assert(is_digit(d[j]));
    }
    if reason.len() > 0 {
        assert(t[d.len() as int] == reason[0]);
    }
    lemma_ws_pos_at(t, d.len() as int);
    assert(t.take(d.len() as int) =~= d);
    assert(first_word(t) == Some(d));
    assert(unsigned_digits(d) == d);
}

} // verus!
