//! Releases are the repository's git tags. Reading one takes several git
//! commands in turn; the decisions between them are a small state machine
//! whose commands the caller runs.
use vstd::prelude::*;
use crate::keyed::string_views;
use crate::request::{string_from_utf8_lossy, utf8_lossy};
use crate::text::{split_on, split_str, str_eq, trim, trim_str};

verus! {

/// One tag shown as a release.
#[derive(Debug)]
pub struct ReleaseTag {
    pub name: String,
    pub commit_sha: String,
    /// The annotation of an annotated tag; empty for a lightweight tag.
    pub message: String,
    /// When the tagged commit was authored (ISO 8601), or empty.
    pub created_at: String,
}

/// What a git command printed, when it could be started at all.
#[derive(Debug)]
pub struct GitOutput {
    pub success: bool,
    pub stdout: Vec<u8>,
}

/// The text of command output, trimmed.
pub open spec fn output_text(stdout: Seq<u8>) -> Seq<char> {
    trim(utf8_lossy(stdout))
}

/// The trimmed text of command output (the branch `git symbolic-ref` names, a commit id).
pub fn output_text_exec(stdout: &Vec<u8>) -> (r: String)
    ensures
        r@ == output_text(stdout@),
{
    let text = string_from_utf8_lossy(stdout.as_slice());
    trim_str(text.as_str())
}

/// The non-empty trimmed lines among `lines`.
pub open spec fn nonblank_trimmed(lines: Seq<Seq<char>>) -> Seq<Seq<char>>
    decreases lines.len(),
{
    if lines.len() == 0 {
        Seq::empty()
    } else {
        let rest = nonblank_trimmed(lines.drop_last());
        let t = trim(lines.last());
        if t.len() == 0 {
            rest
        } else {
            rest.push(t)
        }
    }
}

/// The tag names `git tag` printed: each line trimmed, blank lines left out.
pub open spec fn tag_names_spec(stdout: Seq<u8>) -> Seq<Seq<char>> {
    nonblank_trimmed(split_on(utf8_lossy(stdout), '\n'))
}

/// The tag names listed by `git tag`, or none when it could not run or failed.
pub fn tag_names(out: Option<GitOutput>) -> (r: Vec<String>)
    ensures
        match out {
            Some(o) => if o.success {
                string_views(r@) == tag_names_spec(o.stdout@)
            } else {
                r@.len() == 0
            },
            None => r@.len() == 0,
        },
{
    let o = match out {
        Some(o) => o,
        None => return Vec::new(),
    };
    if !o.success {
        return Vec::new();
    }
    let text = string_from_utf8_lossy(o.stdout.as_slice());
    let lines = split_str(text.as_str(), '\n');
    let ghost ls = string_views(lines@);
    let mut names: Vec<String> = Vec::new();
    let mut i: usize = 0;
    while i < lines.len()
        invariant
            i <= lines@.len(),
            ls == string_views(lines@),
            string_views(names@) == nonblank_trimmed(ls.take(i as int)),
        decreases lines@.len() - i,
    {
        let t = trim_str(lines[i].as_str());
        assert(ls.take(i + 1).drop_last() =~= ls.take(i as int));
        assert(ls.take(i + 1).last() == lines@[i as int]@);
        if !t.as_str().is_empty() {
            let ghost before = names@;
            let ghost tv = t@;
            names.push(t);
            assert(string_views(names@) =~= string_views(before).push(tv));
        }
        i += 1;
    }
    assert(ls.take(i as int) =~= ls);
    names
}

/// Where reading one tag stands.
pub enum DescribeState {
    /// Waiting for the commit the tag points at (`git rev-list -n 1 <name>`).
    AwaitSha { name: String },
    /// Waiting for the type of the tag object (`git cat-file -t refs/tags/<name>`).
    AwaitType { name: String, sha: String },
    /// Waiting for the annotation (`git for-each-ref refs/tags/<name> --format=%(contents)`).
    AwaitMessage { name: String, sha: String },
    /// Waiting for the commit date (`git log -1 --format=%aI <sha>`).
    AwaitDate { name: String, sha: String, message: String },
}

/// What to do next: run a git command with these arguments (after
/// `git -C <repository>`) and feed back its output, or stop with the result.
pub enum DescribeStep {
    Run(DescribeState, Vec<String>),
    Done(Option<ReleaseTag>),
}

/// `refs/tags/<name>`.
pub open spec fn tag_ref(name: Seq<char>) -> Seq<char> {
    seq!['r', 'e', 'f', 's', '/', 't', 'a', 'g', 's', '/'] + name
}

/// The arguments of `git rev-list -n 1 <name>`.
pub open spec fn rev_list_args(name: Seq<char>) -> Seq<Seq<char>> {
    seq![seq!['r', 'e', 'v', '-', 'l', 'i', 's', 't'], seq!['-', 'n'], seq!['1'], name]
}

/// The arguments of `git cat-file -t refs/tags/<name>`.
pub open spec fn cat_file_args(name: Seq<char>) -> Seq<Seq<char>> {
    seq![seq!['c', 'a', 't', '-', 'f', 'i', 'l', 'e'], seq!['-', 't'], tag_ref(name)]
}

/// The arguments of `git for-each-ref refs/tags/<name> --format=%(contents)`.
pub open spec fn contents_args(name: Seq<char>) -> Seq<Seq<char>> {
    seq![
        seq!['f', 'o', 'r', '-', 'e', 'a', 'c', 'h', '-', 'r', 'e', 'f'],
        tag_ref(name),
        seq!['-', '-', 'f', 'o', 'r', 'm', 'a', 't', '=', '%', '(', 'c', 'o', 'n', 't', 'e', 'n', 't', 's', ')'],
    ]
}

/// The arguments of `git log -1 --format=%aI <sha>`.
pub open spec fn log_date_args(sha: Seq<char>) -> Seq<Seq<char>> {
    seq![seq!['l', 'o', 'g'], seq!['-', '1'], seq!['-', '-', 'f', 'o', 'r', 'm', 'a', 't', '=', '%', 'a', 'I'], sha]
}

/// `"tag"`.
pub open spec fn tag_type() -> Seq<char> {
    seq!['t', 'a', 'g']
}

fn strs(parts: Vec<&str>) -> (r: Vec<String>)
    ensures
        string_views(r@) == parts@.map_values(|p: &str| p@),
{
    let mut r: Vec<String> = Vec::new();
    let mut i: usize = 0;
    while i < parts.len()
        invariant
            i <= parts@.len(),
            string_views(r@) == parts@.map_values(|p: &str| p@).take(i as int),
        decreases parts@.len() - i,
    {
        let ghost before = r@;
        let s = parts[i].to_owned();
        r.push(s);
        assert(string_views(r@) =~= string_views(before).push(parts@[i as int]@));
        assert(parts@.map_values(|p: &str| p@).take(i + 1) =~= parts@.map_values(|p: &str| p@).take(i as int).push(parts@[i as int]@));
        i += 1;
    }
    assert(parts@.map_values(|p: &str| p@).take(i as int) =~= parts@.map_values(|p: &str| p@));
    r
}

fn tag_ref_exec(name: &str) -> (r: String)
    ensures
        r@ == tag_ref(name@),
{
    proof {
        reveal_strlit("refs/tags/");
    }
    let mut r = String::from_str("refs/tags/");
    r.append(name);
    assert(r@ =~= tag_ref(name@));
    r
}

/// Starts reading the tag `name`: first ask for the commit it points at.
pub fn describe_start(name: String) -> (r: DescribeStep)
    ensures
        match r {
            DescribeStep::Run(DescribeState::AwaitSha { name: n }, args) => n@ == name@ && string_views(args@) == rev_list_args(name@),
            _ => false,
        },
{
    proof {
        reveal_strlit("rev-list");
        reveal_strlit("-n");
        reveal_strlit("1");
    }
    assert("rev-list"@ =~= seq!['r', 'e', 'v', '-', 'l', 'i', 's', 't']);
    assert("-n"@ =~= seq!['-', 'n']);
    assert("1"@ =~= seq!['1']);
    let mut args = strs(vec!["rev-list", "-n", "1"]);
    let ghost before = args@;
    args.push(name.clone());
    proof {
        assert(string_views(before) =~= seq!["rev-list"@, "-n"@, "1"@]);
        assert(string_views(args@) =~= rev_list_args(name@));
    }
    DescribeStep::Run(DescribeState::AwaitSha { name }, args)
}

/// One step of reading a tag: the state and the output of the command it
/// asked for (none when the command could not be started) give the next
/// command or the result. Any command that cannot be started ends with no
/// result; a failed `rev-list` does too; a failed annotation or date
/// query leaves that field empty; only a tag object of type `tag` is read
/// for an annotation.
pub fn describe_step(state: DescribeState, out: Option<GitOutput>) -> (r: DescribeStep)
    ensures
        out is None ==> r matches DescribeStep::Done(None),
        out matches Some(o) ==> match state {
            DescribeState::AwaitSha { name } => if !o.success {
                r matches DescribeStep::Done(None)
            } else {
                r matches DescribeStep::Run(DescribeState::AwaitType { name: n, sha }, args)
                    && n@ == name@ && sha@ == output_text(o.stdout@) && string_views(args@) == cat_file_args(name@)
            },
            DescribeState::AwaitType { name, sha } => if o.success && output_text(o.stdout@) == tag_type() {
                r matches DescribeStep::Run(DescribeState::AwaitMessage { name: n, sha: s }, args)
                    && n@ == name@ && s@ == sha@ && string_views(args@) == contents_args(name@)
            } else {
                r matches DescribeStep::Run(DescribeState::AwaitDate { name: n, sha: s, message }, args)
                    && n@ == name@ && s@ == sha@ && message@ == Seq::<char>::empty() && string_views(args@) == log_date_args(sha@)
            },
            DescribeState::AwaitMessage { name, sha } =>
                r matches DescribeStep::Run(DescribeState::AwaitDate { name: n, sha: s, message }, args)
                    && n@ == name@ && s@ == sha@
                    && message@ == (if o.success { output_text(o.stdout@) } else { Seq::<char>::empty() })
                    && string_views(args@) == log_date_args(sha@),
            DescribeState::AwaitDate { name, sha, message } =>
                r matches DescribeStep::Done(Some(t))
                    && t.name@ == name@ && t.commit_sha@ == sha@ && t.message@ == message@
                    && t.created_at@ == (if o.success { output_text(o.stdout@) } else { Seq::<char>::empty() }),
        },
{
    proof {
        reveal_strlit("cat-file");
        reveal_strlit("-t");
        reveal_strlit("for-each-ref");
        reveal_strlit("--format=%(contents)");
        reveal_strlit("log");
        reveal_strlit("-1");
        reveal_strlit("--format=%aI");
        reveal_strlit("tag");
    }
    assert("cat-file"@ =~= seq!['c', 'a', 't', '-', 'f', 'i', 'l', 'e']);
    assert("-t"@ =~= seq!['-', 't']);
    assert("for-each-ref"@ =~= seq!['f', 'o', 'r', '-', 'e', 'a', 'c', 'h', '-', 'r', 'e', 'f']);
    assert("--format=%(contents)"@ =~= seq!['-', '-', 'f', 'o', 'r', 'm', 'a', 't', '=', '%', '(', 'c', 'o', 'n', 't', 'e', 'n', 't', 's', ')']);
    assert("log"@ =~= seq!['l', 'o', 'g']);
    assert("-1"@ =~= seq!['-', '1']);
    assert("--format=%aI"@ =~= seq!['-', '-', 'f', 'o', 'r', 'm', 'a', 't', '=', '%', 'a', 'I']);
    let o = match out {
        Some(o) => o,
        None => return DescribeStep::Done(None),
    };
    match state {
        DescribeState::AwaitSha { name } => {
            if !o.success {
                return DescribeStep::Done(None);
            }
            let sha = output_text_exec(&o.stdout);
            let mut args = strs(vec!["cat-file", "-t"]);
            let ghost before = args@;
            args.push(tag_ref_exec(name.as_str()));
            proof {
                assert(string_views(before) =~= seq!["cat-file"@, "-t"@]);
                assert(string_views(args@) =~= cat_file_args(name@));
            }
            DescribeStep::Run(DescribeState::AwaitType { name, sha }, args)
        },
        DescribeState::AwaitType { name, sha } => {
            let annotated = o.success && {
                let t = output_text_exec(&o.stdout);
                assert("tag"@ =~= tag_type());
                str_eq(t.as_str(), "tag")
            };
            if annotated {
                let mut args = strs(vec!["for-each-ref"]);
                let ghost before = args@;
                args.push(tag_ref_exec(name.as_str()));
                let ghost mid = args@;
                let fmt = String::from_str("--format=%(contents)");
                let ghost fv = fmt@;
                args.push(fmt);
                proof {
                    assert(string_views(before) =~= seq!["for-each-ref"@]);
                    assert(string_views(mid) =~= string_views(before).push(tag_ref(name@)));
                    assert(string_views(args@) =~= string_views(mid).push(fv));
                    assert(string_views(args@) =~= contents_args(name@));
                }
                DescribeStep::Run(DescribeState::AwaitMessage { name, sha }, args)
            } else {
                let mut args = strs(vec!["log", "-1", "--format=%aI"]);
                let ghost before = args@;
                args.push(sha.clone());
                proof {
                    assert(string_views(before) =~= seq!["log"@, "-1"@, "--format=%aI"@]);
                    assert(string_views(args@) =~= log_date_args(sha@));
                }
                DescribeStep::Run(DescribeState::AwaitDate { name, sha, message: String::new() }, args)
            }
        },
        DescribeState::AwaitMessage { name, sha } => {
            let message = if o.success {
                output_text_exec(&o.stdout)
            } else {
                String::new()
            };
            let mut args = strs(vec!["log", "-1", "--format=%aI"]);
            let ghost before = args@;
            args.push(sha.clone());
            proof {
                assert(string_views(before) =~= seq!["log"@, "-1"@, "--format=%aI"@]);
                assert(string_views(args@) =~= log_date_args(sha@));
            }
            DescribeStep::Run(DescribeState::AwaitDate { name, sha, message }, args)
        },
        DescribeState::AwaitDate { name, sha, message } => {
            let created_at = if o.success {
                output_text_exec(&o.stdout)
            } else {
                String::new()
            };
            DescribeStep::Done(Some(ReleaseTag { name, commit_sha: sha, message, created_at }))
        },
    }
}

/// The tags that were read, in the order given; those that could not be read are left out.
pub open spec fn tags_read(results: Seq<Option<ReleaseTag>>) -> Seq<ReleaseTag>
    decreases results.len(),
{
    if results.len() == 0 {
        Seq::empty()
    } else {
        let p = tags_read(results.drop_last());
        match results.last() {
            Some(t) => p.push(t),
            None => p,
        }
    }
}

proof fn lemma_tags_read_front(results: Seq<Option<ReleaseTag>>)
    requires
        results.len() > 0,
    ensures
        tags_read(results) == (match results[0] {
            Some(t) => seq![t] + tags_read(results.drop_first()),
            None => tags_read(results.drop_first()),
        }),
    decreases results.len(),
{
    if results.len() == 1 {
        assert(results.drop_last() =~= Seq::<Option<ReleaseTag>>::empty());
        assert(results.drop_first() =~= Seq::<Option<ReleaseTag>>::empty());
        assert(tags_read(results) =~= (match results[0] {
            Some(t) => seq![t] + tags_read(results.drop_first()),
            None => tags_read(results.drop_first()),
        }));
    } else {
        let p = results.drop_last();
        lemma_tags_read_front(p);
        assert(p.drop_first() =~= results.drop_first().drop_last());
        assert(results.drop_first().last() == results.last());
        assert(p[0] == results[0]);
        assert(tags_read(results) =~= (match results[0] {
            Some(t) => seq![t] + tags_read(results.drop_first()),
            None => tags_read(results.drop_first()),
        }));
    }
}

/// The release list: the tags that were read, one per listed name, in the
/// order of the names.
pub fn releases_found(results: Vec<Option<ReleaseTag>>) -> (r: Vec<ReleaseTag>)
    ensures
        r@ == tags_read(results@),
{
    let mut rest = results;
    let mut out: Vec<ReleaseTag> = Vec::new();
    let ghost orig = rest@;
    while rest.len() > 0
        invariant
            out@ + tags_read(rest@) == tags_read(orig),
        decreases rest@.len(),
    {
        let ghost before = rest@;
        proof {
            lemma_tags_read_front(before);
        }
        let first = rest.remove(0);
        assert(rest@ =~= before.drop_first());
        match first {
            Some(t) => {
                let ghost o = out@;
                out.push(t);
                assert(out@ + tags_read(rest@) =~= o + (seq![t] + tags_read(rest@)));
            },
            None => {},
        }
    }
    assert(tags_read(rest@) =~= Seq::<ReleaseTag>::empty());
    assert(out@ + tags_read(rest@) =~= out@);
    out
}

/// The names among `names` whose tag was read (`results[i]` belongs to `names[i]`), in order.
pub open spec fn described_names(names: Seq<Seq<char>>, results: Seq<Option<ReleaseTag>>) -> Seq<Seq<char>>
    decreases results.len(),
{
    if results.len() == 0 || names.len() == 0 {
        Seq::empty()
    } else {
        let p = described_names(names.drop_last(), results.drop_last());
        if results.last() is Some {
            p.push(names.last())
        } else {
            p
        }
    }
}

} // verus!
