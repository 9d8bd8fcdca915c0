//! Issues of one repository: creation with increasing ids, status changes
//! and comments, over a store that is read from and written back to disk.
use vstd::prelude::*;
use crate::text::{join, join_path};

verus! {

/// Whether an issue is open.
#[derive(Debug, Clone, Copy, PartialEq, Eq, Structural)]
pub enum IssueStatus {
    Open,
    Closed,
}

/// One comment on an issue.
#[derive(Debug)]
pub struct Comment {
    pub author: String,
    pub body: String,
    pub created_at: String,
}

/// One issue.
#[derive(Debug)]
pub struct Issue {
    pub id: u64,
    pub title: String,
    pub body: String,
    pub status: IssueStatus,
    pub author: String,
    pub created_at: String,
    pub comments: Vec<Comment>,
}

/// The issues of one repository and the id the next one gets.
#[derive(Debug)]
pub struct IssueStore {
    pub next_id: u64,
    pub issues: Vec<Issue>,
}

/// A comment as plain values.
pub struct CommentModel {
    pub author: Seq<char>,
    pub body: Seq<char>,
    pub created_at: Seq<char>,
}

/// An issue as plain values.
pub struct IssueModel {
    pub id: u64,
    pub title: Seq<char>,
    pub body: Seq<char>,
    pub status: IssueStatus,
    pub author: Seq<char>,
    pub created_at: Seq<char>,
    pub comments: Seq<CommentModel>,
}

impl View for Comment {
    type V = CommentModel;

    open spec fn view(&self) -> CommentModel {
        CommentModel { author: self.author@, body: self.body@, created_at: self.created_at@ }
    }
}

/// The views of a sequence of comments.
pub open spec fn comment_views(s: Seq<Comment>) -> Seq<CommentModel> {
    s.map_values(|c: Comment| c@)
}

impl View for Issue {
    type V = IssueModel;

    open spec fn view(&self) -> IssueModel {
        IssueModel {
            id: self.id,
            title: self.title@,
            body: self.body@,
            status: self.status,
            author: self.author@,
            created_at: self.created_at@,
            comments: comment_views(self.comments@),
        }
    }
}

/// The views of a sequence of issues.
pub open spec fn issue_views(s: Seq<Issue>) -> Seq<IssueModel> {
    s.map_values(|i: Issue| i@)
}

/// Every issue in `ms` has an id below `next_id`, and no id repeats.
pub open spec fn ids_ok(ms: Seq<IssueModel>, next_id: u64) -> bool {
    &&& forall|i: int| 0 <= i < ms.len() ==> #[trigger] ms[i].id < next_id
    &&& forall|i: int, j: int| 0 <= i < ms.len() && 0 <= j < ms.len() && i != j ==> #[trigger] ms[i].id != #[trigger] ms[j].id
}

/// The index of the first issue with id `id`.
pub open spec fn find_issue(s: Seq<IssueModel>, id: u64) -> Option<int>
    decreases s.len(),
{
    if s.len() == 0 {
        None
    } else {
        match find_issue(s.drop_last(), id) {
            Some(i) => Some(i),
            None => if s.last().id == id {
                Some(s.len() - 1)
            } else {
                None
            },
        }
    }
}

/// What `find_issue` returns: the first index holding `id`, or none.
pub proof fn lemma_find_issue(s: Seq<IssueModel>, id: u64)
    ensures
        match find_issue(s, id) {
            Some(i) => 0 <= i < s.len() && s[i].id == id && forall|j: int| 0 <= j < i ==> s[j].id != id,
            None => forall|j: int| 0 <= j < s.len() ==> s[j].id != id,
        },
    decreases s.len(),
{
    if s.len() > 0 {
        let p = s.drop_last();
        lemma_find_issue(p, id);
        assert forall|j: int| 0 <= j < p.len() implies p[j] == s[j] by {}
    }
}

/// The issue `m` with status `status`.
pub open spec fn with_status(m: IssueModel, status: IssueStatus) -> IssueModel {
    IssueModel { status, ..m }
}

/// The issue `m` with `c` appended to its comments.
pub open spec fn with_comment(m: IssueModel, c: CommentModel) -> IssueModel {
    IssueModel { comments: m.comments.push(c), ..m }
}

impl IssueStore {
    /// The issues as plain values.
    pub open spec fn model(&self) -> Seq<IssueModel> {
        issue_views(self.issues@)
    }

    /// Every issue has an id below `next_id`, and no id repeats.
    pub open spec fn wf(&self) -> bool {
        ids_ok(self.model(), self.next_id)
    }

    /// An empty store whose first issue gets id 0.
    pub fn new() -> (s: Self)
        ensures
            s.next_id == 0,
            s.model() == Seq::<IssueModel>::empty(),
            s.wf(),
    {
        let s = IssueStore { next_id: 0, issues: Vec::new() };
        assert(s.model() =~= Seq::<IssueModel>::empty());
        s
    }

    fn find(&self, id: u64) -> (r: Option<usize>)
        ensures
            match r {
                Some(k) => find_issue(self.model(), id) == Some(k as int) && k < self.issues@.len(),
                None => find_issue(self.model(), id) is None,
            },
    {
        let mut i: usize = 0;
        while i < self.issues.len()
            invariant
                i <= self.issues@.len(),
                forall|j: int| 0 <= j < i ==> self.issues@[j].id != id,
            decreases self.issues@.len() - i,
        {
            if self.issues[i].id == id {
                proof {
                    lemma_find_issue(self.model(), id);
                    let f = find_issue(self.model(), id);
                    assert(self.model()[i as int].id == id);
                    if f is None {
                        assert(false);
                    } else {
                        let k = f->0;
                        assert(self.model()[k].id == id);
                        assert(k >= i);
                        assert(k <= i);
                    }
                }
                return Some(i);
            }
            i += 1;
        }
        proof {
            lemma_find_issue(self.model(), id);
            let f = find_issue(self.model(), id);
            if f is Some {
                let k = f->0;
                assert(self.model()[k].id == id);
                assert(self.issues@[k].id == id);
            }
        }
        None
    }

    /// All issues, in creation order.
    pub fn list(&self) -> (r: Vec<Issue>)
        ensures
            issue_views(r@) == self.model(),
    {
        let mut r: Vec<Issue> = Vec::new();
        let mut i: usize = 0;
        while i < self.issues.len()
            invariant
                i <= self.issues@.len(),
                issue_views(r@) == self.model().take(i as int),
            decreases self.issues@.len() - i,
        {
            let c = copy_issue(&self.issues[i]);
            let ghost old_r = r@;
            r.push(c);
            assert(issue_views(r@) =~= issue_views(old_r).push(c@));
            assert(self.model().take(i + 1) =~= self.model().take(i as int).push(self.model()[i as int]));
            i += 1;
        }
        assert(self.model().take(i as int) =~= self.model());
        r
    }

    /// The first issue with id `id`.
    pub fn get(&self, id: u64) -> (r: Option<Issue>)
        ensures
            match find_issue(self.model(), id) {
                Some(i) => r matches Some(x) && x@ == self.model()[i],
                None => r is None,
            },
    {
        match self.find(id) {
            Some(i) => Some(copy_issue(&self.issues[i])),
            None => None,
        }
    }

    /// Opens a new issue created at `created_at`; it takes the next id.
    pub fn create_at(&mut self, title: String, body: String, author: String, created_at: String) -> (r: Issue)
        requires
            old(self).next_id < u64::MAX,
        ensures
            r@ == (IssueModel {
                id: old(self).next_id,
                title: title@,
                body: body@,
                status: IssueStatus::Open,
                author: author@,
                created_at: created_at@,
                comments: Seq::empty(),
            }),
            final(self).next_id == old(self).next_id + 1,
            final(self).model() == old(self).model().push(r@),
            old(self).wf() ==> final(self).wf(),
    {
        proof {
            if old(self).wf() {
                crate::laws::law_created_issue_found(old(self).model(), old(self).next_id, IssueModel {
                    id: old(self).next_id,
                    title: title@,
                    body: body@,
                    status: IssueStatus::Open,
                    author: author@,
                    created_at: created_at@,
                    comments: Seq::empty(),
                });
            }
        }
        let id = self.next_id;
        self.next_id = self.next_id + 1;
        let kept = Issue {
            id,
            title: title.clone(),
            body: body.clone(),
            status: IssueStatus::Open,
            author: author.clone(),
            created_at: created_at.clone(),
            comments: Vec::new(),
        };
        let issue = Issue { id, title, body, status: IssueStatus::Open, author, created_at, comments: Vec::new() };
        let ghost old_issues = self.issues@;
        self.issues.push(kept);
        assert(comment_views(issue.comments@) =~= Seq::<CommentModel>::empty());
        assert(self.model() =~= issue_views(old_issues).push(issue@));
        issue
    }

    /// Opens a new issue stamped with the current time.
    pub fn create(&mut self, title: String, body: String, author: String) -> (r: Issue)
        requires
            old(self).next_id < u64::MAX,
        ensures
            r.id == old(self).next_id,
            r@.title == title@ && r@.body == body@ && r@.author == author@,
            r.status == IssueStatus::Open,
            r@.comments == Seq::<CommentModel>::empty(),
            final(self).next_id == old(self).next_id + 1,
            final(self).model() == old(self).model().push(r@),
            old(self).wf() ==> final(self).wf(),
    {
        let created_at = now();
        self.create_at(title, body, author, created_at)
    }

    /// Sets the status of the first issue with id `id`.
    pub fn set_status(&mut self, id: u64, status: IssueStatus) -> (r: Result<(), SetStatusError>)
        ensures
            final(self).next_id == old(self).next_id,
            match find_issue(old(self).model(), id) {
                Some(i) => r is Ok && final(self).model() == old(self).model().update(i, with_status(old(self).model()[i], status)),
                None => r == Err::<(), SetStatusError>(SetStatusError::NotFound) && final(self).model() == old(self).model(),
            },
            old(self).wf() ==> final(self).wf(),
    {
        proof {
            if old(self).wf() && find_issue(old(self).model(), id) is Some {
                crate::laws::law_status_change_found(old(self).model(), old(self).next_id, id, status);
            }
        }
        match self.find(id) {
            Some(i) => {
                let ghost old_issues = self.issues@;
                let mut issue = self.issues.remove(i);
                issue.status = status;
                let ghost new_issue = issue;
                self.issues.insert(i, issue);
                proof {
                    assert(self.issues@ =~= old_issues.update(i as int, new_issue));
                    assert(self.model() =~= issue_views(old_issues).update(i as int, with_status(issue_views(old_issues)[i as int], status)));
                }
                Ok(())
            },
            None => Err(SetStatusError::NotFound),
        }
    }

    /// Adds a comment created at `created_at` to the first issue with id `id`.
    pub fn add_comment_at(&mut self, id: u64, author: String, body: String, created_at: String) -> (r: Option<Comment>)
        ensures
            final(self).next_id == old(self).next_id,
            match find_issue(old(self).model(), id) {
                Some(i) => r matches Some(c) && c@ == (CommentModel { author: author@, body: body@, created_at: created_at@ })
                    && final(self).model() == old(self).model().update(i, with_comment(old(self).model()[i], c@)),
                None => r is None && final(self).model() == old(self).model(),
            },
            old(self).wf() ==> final(self).wf(),
    {
        proof {
            if old(self).wf() && find_issue(old(self).model(), id) is Some {
                crate::laws::law_comment_found(
                    old(self).model(),
                    old(self).next_id,
                    id,
                    CommentModel { author: author@, body: body@, created_at: created_at@ },
                );
            }
        }
        match self.find(id) {
            Some(i) => {
                let ghost old_issues = self.issues@;
                let comment = Comment { author, body, created_at };
                let kept = copy_comment(&comment);
                let mut issue = self.issues.remove(i);
                let ghost old_comments = issue.comments@;
                issue.comments.push(kept);
                let ghost new_issue = issue;
                self.issues.insert(i, issue);
                proof {
                    assert(comment_views(new_issue.comments@) =~= comment_views(old_comments).push(comment@));
                    assert(self.issues@ =~= old_issues.update(i as int, new_issue));
                    assert(self.model() =~= issue_views(old_issues).update(i as int, with_comment(issue_views(old_issues)[i as int], comment@)));
                }
                Some(comment)
            },
            None => None,
        }
    }

    /// Adds a comment stamped with the current time.
    pub fn add_comment(&mut self, id: u64, author: String, body: String) -> (r: Option<Comment>)
        ensures
            final(self).next_id == old(self).next_id,
            match find_issue(old(self).model(), id) {
                Some(i) => r matches Some(c) && c@.author == author@ && c@.body == body@
                    && final(self).model() == old(self).model().update(i, with_comment(old(self).model()[i], c@)),
                None => r is None && final(self).model() == old(self).model(),
            },
            old(self).wf() ==> final(self).wf(),
    {
        let created_at = now();
        self.add_comment_at(id, author, body, created_at)
    }
}

/// The only way a status change fails.
#[derive(Debug, Clone, Copy, PartialEq, Eq, Structural)]
pub enum SetStatusError {
    NotFound,
}

/// A copy of `c`.
pub fn copy_comment(c: &Comment) -> (r: Comment)
    ensures
        r@ == c@,
{
    Comment { author: c.author.clone(), body: c.body.clone(), created_at: c.created_at.clone() }
}

/// A copy of `i`, comments included.
pub fn copy_issue(i: &Issue) -> (r: Issue)
    ensures
        r@ == i@,
{
    let mut comments: Vec<Comment> = Vec::new();
    let mut k: usize = 0;
    while k < i.comments.len()
        invariant
            k <= i.comments@.len(),
            comment_views(comments@) == comment_views(i.comments@).take(k as int),
        decreases i.comments@.len() - k,
    {
        let c = copy_comment(&i.comments[k]);
        let ghost old_c = comments@;
        comments.push(c);
        assert(comment_views(comments@) =~= comment_views(old_c).push(c@));
        assert(comment_views(i.comments@).take(k + 1) =~= comment_views(i.comments@).take(k as int).push(comment_views(i.comments@)[k as int]));
        k += 1;
    }
    assert(comment_views(i.comments@).take(k as int) =~= comment_views(i.comments@));
    Issue {
        id: i.id,
        title: i.title.clone(),
        body: i.body.clone(),
        status: i.status,
        author: i.author.clone(),
        created_at: i.created_at.clone(),
        comments,
    }
}

/// The current time in RFC 3339 form, from `chrono::Utc::now().to_rfc3339()`;
/// it depends on the clock, so nothing is claimed of it.
#[verifier::external_body]
fn now() -> String {
    chrono::Utc::now().to_rfc3339()
}

/// The file, inside a repository directory, that holds its issues.
pub open spec fn issues_file() -> Seq<char> {
    seq!['.', 'o', 'p', 'e', 'n', '-', 'g', 'i', 't', 'e', 'a', '-', 'i', 's', 's', 'u', 'e', 's', '.', 'j', 's', 'o', 'n']
}

/// Path of the issue file of the repository at `repo_path`.
pub fn issues_path(repo_path: &str) -> (p: String)
    ensures
        p@ == join_path(repo_path@, issues_file()),
{
    proof {
        reveal_strlit(".open-gitea-issues.json");
    }
    let p = join(repo_path, ".open-gitea-issues.json");
    assert(".open-gitea-issues.json"@ =~= issues_file());
    p
}

} // verus!
