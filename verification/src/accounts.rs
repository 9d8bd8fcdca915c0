//! Registered e-mail addresses, the repository-creation permission, and
//! access requests that anyone may file and the administrator decides.
use vstd::prelude::*;
use rand::Rng;
use crate::keyed::{string_views, StrSet};
use crate::request::{bad_repo_name, repo_dir_spec, sanitize_repo_name, InvalidRepoName};
use crate::text::{contains_char, hex_lower, join, join_path, lemma_hex_lower_len, sort_strings, sorted_strs, str_eq, to_hex_lower, trim, trim_str};

verus! {

/// A request to be let into a repository, or to create one.
#[derive(Debug)]
pub struct AccessRequest {
    pub id: String,
    pub email: String,
    pub repo: Option<String>,
    pub message: Option<String>,
    /// Asks for permission to create the repository named in `repo`.
    pub is_create_repo_request: bool,
}

/// Accounts and pending requests.
#[derive(Debug)]
pub struct AccountStore {
    pub emails: StrSet,
    /// Accounts that may create repositories (they must be registered too).
    pub can_create_repos: StrSet,
    pub pending_requests: Vec<AccessRequest>,
}

impl Default for AccountStore {
    fn default() -> (s: Self)
        ensures
            s.emails@ == Set::<Seq<char>>::empty(),
            s.can_create_repos@ == Set::<Seq<char>>::empty(),
            s.pending_requests@ == Seq::<AccessRequest>::empty(),
    {
        AccountStore { emails: StrSet::new(), can_create_repos: StrSet::new(), pending_requests: Vec::new() }
    }
}

/// The file, inside the repositories root, that holds the accounts.
pub open spec fn accounts_file() -> Seq<char> {
    seq!['.', 'o', 'p', 'e', 'n', '-', 'g', 'i', 't', 'e', 'a', '-', 'a', 'c', 'c', 'o', 'u', 'n', 't', 's', '.', 'j', 's', 'o', 'n']
}

/// Path of the account file under the repositories root `repos_root`.
pub fn accounts_path(repos_root: &str) -> (p: String)
    ensures
        p@ == join_path(repos_root@, accounts_file()),
{
    proof {
        reveal_strlit(".open-gitea-accounts.json");
    }
    let p = join(repos_root, ".open-gitea-accounts.json");
    assert(".open-gitea-accounts.json"@ =~= accounts_file());
    p
}

/// Twelve bytes from the thread-local generator of `rand`
/// (`rand::thread_rng().gen::<[u8; 12]>()`); nothing is claimed of them but their number.
#[verifier::external_body]
fn random_request_id_bytes() -> (b: Vec<u8>)
    ensures
        b@.len() == 12,
{
    let bytes: [u8; 12] = rand::thread_rng().gen();
    bytes.to_vec()
}

/// A fresh request id: twelve random bytes as twenty-four lower-case hex digits.
pub fn generate_request_id() -> (t: String)
    ensures
        exists|b: Seq<u8>| b.len() == 12 && t@ == hex_lower(b),
        t@.len() == 24,
{
    let bytes = random_request_id_bytes();
    let t = to_hex_lower(bytes.as_slice());
    proof {
        lemma_hex_lower_len(bytes@);
    }
    t
}

/// Whether registration is locked to the administrator's address, from the
/// setting's text: locked unless it reads `false` or `0`, and locked when unset.
pub fn registration_locked(setting: Option<&str>) -> (r: bool)
    ensures
        r == match setting {
            Some(v) => v@ != "false"@ && v@ != "0"@,
            None => true,
        },
{
    match setting {
        Some(v) => !str_eq(v, "false") && !str_eq(v, "0"),
        None => true,
    }
}

/// Where approving `request` grants its address the chosen permissions: the
/// directory of the repository it names, when it names one and is
/// approved; a repository name that is refused is an error.
pub fn approval_target(request: &AccessRequest, approve: bool) -> (r: Result<Option<String>, InvalidRepoName>)
    ensures
        match request.repo {
            None => r == Ok::<Option<String>, InvalidRepoName>(None),
            Some(n) => if !approve {
                r == Ok::<Option<String>, InvalidRepoName>(None)
            } else if bad_repo_name(n@) {
                r is Err
            } else {
                r matches Ok(Some(d)) && d@ == repo_dir_spec(n@)
            },
        },
{
    if !approve {
        return Ok(None);
    }
    match &request.repo {
        None => Ok(None),
        Some(n) => match sanitize_repo_name(n.as_str()) {
            Ok(d) => Ok(Some(d)),
            Err(e) => Err(e),
        },
    }
}

/// Why an account could not be added.
#[derive(Debug, Clone, Copy, PartialEq, Eq, Structural)]
pub enum AddAccountError {
    /// No `@` in the address.
    InvalidEmail,
    /// Registration is locked to the administrator's address.
    Restricted,
}

/// The account an address names does not exist.
#[derive(Debug, Clone, Copy, PartialEq, Eq, Structural)]
pub struct AccountNotFound;

/// Why a request could not be decided as asked.
#[derive(Debug, Clone, Copy, PartialEq, Eq, Structural)]
pub enum DecideError {
    /// No pending request has that id.
    NotFound,
    /// Approval is locked to the administrator's address; the request was
    /// withdrawn without registering anyone.
    Restricted,
}

/// What is known of one account.
#[derive(Debug)]
pub struct AccountDetail {
    pub email: String,
    pub registered: bool,
    pub can_create_repos: bool,
}

/// The index of the first request with id `id`.
pub open spec fn find_request(s: Seq<AccessRequest>, id: Seq<char>) -> Option<int>
    decreases s.len(),
{
    if s.len() == 0 {
        None
    } else {
        match find_request(s.drop_last(), id) {
            Some(i) => Some(i),
            None => if s.last().id@ == id {
                Some(s.len() - 1)
            } else {
                None
            },
        }
    }
}

/// What `find_request` returns.
pub proof fn lemma_find_request(s: Seq<AccessRequest>, id: Seq<char>)
    ensures
        match find_request(s, id) {
            Some(i) => 0 <= i < s.len() && s[i].id@ == id && forall|j: int| 0 <= j < i ==> s[j].id@ != id,
            None => forall|j: int| 0 <= j < s.len() ==> s[j].id@ != id,
        },
    decreases s.len(),
{
    if s.len() > 0 {
        let p = s.drop_last();
        lemma_find_request(p, id);
        assert forall|j: int| 0 <= j < p.len() implies p[j] == s[j] by {}
    }
}

impl AccountStore {
    /// Registers the address `email` (trimmed): it must hold `@`, and while
    /// registration is locked only the administrator's address is taken.
    pub fn add_account(&mut self, email: &str, admin_email: &str, locked: bool) -> (r: Result<(), AddAccountError>)
        ensures
            r == (if !trim(email@).contains('@') {
                Err::<(), AddAccountError>(AddAccountError::InvalidEmail)
            } else if locked && trim(email@) != admin_email@ {
                Err(AddAccountError::Restricted)
            } else {
                Ok(())
            }),
            r is Ok ==> final(self).emails@ == old(self).emails@.insert(trim(email@)),
            r is Err ==> final(self).emails@ == old(self).emails@,
            final(self).can_create_repos@ == old(self).can_create_repos@,
            final(self).pending_requests@ == old(self).pending_requests@,
    {
        let e = trim_str(email);
        if !contains_char(e.as_str(), '@') {
            return Err(AddAccountError::InvalidEmail);
        }
        if locked && !str_eq(e.as_str(), admin_email) {
            return Err(AddAccountError::Restricted);
        }
        let _ = self.emails.insert(e);
        Ok(())
    }

    /// Unregisters `email`; true when it was registered.
    pub fn remove_account(&mut self, email: &str) -> (r: bool)
        ensures
            r == old(self).emails@.contains(email@),
            final(self).emails@ == old(self).emails@.remove(email@),
            final(self).can_create_repos@ == old(self).can_create_repos@,
            final(self).pending_requests@ == old(self).pending_requests@,
    {
        self.emails.remove(email)
    }

    /// Whether `email` is registered and may create repositories.
    pub fn account_detail(&self, email: &str) -> (r: AccountDetail)
        ensures
            r.email@ == email@,
            r.registered == self.emails@.contains(email@),
            r.can_create_repos == self.can_create_repos@.contains(email@),
    {
        AccountDetail {
            email: email.to_owned(),
            registered: self.emails.contains(email),
            can_create_repos: self.can_create_repos.contains(email),
        }
    }

    /// The registered addresses in ascending order.
    pub fn sorted_emails(&self) -> (r: Vec<String>)
        ensures
            sorted_strs(string_views(r@)),
            string_views(r@).to_set() == self.emails@,
            string_views(r@).no_duplicates(),
    {
        let v = self.emails.to_vec();
        let r = sort_strings(v);
        proof {
            crate::text::lemma_same_multiset_set_nodup(string_views(v@), string_views(r@));
        }
        r
    }

    /// Grants or withdraws the permission of the registered account `email`
    /// to create repositories.
    pub fn set_create_permission(&mut self, email: &str, allow: bool) -> (r: Result<(), AccountNotFound>)
        ensures
            r is Ok <==> old(self).emails@.contains(email@),
            r is Ok ==> final(self).can_create_repos@ == (if allow {
                old(self).can_create_repos@.insert(email@)
            } else {
                old(self).can_create_repos@.remove(email@)
            }),
            r is Err ==> final(self).can_create_repos@ == old(self).can_create_repos@,
            final(self).emails@ == old(self).emails@,
            final(self).pending_requests@ == old(self).pending_requests@,
    {
        if !self.emails.contains(email) {
            return Err(AccountNotFound);
        }
        if allow {
            let _ = self.can_create_repos.insert(email.to_owned());
        } else {
            let _ = self.can_create_repos.remove(email);
        }
        Ok(())
    }

    /// Files a request with the id `id` from the address `email` (trimmed),
    /// which must hold `@`.
    pub fn push_request(&mut self, id: String, email: &str, repo: Option<String>, message: Option<String>) -> (r: Result<(), AddAccountError>)
        ensures
            r is Ok <==> trim(email@).contains('@'),
            match r {
                Ok(_) => {
                    &&& final(self).pending_requests@.drop_last() == old(self).pending_requests@
                    &&& final(self).pending_requests@.len() == old(self).pending_requests@.len() + 1
                    &&& final(self).pending_requests@.last().id == id
                    &&& final(self).pending_requests@.last().email@ == trim(email@)
                    &&& final(self).pending_requests@.last().repo == repo
                    &&& final(self).pending_requests@.last().message == message
                    &&& !final(self).pending_requests@.last().is_create_repo_request
                },
                Err(e) => e == AddAccountError::InvalidEmail && final(self).pending_requests@ == old(self).pending_requests@,
            },
            final(self).emails@ == old(self).emails@,
            final(self).can_create_repos@ == old(self).can_create_repos@,
    {
        let e = trim_str(email);
        if !contains_char(e.as_str(), '@') {
            return Err(AddAccountError::InvalidEmail);
        }
        self.pending_requests.push(AccessRequest { id, email: e, repo, message, is_create_repo_request: false });
        assert(self.pending_requests@.drop_last() =~= old(self).pending_requests@);
        Ok(())
    }

    /// Files a request under a fresh id and returns the id.
    pub fn request_access(&mut self, email: &str, repo: Option<String>, message: Option<String>) -> (r: Result<String, AddAccountError>)
        ensures
            r is Ok <==> trim(email@).contains('@'),
            match r {
                Ok(id) => {
                    &&& id@.len() == 24
                    &&& exists|b: Seq<u8>| b.len() == 12 && id@ == hex_lower(b)
                    &&& final(self).pending_requests@.len() == old(self).pending_requests@.len() + 1
                    &&& final(self).pending_requests@.drop_last() == old(self).pending_requests@
                    &&& final(self).pending_requests@.last().id@ == id@
                    &&& final(self).pending_requests@.last().email@ == trim(email@)
                    &&& final(self).pending_requests@.last().repo == repo
                    &&& final(self).pending_requests@.last().message == message
                    &&& !final(self).pending_requests@.last().is_create_repo_request
                },
                Err(e) => e == AddAccountError::InvalidEmail && final(self).pending_requests@ == old(self).pending_requests@,
            },
            final(self).emails@ == old(self).emails@,
            final(self).can_create_repos@ == old(self).can_create_repos@,
    {
        let e = trim_str(email);
        if !contains_char(e.as_str(), '@') {
            return Err(AddAccountError::InvalidEmail);
        }
        let id = generate_request_id();
        let kept = id.clone();
        let _ = self.push_request(id, email, repo, message);
        Ok(kept)
    }

    /// Takes the first pending request with id `id` off the list and, when
    /// `approve` holds, registers its address; while registration is locked
    /// only the administrator's address can be approved.
    pub fn decide_request(&mut self, id: &str, approve: bool, admin_email: &str, locked: bool) -> (r: Result<AccessRequest, DecideError>)
        ensures
            final(self).can_create_repos@ == old(self).can_create_repos@,
            match find_request(old(self).pending_requests@, id@) {
                None => r == Err::<AccessRequest, DecideError>(DecideError::NotFound)
                    && final(self).pending_requests@ == old(self).pending_requests@
                    && final(self).emails@ == old(self).emails@,
                Some(i) => {
                    let req = old(self).pending_requests@[i];
                    &&& final(self).pending_requests@ == old(self).pending_requests@.remove(i)
                    &&& if approve && locked && req.email@ != admin_email@ {
                        r == Err::<AccessRequest, DecideError>(DecideError::Restricted)
                            && final(self).emails@ == old(self).emails@
                    } else {
                        r == Ok::<AccessRequest, DecideError>(req)
                            && final(self).emails@ == (if approve {
                                old(self).emails@.insert(req.email@)
                            } else {
                                old(self).emails@
                            })
                    }
                },
            },
    {
        proof {
            lemma_find_request(self.pending_requests@, id@);
        }
        let mut pos: usize = 0;
        let n = self.pending_requests.len();
        while pos < n && !str_eq(self.pending_requests[pos].id.as_str(), id)
            invariant
                pos <= n,
                n == self.pending_requests@.len(),
                self.pending_requests@ == old(self).pending_requests@,
                forall|j: int| 0 <= j < pos ==> self.pending_requests@[j].id@ != id@,
            decreases n - pos,
        {
            pos += 1;
        }
        if pos == n {
            proof {
                let f = find_request(self.pending_requests@, id@);
                if f is Some {
                    assert(self.pending_requests@[f->0].id@ == id@);
                }
            }
            return Err(DecideError::NotFound);
        }
        proof {
            let f = find_request(self.pending_requests@, id@);
            assert(self.pending_requests@[pos as int].id@ == id@);
            if f is None {
                assert(false);
            } else {
                let k = f->0;
                assert(k >= pos);
                if k > pos {
                    assert(self.pending_requests@[pos as int].id@ != id@);
                }
            }
        }
        let request = self.pending_requests.remove(pos);
        if approve && locked && !str_eq(request.email.as_str(), admin_email) {
            return Err(DecideError::Restricted);
        }
        if approve {
            let e = request.email.clone();
            let _ = self.emails.insert(e);
        }
        Ok(request)
    }
}

} // verus!
