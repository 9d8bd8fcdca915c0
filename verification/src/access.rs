//! Per-repository access rules: visibility mode, shared group tokens,
//! and per-account grants for viewing, downloading and pushing.
use vstd::prelude::*;
use rand::Rng;
use crate::keyed::StrMap;
use crate::text::{contains_char, hex_lower, join, join_path, lemma_hex_lower_len, str_eq, to_hex_lower};

verus! {

/// Who a repository is open to by its general rule.
#[derive(Debug, Clone, Copy, PartialEq, Eq, Structural)]
pub enum Mode {
    /// Nobody but the administrator.
    Private,
    /// Everyone.
    Public,
    /// Holders of the named group's token.
    Group,
}

impl Default for Mode {
    fn default() -> (m: Self)
        ensures
            m == Mode::Private,
    {
        Mode::Private
    }
}

/// What one registered account may do in one repository.
#[derive(Debug, Clone, Copy)]
pub struct AccountPermission {
    pub allow_view: bool,
    pub allow_download: bool,
    /// Whether `git push` is allowed.
    pub allow_push: bool,
}

impl Default for AccountPermission {
    fn default() -> (p: Self)
        ensures
            !p.allow_view && !p.allow_download && !p.allow_push,
    {
        AccountPermission { allow_view: false, allow_download: false, allow_push: false }
    }
}

/// The access settings of one repository.
#[derive(Debug)]
pub struct AccessConfig {
    pub mode: Mode,
    pub group: Option<String>,
    pub allow_view: bool,
    pub allow_download: bool,
    /// Whether, in public or group mode, pushing is open as well.
    pub allow_push: bool,
    /// Registered e-mail address to that account's own grant.
    pub accounts: StrMap<AccountPermission>,
}

impl Default for AccessConfig {
    fn default() -> (c: Self)
        ensures
            c.mode == Mode::Private,
            c.group is None,
            !c.allow_view && !c.allow_download && !c.allow_push,
            c.accounts@ == Map::<Seq<char>, AccountPermission>::empty(),
    {
        AccessConfig {
            mode: Mode::Private,
            group: None,
            allow_view: false,
            allow_download: false,
            allow_push: false,
            accounts: StrMap::new(),
        }
    }
}

impl AccessConfig {
    /// Gives the account `email` its own permissions `perm` in this
    /// repository, replacing any it had; nothing else changes.
    pub fn grant_account(&mut self, email: String, perm: AccountPermission)
        ensures
            final(self).accounts@ == old(self).accounts@.insert(email@, perm),
            final(self).mode == old(self).mode,
            final(self).group == old(self).group,
            final(self).allow_view == old(self).allow_view,
            final(self).allow_download == old(self).allow_download,
            final(self).allow_push == old(self).allow_push,
    {
        let _ = self.accounts.insert(email, perm);
    }
}

/// What a request is trying to do.
#[derive(Debug, Clone, Copy, PartialEq, Eq, Structural)]
pub enum Need {
    /// Listing, README, file tree.
    View,
    /// Single files and archives.
    Download,
    /// `git push`.
    Push,
}

/// One named group and its shared token.
#[derive(Debug)]
pub struct GroupInfo {
    pub token: String,
}

/// All groups, across repositories.
#[derive(Debug)]
pub struct GroupStore {
    pub groups: StrMap<GroupInfo>,
}

impl Default for GroupStore {
    fn default() -> (g: Self)
        ensures
            g.groups@ == Map::<Seq<char>, GroupInfo>::empty(),
    {
        GroupStore { groups: StrMap::new() }
    }
}

/// The flag among three that governs `need`.
pub open spec fn flag_for(need: Need, view: bool, download: bool, push: bool) -> bool {
    match need {
        Need::View => view,
        Need::Download => download,
        Need::Push => push,
    }
}

/// The view of an optional string.
pub open spec fn opt_view(s: Option<&str>) -> Option<Seq<char>> {
    match s {
        Some(x) => Some(x@),
        None => None,
    }
}

/// The account's own grant allows `need`.
pub open spec fn account_grants(config: &AccessConfig, need: Need, email: Option<Seq<char>>) -> bool {
    match email {
        Some(e) => {
            &&& config.accounts@.contains_key(e)
            &&& {
                let p = config.accounts@[e];
                flag_for(need, p.allow_view, p.allow_download, p.allow_push)
            }
        },
        None => false,
    }
}

/// The repository's general rule (mode, flags, group token) allows `need`.
pub open spec fn rule_grants(
    config: &AccessConfig,
    need: Need,
    groups: Map<Seq<char>, GroupInfo>,
    token: Option<Seq<char>>,
) -> bool {
    &&& flag_for(need, config.allow_view, config.allow_download, config.allow_push)
    &&& match config.mode {
        Mode::Private => false,
        Mode::Public => true,
        Mode::Group => match (config.group, token) {
            (Some(g), Some(t)) => groups.contains_key(g@) && groups[g@].token@ == t,
            _ => false,
        },
    }
}

/// `need` is allowed by the account's grant or by the general rule.
pub open spec fn allowed(
    config: &AccessConfig,
    need: Need,
    groups: Map<Seq<char>, GroupInfo>,
    token: Option<Seq<char>>,
    email: Option<Seq<char>>,
) -> bool {
    account_grants(config, need, email) || rule_grants(config, need, groups, token)
}

fn flag_exec(need: Need, view: bool, download: bool, push: bool) -> (r: bool)
    ensures
        r == flag_for(need, view, download, push),
{
    match need {
        Need::View => view,
        Need::Download => download,
        Need::Push => push,
    }
}

/// Whether `need` is allowed for a requester who presents `presented_token`
/// (group mode) and is logged in as `account_email`, if at all. Whether the
/// requester is the administrator is decided by the caller.
pub fn is_allowed(
    config: &AccessConfig,
    need: Need,
    groups: &GroupStore,
    presented_token: Option<&str>,
    account_email: Option<&str>,
) -> (r: bool)
    ensures
        r == allowed(config, need, groups.groups@, opt_view(presented_token), opt_view(account_email)),
{
    if let Some(email) = account_email {
        if let Some(perm) = config.accounts.get(email) {
            if flag_exec(need, perm.allow_view, perm.allow_download, perm.allow_push) {
                return true;
            }
        }
    }
    if !flag_exec(need, config.allow_view, config.allow_download, config.allow_push) {
        return false;
    }
    match config.mode {
        Mode::Private => false,
        Mode::Public => true,
        Mode::Group => {
            let group_name = match &config.group {
                Some(g) => g,
                None => return false,
            };
            let token = match presented_token {
                Some(t) => t,
                None => return false,
            };
            match groups.groups.get(group_name.as_str()) {
                Some(g) => str_eq(g.token.as_str(), token),
                None => false,
            }
        },
    }
}

/// The file, inside a repository directory, that holds its access settings.
pub open spec fn access_config_file() -> Seq<char> {
    seq!['.', 'o', 'p', 'e', 'n', '-', 'g', 'i', 't', 'e', 'a', '-', 'a', 'c', 'c', 'e', 's', 's', '.', 'j', 's', 'o', 'n']
}

/// The file, inside the repositories root, that holds all groups.
pub open spec fn groups_file() -> Seq<char> {
    seq!['.', 'o', 'p', 'e', 'n', '-', 'g', 'i', 't', 'e', 'a', '-', 'g', 'r', 'o', 'u', 'p', 's', '.', 'j', 's', 'o', 'n']
}

/// Path of the access settings of the repository at `repo_path`.
pub fn access_config_path(repo_path: &str) -> (p: String)
    ensures
        p@ == join_path(repo_path@, access_config_file()),
{
    proof {
        reveal_strlit(".open-gitea-access.json");
    }
    let p = join(repo_path, ".open-gitea-access.json");
    assert(".open-gitea-access.json"@ =~= access_config_file());
    p
}

/// Path of the group file under the repositories root `repos_root`.
pub fn groups_path(repos_root: &str) -> (p: String)
    ensures
        p@ == join_path(repos_root@, groups_file()),
{
    proof {
        reveal_strlit(".open-gitea-groups.json");
    }
    let p = join(repos_root, ".open-gitea-groups.json");
    assert(".open-gitea-groups.json"@ =~= groups_file());
    p
}

/// Sixteen bytes from the thread-local generator of `rand`
/// (`rand::thread_rng().gen::<[u8; 16]>()`); nothing is claimed of them but their number.
#[verifier::external_body]
fn random_token_bytes() -> (b: Vec<u8>)
    ensures
        b@.len() == 16,
{
    let bytes: [u8; 16] = rand::thread_rng().gen();
    bytes.to_vec()
}

/// A fresh group token: sixteen random bytes as thirty-two lower-case hex digits.
pub fn generate_token() -> (t: String)
    ensures
        exists|b: Seq<u8>| b.len() == 16 && t@ == hex_lower(b),
        t@.len() == 32,
{
    let bytes = random_token_bytes();
    let t = to_hex_lower(bytes.as_slice());
    proof {
        lemma_hex_lower_len(bytes@);
    }
    t
}

/// Why new access settings were turned down.
#[derive(Debug, Clone, Copy, PartialEq, Eq, Structural)]
pub enum AccessConfigError {
    /// Group mode without a group name.
    GroupNameRequired,
    /// Group mode naming a group that does not exist.
    UnknownGroup,
}

/// Checks that settings in group mode name an existing group.
pub fn check_group_assignment(config: &AccessConfig, groups: &GroupStore) -> (r: Result<(), AccessConfigError>)
    ensures
        config.mode != Mode::Group ==> r is Ok,
        config.mode == Mode::Group ==> match config.group {
            None => r == Err::<(), AccessConfigError>(AccessConfigError::GroupNameRequired),
            Some(g) => if groups.groups@.contains_key(g@) {
                r is Ok
            } else {
                r == Err::<(), AccessConfigError>(AccessConfigError::UnknownGroup)
            },
        },
{
    if config.mode == Mode::Group {
        match &config.group {
            None => Err(AccessConfigError::GroupNameRequired),
            Some(g) => {
                if groups.groups.contains_key(g.as_str()) {
                    Ok(())
                } else {
                    Err(AccessConfigError::UnknownGroup)
                }
            },
        }
    } else {
        Ok(())
    }
}

/// Why a group could not be created.
#[derive(Debug, Clone, Copy, PartialEq, Eq, Structural)]
pub enum CreateGroupError {
    /// Empty, or holding `/`, `\` or `.`.
    InvalidName,
    /// A group of that name exists.
    AlreadyExists,
}

/// A group name is valid when non-empty and free of `/`, `\` and `.`.
pub open spec fn valid_group_name(name: Seq<char>) -> bool {
    name.len() > 0 && !name.contains('/') && !name.contains('\\') && !name.contains('.')
}

/// Whether `name` is a valid group name.
pub fn is_valid_group_name(name: &str) -> (r: bool)
    ensures
        r == valid_group_name(name@),
{
    !name.is_empty() && !contains_char(name, '/') && !contains_char(name, '\\') && !contains_char(name, '.')
}

impl GroupStore {
    /// Adds the group `name` with the token `token`, unless the name is
    /// invalid or taken.
    pub fn insert_new_group(&mut self, name: String, token: String) -> (r: Result<(), CreateGroupError>)
        ensures
            r == (if !valid_group_name(name@) {
                Err::<(), CreateGroupError>(CreateGroupError::InvalidName)
            } else if old(self).groups@.contains_key(name@) {
                Err(CreateGroupError::AlreadyExists)
            } else {
                Ok(())
            }),
            r is Ok ==> final(self).groups@ == old(self).groups@.insert(name@, GroupInfo { token }),
            r is Err ==> final(self).groups@ == old(self).groups@,
    {
        if !is_valid_group_name(name.as_str()) {
            return Err(CreateGroupError::InvalidName);
        }
        if self.groups.contains_key(name.as_str()) {
            return Err(CreateGroupError::AlreadyExists);
        }
        let _ = self.groups.insert(name, GroupInfo { token });
        Ok(())
    }

    /// Creates the group `name` with a fresh token and returns the token.
    pub fn create_group(&mut self, name: String) -> (r: Result<String, CreateGroupError>)
        ensures
            !valid_group_name(name@) ==> r == Err::<String, CreateGroupError>(CreateGroupError::InvalidName),
            valid_group_name(name@) && old(self).groups@.contains_key(name@)
                ==> r == Err::<String, CreateGroupError>(CreateGroupError::AlreadyExists),
            valid_group_name(name@) && !old(self).groups@.contains_key(name@) ==> r is Ok,
            match r {
                Ok(t) => {
                    &&& final(self).groups@ == old(self).groups@.insert(name@, GroupInfo { token: t })
                    &&& t@.len() == 32
                    &&& exists|b: Seq<u8>| b.len() == 16 && t@ == hex_lower(b)
                },
                Err(_) => final(self).groups@ == old(self).groups@,
            },
    {
        if !is_valid_group_name(name.as_str()) {
            return Err(CreateGroupError::InvalidName);
        }
        if self.groups.contains_key(name.as_str()) {
            return Err(CreateGroupError::AlreadyExists);
        }
        let token = generate_token();
        let kept = token.clone();
        let _ = self.groups.insert(name, GroupInfo { token });
        Ok(kept)
    }

    /// The group names in ascending order.
    pub fn group_names(&self) -> (r: Vec<String>)
        ensures
            crate::text::sorted_strs(crate::keyed::string_views(r@)),
            crate::keyed::string_views(r@).to_set() == self.groups@.dom(),
            crate::keyed::string_views(r@).no_duplicates(),
    {
        let v = self.groups.keys();
        let r = crate::text::sort_strings(v);
        proof {
            crate::text::lemma_same_multiset_set_nodup(crate::keyed::string_views(v@), crate::keyed::string_views(r@));
        }
        r
    }

    /// Deletes the group `name`; true when it existed.
    pub fn delete_group(&mut self, name: &str) -> (r: bool)
        ensures
            r == old(self).groups@.contains_key(name@),
            final(self).groups@ == old(self).groups@.remove(name@),
    {
        self.groups.remove(name).is_some()
    }
}

} // verus!
