//! The entity model: repositories, groups, the membership relation between
//! them, and the derived read-only join of a repository with its groups.
//!
//! A repository's path is carried as a plain string and its last-access
//! time as seconds since the Unix epoch; reading either from the filesystem
//! is the caller's concern, so construction takes them as values.
use vstd::prelude::*;

use crate::cli::RepositoryEntry;
use crate::config::Config;

verus! {

/// The mathematical image of a [`Group`]: its strings as character
/// sequences.
pub ghost struct GroupV {
    pub name: Seq<char>,
    pub note: Seq<char>,
    pub abbrev: Option<bool>,
}

/// The mathematical image of a [`Relation`].
pub ghost struct RelV {
    pub id: Seq<char>,
    pub group: Seq<char>,
}

/// The mathematical image of a [`Repository`].
pub ghost struct RepoV {
    pub id: Seq<char>,
    pub path: Seq<char>,
    pub description: Option<Seq<char>>,
    pub last_access: Option<u64>,
}

/// A named tag that repositories can belong to, many-to-many.
#[derive(Debug, PartialEq, Eq)]
pub struct Group {
    pub name: String,
    pub note: String,
    pub abbrev: Option<bool>,
}

impl View for Group {
    type V = GroupV;

    open spec fn view(&self) -> GroupV {
        GroupV { name: self.name@, note: self.note@, abbrev: self.abbrev }
    }
}

impl DeepView for Group {
    type V = GroupV;

    open spec fn deep_view(&self) -> GroupV {
        self.view()
    }
}

impl Clone for Group {
    fn clone(&self) -> (res: Self)
        ensures
            res == *self,
    {
        Group { name: self.name.clone(), note: self.note.clone(), abbrev: self.abbrev }
    }
}

impl Group {
    pub fn new_with(name: String, note: String, abbrev: Option<bool>) -> (g: Self)
        ensures
            g == (Group { name, note, abbrev }),
    {
        Group { name, note, abbrev }
    }

    /// A group made from a name alone starts with an empty note and is
    /// not abbreviated.
    pub fn new(name: String) -> (g: Self)
        ensures
            g.name == name,
            g.note@ == Seq::<char>::empty(),
            g.abbrev == Some(false),
    {
        Self::new_with(name, String::new(), Some(false))
    }

    pub fn is_abbrev(&self) -> (r: bool)
        ensures
            r == (self.abbrev == Some(true)),
    {
        match self.abbrev {
            Some(b) => b,
            None => false,
        }
    }
}

/// One membership edge: the pair of a repository identifier and a group
/// name. Duplicate pairs are never stored.
#[derive(Debug, PartialEq, Eq)]
pub struct Relation {
    pub id: String,
    pub group: String,
}

impl View for Relation {
    type V = RelV;

    open spec fn view(&self) -> RelV {
        RelV { id: self.id@, group: self.group@ }
    }
}

impl DeepView for Relation {
    type V = RelV;

    open spec fn deep_view(&self) -> RelV {
        self.view()
    }
}

impl Clone for Relation {
    fn clone(&self) -> (res: Self)
        ensures
            res == *self,
    {
        Relation { id: self.id.clone(), group: self.group.clone() }
    }
}

impl Relation {
    pub fn new(id: String, group: String) -> (r: Self)
        ensures
            r == (Relation { id, group }),
    {
        Relation { id, group }
    }
}

/// A tracked local working copy. The identifier is the unique key; the
/// path is not part of the identity.
#[derive(Debug, PartialEq, Eq)]
pub struct Repository {
    pub id: String,
    pub path: String,
    pub description: Option<String>,
    pub last_access: Option<u64>,
}

impl View for Repository {
    type V = RepoV;

    open spec fn view(&self) -> RepoV {
        RepoV {
            id: self.id@,
            path: self.path@,
            description: self.description.deep_view(),
            last_access: self.last_access,
        }
    }
}

impl DeepView for Repository {
    type V = RepoV;

    open spec fn deep_view(&self) -> RepoV {
        self.view()
    }
}

impl Clone for Repository {
    fn clone(&self) -> (res: Self)
        ensures
            res == *self,
    {
        Repository {
            id: self.id.clone(),
            path: self.path.clone(),
            description: clone_opt_string(&self.description),
            last_access: self.last_access,
        }
    }
}

impl Repository {
    /// Builds a repository record. The last-access stamp is whatever the
    /// caller read from the filesystem, or `None` where the path could not
    /// be inspected.
    pub fn new(id: String, path: String, description: Option<String>, last_access: Option<u64>) -> (r: Self)
        ensures
            r == (Repository { id, path, description, last_access }),
    {
        Repository { id, path, description, last_access }
    }
}

/// The derived, read-only join of a repository with the groups reachable
/// through its relations; built on demand, never persisted.
#[derive(Debug, PartialEq, Eq)]
pub struct RepositoryWithGroups {
    pub repo: Repository,
    pub groups: Vec<Group>,
}

impl Clone for RepositoryWithGroups {
    fn clone(&self) -> (res: Self)
        ensures
            res.repo == self.repo,
            res.groups@ == self.groups@,
    {
        let mut groups: Vec<Group> = Vec::new();
        let mut i: usize = 0;
        while i < self.groups.len()
            invariant
                i <= self.groups.len(),
                groups@ == self.groups@.take(i as int),
            decreases self.groups.len() - i,
        {
            groups.push(self.groups[i].clone());
            proof {
                assert(groups@ =~= self.groups@.take(i + 1 as int));
            }
            i = i + 1;
        }
        proof {
            assert(groups@ =~= self.groups@);
        }
        RepositoryWithGroups { repo: self.repo.clone(), groups }
    }
}

/// Clones an optional string, keeping its value.
pub fn clone_opt_string(s: &Option<String>) -> (r: Option<String>)
    ensures
        r == *s,
{
    match s {
        Some(v) => Some(v.clone()),
        None => None,
    }
}

impl RepositoryEntry {
    pub fn is_id(&self) -> (r: bool)
        ensures
            r == (*self == RepositoryEntry::Id || *self == RepositoryEntry::All),
    {
        matches!(self, RepositoryEntry::Id) || matches!(self, RepositoryEntry::All)
    }

    pub fn is_path(&self) -> (r: bool)
        ensures
            r == (*self == RepositoryEntry::Path || *self == RepositoryEntry::All),
    {
        matches!(self, RepositoryEntry::Path) || matches!(self, RepositoryEntry::All)
    }

    pub fn is_description(&self) -> (r: bool)
        ensures
            r == (*self == RepositoryEntry::Description || *self == RepositoryEntry::All),
    {
        matches!(self, RepositoryEntry::Description) || matches!(self, RepositoryEntry::All)
    }

    pub fn is_groups(&self) -> (r: bool)
        ensures
            r == (*self == RepositoryEntry::Groups || *self == RepositoryEntry::All),
    {
        matches!(self, RepositoryEntry::Groups) || matches!(self, RepositoryEntry::All)
    }

    pub fn is_last_access(&self) -> (r: bool)
        ensures
            r == (*self == RepositoryEntry::LastAccess || *self == RepositoryEntry::All),
    {
        matches!(self, RepositoryEntry::LastAccess) || matches!(self, RepositoryEntry::All)
    }

    pub fn is_all(&self) -> (r: bool)
        ensures
            r == (*self == RepositoryEntry::All),
    {
        matches!(self, RepositoryEntry::All)
    }

    /// The cell text of one entry for one repository. The identifier wins
    /// over the path, the path over the description, and so on; a bare
    /// `Groups` entry renders as empty here, since the join is the
    /// caller's to print.
    pub fn to_string(self, r: &Repository, config: &Config) -> (out: String)
        ensures
            (self == RepositoryEntry::Id || self == RepositoryEntry::All) ==> out@ == r.id@,
            self == RepositoryEntry::Path ==> out@ == r.path@,
            self == RepositoryEntry::Description ==> out@ == (match r.description {
                Some(d) => d@,
                None => Seq::<char>::empty(),
            }),
            self == RepositoryEntry::Groups ==> out@ == Seq::<char>::empty(),
    {
        if self.is_id() {
            r.id.clone()
        } else if self.is_path() {
            r.path.clone()
        } else if self.is_description() {
            match &r.description {
                Some(d) => d.clone(),
                None => String::new(),
            }
        } else if self.is_last_access() {
            r.last_access_string(config)
        } else {
            String::new()
        }
    }
}

/// What a refresh leaves in the last-access field: the probe's answer
/// when one came back, else the stored value.
pub open spec fn refreshed_access(stored: Option<u64>, probed: Option<u64>) -> Option<u64> {
    match probed {
        Some(t) => Some(t),
        None => stored,
    }
}

impl Repository {
    /// Renders the last-access stamp; an unset stamp renders as empty.
    pub fn last_access_string(&self, config: &Config) -> (out: String)
        ensures
            self.last_access is None ==> out@ == Seq::<char>::empty(),
    {
        match self.last_access {
            Some(t) => config.to_string(t),
            None => String::new(),
        }
    }

    /// Hands the last-access stamp out, refreshing it first from the
    /// caller's probe when it is unset or stale at `now`. The refresh
    /// marks the store dirty but touches nothing else.
    pub fn last_access(&mut self, c: &Config, now: u64, probed: Option<u64>) -> (r: Option<u64>)
        ensures
            final(self).last_access == (match old(self).last_access {
                Some(t) => if now < t || now - t > crate::config::reload_duration_secs(c.envs@) {
                    refreshed_access(Some(t), probed)
                } else {
                    Some(t)
                },
                None => refreshed_access(None, probed),
            }),
            r == final(self).last_access,
            final(self).id == old(self).id,
            final(self).path == old(self).path,
            final(self).description == old(self).description,
    {
        match self.last_access {
            Some(t) => {
                if c.is_old(t, now) {
                    update_last_access(self, probed);
                }
            },
            None => {
                update_last_access(self, probed);
            },
        }
        self.last_access
    }
}

/// Overwrites the stamp with the probe's answer, when one came back.
fn update_last_access(r: &mut Repository, probed: Option<u64>)
    ensures
        final(r).last_access == refreshed_access(old(r).last_access, probed),
        final(r).id == old(r).id,
        final(r).path == old(r).path,
        final(r).description == old(r).description,
{
    match probed {
        Some(t) => {
            r.last_access = Some(t);
        },
        None => {},
    }
}

} // verus!
