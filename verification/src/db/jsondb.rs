//! The concrete, snapshot-backed store: three owned collections indexed by
//! key, loaded wholesale and serialized wholesale.
use vstd::prelude::*;

use crate::cli::RrhError;
use crate::db::{
    add_missing_groups, add_relations, closed, find_group_v, find_repo, group_idx, groups_of,
    has_group, has_rel, has_repo, lemma_add_missing_groups_elts, lemma_add_relations_elts,
    lemma_group_idx, lemma_has_group_iff, lemma_has_rel_iff, lemma_has_repo_iff, lemma_rel_idx,
    lemma_rels_drop_group_elts, lemma_rels_drop_id_elts, lemma_rels_rename_group_elts,
    lemma_repo_idx, rel_idx, relate_v, rels_drop_group, rels_drop_id, rels_of_group, rels_of_id,
    rels_rename_group, repo_idx, repos_of, spec_delete_group, spec_delete_relation,
    spec_delete_repository, spec_register, spec_update_group, spec_update_repository, wf, StoreV,
};
use crate::entities::{Group, Relation, Repository, RepositoryWithGroups};
use crate::utils::str_eq;

verus! {

/// The authoritative in-memory copy of the catalog for one process
/// lifetime, together with the stamp of its last modification.
#[derive(Debug, PartialEq, Eq)]
pub struct JsonDB {
    pub last_modified: u64,
    pub repositories: Vec<Repository>,
    pub groups: Vec<Group>,
    pub relations: Vec<Relation>,
}

impl View for JsonDB {
    type V = StoreV;

    open spec fn view(&self) -> StoreV {
        StoreV {
            last_modified: self.last_modified,
            repos: self.repositories.deep_view(),
            groups: self.groups.deep_view(),
            rels: self.relations.deep_view(),
        }
    }
}

impl JsonDB {
    /// An empty catalog.
    pub fn new() -> (db: Self)
        ensures
            db@.repos == Seq::<crate::entities::RepoV>::empty(),
            db@.groups == Seq::<crate::entities::GroupV>::empty(),
            db@.rels == Seq::<crate::entities::RelV>::empty(),
            db@.last_modified == 0,
    {
        let db = JsonDB {
            last_modified: 0,
            repositories: Vec::new(),
            groups: Vec::new(),
            relations: Vec::new(),
        };
        proof {
            assert(db@.repos =~= Seq::<crate::entities::RepoV>::empty());
            assert(db@.groups =~= Seq::<crate::entities::GroupV>::empty());
            assert(db@.rels =~= Seq::<crate::entities::RelV>::empty());
        }
        db
    }

    /// The first repository stored under `id`.
    pub fn find_repository(&self, id: &str) -> (r: Option<Repository>)
        ensures
            r.deep_view() == find_repo(self@.repos, id@),
    {
        let ghost rs = self@.repos;
        let n = self.repositories.len();
        let mut i: usize = 0;
        while i < n
            invariant
                n == rs.len(),
                n == self.repositories.len(),
                rs == self@.repos,
                i <= n,
                repo_idx(rs, id@, i as int) is None,
            decreases n - i,
        {
            if str_eq(self.repositories[i].id.as_str(), id) {
                proof {
                    assert(repo_idx(rs, id@, i + 1 as int) == Some(i as int));
                    crate::db::lemma_repo_idx_extend(rs, id@, i + 1 as int, n as int);
                }
                return Some(self.repositories[i].clone());
            }
            i = i + 1;
        }
        None
    }

    /// The first group stored under `name`.
    pub fn find_group(&self, name: &str) -> (r: Option<Group>)
        ensures
            r.deep_view() == find_group_v(self@.groups, name@),
    {
        let ghost gs = self@.groups;
        let n = self.groups.len();
        let mut i: usize = 0;
        while i < n
            invariant
                n == gs.len(),
                n == self.groups.len(),
                gs == self@.groups,
                i <= n,
                group_idx(gs, name@, i as int) is None,
            decreases n - i,
        {
            if str_eq(self.groups[i].name.as_str(), name) {
                proof {
                    assert(group_idx(gs, name@, i + 1 as int) == Some(i as int));
                    crate::db::lemma_group_idx_extend(gs, name@, i + 1 as int, n as int);
                }
                return Some(self.groups[i].clone());
            }
            i = i + 1;
        }
        None
    }

    /// Whether the relation pair `(repo_id, group_name)` is stored.
    pub fn has_relation(&self, repo_id: &str, group_name: &str) -> (r: bool)
        ensures
            r == has_rel(self@.rels, repo_id@, group_name@),
    {
        self.find_relation(repo_id, group_name).is_some()
    }

    /// The stored relation equal to the pair, if any.
    pub fn find_relation(&self, repo_id: &str, group_name: &str) -> (r: Option<Relation>)
        ensures
            match r {
                Some(l) => has_rel(self@.rels, repo_id@, group_name@) && l@.id == repo_id@
                    && l@.group == group_name@,
                None => !has_rel(self@.rels, repo_id@, group_name@),
            },
    {
        let ghost ls = self@.rels;
        let n = self.relations.len();
        let mut i: usize = 0;
        while i < n
            invariant
                n == ls.len(),
                n == self.relations.len(),
                ls == self@.rels,
                i <= n,
                rel_idx(ls, repo_id@, group_name@, i as int) is None,
            decreases n - i,
        {
            if str_eq(self.relations[i].id.as_str(), repo_id) && str_eq(
                self.relations[i].group.as_str(),
                group_name,
            ) {
                proof {
                    assert(rel_idx(ls, repo_id@, group_name@, i + 1 as int) == Some(i as int));
                    crate::db::lemma_rel_idx_extend(
                        ls,
                        repo_id@,
                        group_name@,
                        i + 1 as int,
                        n as int,
                    );
                }
                return Some(self.relations[i].clone());
            }
            i = i + 1;
        }
        None
    }

    /// Every stored relation whose group name is `group_name`, in order.
    pub fn find_relation_with_group(&self, group_name: &str) -> (r: Vec<Relation>)
        ensures
            r.deep_view() == rels_of_group(self@.rels, group_name@, self@.rels.len() as int),
    {
        let ghost ls = self@.rels;
        let n = self.relations.len();
        let mut out: Vec<Relation> = Vec::new();
        let mut i: usize = 0;
        while i < n
            invariant
                n == ls.len(),
                n == self.relations.len(),
                ls == self@.rels,
                i <= n,
                out.deep_view() == rels_of_group(ls, group_name@, i as int),
            decreases n - i,
        {
            if str_eq(self.relations[i].group.as_str(), group_name) {
                out.push(self.relations[i].clone());
                proof {
                    assert(out.deep_view() =~= rels_of_group(ls, group_name@, i + 1 as int));
                }
            } else {
                proof {
                    assert(out.deep_view() =~= rels_of_group(ls, group_name@, i + 1 as int));
                }
            }
            i = i + 1;
        }
        out
    }

    /// Every stored relation whose repository identifier is `repo_id`, in
    /// order.
    pub fn find_relation_with_repository(&self, repo_id: &str) -> (r: Vec<Relation>)
        ensures
            r.deep_view() == rels_of_id(self@.rels, repo_id@, self@.rels.len() as int),
    {
        let ghost ls = self@.rels;
        let n = self.relations.len();
        let mut out: Vec<Relation> = Vec::new();
        let mut i: usize = 0;
        while i < n
            invariant
                n == ls.len(),
                n == self.relations.len(),
                ls == self@.rels,
                i <= n,
                out.deep_view() == rels_of_id(ls, repo_id@, i as int),
            decreases n - i,
        {
            if str_eq(self.relations[i].id.as_str(), repo_id) {
                out.push(self.relations[i].clone());
                proof {
                    assert(out.deep_view() =~= rels_of_id(ls, repo_id@, i + 1 as int));
                }
            } else {
                proof {
                    assert(out.deep_view() =~= rels_of_id(ls, repo_id@, i + 1 as int));
                }
            }
            i = i + 1;
        }
        out
    }

    /// The groups related to repository `id`, in relation insertion order;
    /// a relation naming an unknown group contributes nothing.
    pub fn find_groups_of(&self, id: &str) -> (r: Result<Vec<Group>, RrhError>)
        ensures
            r is Ok,
            r->Ok_0.deep_view() == groups_of(self@.groups, self@.rels, id@, self@.rels.len() as int),
    {
        let ghost gs = self@.groups;
        let ghost ls = self@.rels;
        let n = self.relations.len();
        let mut out: Vec<Group> = Vec::new();
        let mut i: usize = 0;
        while i < n
            invariant
                n == ls.len(),
                n == self.relations.len(),
                ls == self@.rels,
                gs == self@.groups,
                i <= n,
                out.deep_view() == groups_of(gs, ls, id@, i as int),
            decreases n - i,
        {
            if str_eq(self.relations[i].id.as_str(), id) {
                match self.find_group(self.relations[i].group.as_str()) {
                    Some(g) => {
                        out.push(g);
                        proof {
                            assert(out.deep_view() =~= groups_of(gs, ls, id@, i + 1 as int));
                        }
                    },
                    None => {
                        proof {
                            assert(out.deep_view() =~= groups_of(gs, ls, id@, i + 1 as int));
                        }
                    },
                }
            } else {
                proof {
                    assert(out.deep_view() =~= groups_of(gs, ls, id@, i + 1 as int));
                }
            }
            i = i + 1;
        }
        Ok(out)
    }

    /// The repositories related to group `group_name`, in relation
    /// insertion order; a relation naming an unknown repository
    /// contributes nothing.
    pub fn find_repositories_of(&self, group_name: &str) -> (r: Result<Vec<Repository>, RrhError>)
        ensures
            r is Ok,
            r->Ok_0.deep_view() == repos_of(
                self@.repos,
                self@.rels,
                group_name@,
                self@.rels.len() as int,
            ),
    {
        let ghost rs = self@.repos;
        let ghost ls = self@.rels;
        let n = self.relations.len();
        let mut out: Vec<Repository> = Vec::new();
        let mut i: usize = 0;
        while i < n
            invariant
                n == ls.len(),
                n == self.relations.len(),
                ls == self@.rels,
                rs == self@.repos,
                i <= n,
                out.deep_view() == repos_of(rs, ls, group_name@, i as int),
            decreases n - i,
        {
            if str_eq(self.relations[i].group.as_str(), group_name) {
                match self.find_repository(self.relations[i].id.as_str()) {
                    Some(rep) => {
                        out.push(rep);
                        proof {
                            assert(out.deep_view() =~= repos_of(rs, ls, group_name@, i + 1 as int));
                        }
                    },
                    None => {
                        proof {
                            assert(out.deep_view() =~= repos_of(rs, ls, group_name@, i + 1 as int));
                        }
                    },
                }
            } else {
                proof {
                    assert(out.deep_view() =~= repos_of(rs, ls, group_name@, i + 1 as int));
                }
            }
            i = i + 1;
        }
        Ok(out)
    }

    /// The joined view of a repository with its groups; `None` exactly
    /// when the repository itself is absent.
    pub fn find_repository_with_groups(&self, id: &str) -> (r: Option<RepositoryWithGroups>)
        ensures
            match r {
                Some(rg) => has_repo(self@.repos, id@) && rg.repo.deep_view() == find_repo(
                    self@.repos,
                    id@,
                )->Some_0 && rg.groups.deep_view() == groups_of(
                    self@.groups,
                    self@.rels,
                    id@,
                    self@.rels.len() as int,
                ),
                None => !has_repo(self@.repos, id@),
            },
    {
        match self.find_repository(id) {
            Some(repo) => match self.find_groups_of(id) {
                Ok(groups) => Some(RepositoryWithGroups { repo, groups }),
                Err(_) => None,
            },
            None => None,
        }
    }

    /// A copy of the whole group list.
    pub fn all_groups(&self) -> (r: Result<Vec<Group>, RrhError>)
        ensures
            r is Ok,
            r->Ok_0.deep_view() == self@.groups,
    {
        let n = self.groups.len();
        let mut out: Vec<Group> = Vec::new();
        let mut i: usize = 0;
        while i < n
            invariant
                n == self.groups.len(),
                i <= n,
                out@.len() == i,
                forall|k: int|
                    0 <= k < i ==> (#[trigger] out@[k]).deep_view() == self@.groups[k],
            decreases n - i,
        {
            out.push(self.groups[i].clone());
            i = i + 1;
        }
        proof {
            assert(out.deep_view() =~= self@.groups);
        }
        Ok(out)
    }

    /// A copy of the whole repository list.
    pub fn all_repositories(&self) -> (r: Result<Vec<Repository>, RrhError>)
        ensures
            r is Ok,
            r->Ok_0.deep_view() == self@.repos,
    {
        let n = self.repositories.len();
        let mut out: Vec<Repository> = Vec::new();
        let mut i: usize = 0;
        while i < n
            invariant
                n == self.repositories.len(),
                i <= n,
                out@.len() == i,
                forall|k: int|
                    0 <= k < i ==> (#[trigger] out@[k]).deep_view() == self@.repos[k],
            decreases n - i,
        {
            out.push(self.repositories[i].clone());
            i = i + 1;
        }
        proof {
            assert(out.deep_view() =~= self@.repos);
        }
        Ok(out)
    }

    /// A copy of the whole relation list.
    pub fn all_relations(&self) -> (r: Result<Vec<Relation>, RrhError>)
        ensures
            r is Ok,
            r->Ok_0.deep_view() == self@.rels,
    {
        let n = self.relations.len();
        let mut out: Vec<Relation> = Vec::new();
        let mut i: usize = 0;
        while i < n
            invariant
                n == self.relations.len(),
                i <= n,
                out@.len() == i,
                forall|k: int|
                    0 <= k < i ==> (#[trigger] out@[k]).deep_view() == self@.rels[k],
            decreases n - i,
        {
            out.push(self.relations[i].clone());
            i = i + 1;
        }
        proof {
            assert(out.deep_view() =~= self@.rels);
        }
        Ok(out)
    }

    /// Every group name paired with the repositories of that group, in
    /// group order; a group with no members is present with an empty list.
    pub fn group_repositories(&self) -> (r: Result<Vec<(String, Vec<Repository>)>, RrhError>)
        ensures
            r is Ok,
            r->Ok_0.len() == self@.groups.len(),
            forall|i: int|
                0 <= i < self@.groups.len() ==> (#[trigger] r->Ok_0@[i]).0@ == self@.groups[i].name
                    && r->Ok_0@[i].1.deep_view() == repos_of(
                    self@.repos,
                    self@.rels,
                    self@.groups[i].name,
                    self@.rels.len() as int,
                ),
    {
        let n = self.groups.len();
        let mut out: Vec<(String, Vec<Repository>)> = Vec::new();
        let mut i: usize = 0;
        while i < n
            invariant
                n == self.groups.len(),
                i <= n,
                out@.len() == i,
                forall|j: int|
                    0 <= j < i ==> (#[trigger] out@[j]).0@ == self@.groups[j].name
                        && out@[j].1.deep_view() == repos_of(
                        self@.repos,
                        self@.rels,
                        self@.groups[j].name,
                        self@.rels.len() as int,
                    ),
            decreases n - i,
        {
            let name = self.groups[i].name.clone();
            match self.find_repositories_of(name.as_str()) {
                Ok(repos) => {
                    out.push((name, repos));
                },
                Err(e) => {
                    return Err(e);
                },
            }
            i = i + 1;
        }
        Ok(out)
    }

    /// Index of the group stored under `name`, if any.
    fn find_group_index(&self, name: &str) -> (r: Option<usize>)
        ensures
            match r {
                Some(i) => group_idx(self@.groups, name@, self@.groups.len() as int) == Some(
                    i as int,
                ),
                None => !has_group(self@.groups, name@),
            },
    {
        let ghost gs = self@.groups;
        let n = self.groups.len();
        let mut i: usize = 0;
        while i < n
            invariant
                n == gs.len(),
                n == self.groups.len(),
                gs == self@.groups,
                i <= n,
                group_idx(gs, name@, i as int) is None,
            decreases n - i,
        {
            if str_eq(self.groups[i].name.as_str(), name) {
                proof {
                    assert(group_idx(gs, name@, i + 1 as int) == Some(i as int));
                    crate::db::lemma_group_idx_extend(gs, name@, i + 1 as int, n as int);
                }
                return Some(i);
            }
            i = i + 1;
        }
        None
    }

    /// Index of the repository stored under `id`, if any.
    fn find_repo_index(&self, id: &str) -> (r: Option<usize>)
        ensures
            match r {
                Some(i) => repo_idx(self@.repos, id@, self@.repos.len() as int) == Some(i as int),
                None => !has_repo(self@.repos, id@),
            },
    {
        let ghost rs = self@.repos;
        let n = self.repositories.len();
        let mut i: usize = 0;
        while i < n
            invariant
                n == rs.len(),
                n == self.repositories.len(),
                rs == self@.repos,
                i <= n,
                repo_idx(rs, id@, i as int) is None,
            decreases n - i,
        {
            if str_eq(self.repositories[i].id.as_str(), id) {
                proof {
                    assert(repo_idx(rs, id@, i + 1 as int) == Some(i as int));
                    crate::db::lemma_repo_idx_extend(rs, id@, i + 1 as int, n as int);
                }
                return Some(i);
            }
            i = i + 1;
        }
        None
    }

    /// Index of the relation equal to the pair, if any.
    fn find_relation_index(&self, id: &str, group_name: &str) -> (r: Option<usize>)
        ensures
            match r {
                Some(i) => rel_idx(self@.rels, id@, group_name@, self@.rels.len() as int) == Some(
                    i as int,
                ),
                None => !has_rel(self@.rels, id@, group_name@),
            },
    {
        let ghost ls = self@.rels;
        let n = self.relations.len();
        let mut i: usize = 0;
        while i < n
            invariant
                n == ls.len(),
                n == self.relations.len(),
                ls == self@.rels,
                i <= n,
                rel_idx(ls, id@, group_name@, i as int) is None,
            decreases n - i,
        {
            if str_eq(self.relations[i].id.as_str(), id) && str_eq(
                self.relations[i].group.as_str(),
                group_name,
            ) {
                proof {
                    assert(rel_idx(ls, id@, group_name@, i + 1 as int) == Some(i as int));
                    crate::db::lemma_rel_idx_extend(ls, id@, group_name@, i + 1 as int, n as int);
                }
                return Some(i);
            }
            i = i + 1;
        }
        None
    }

    /// Adds a group; fails when the name is already taken.
    pub fn register_group(&mut self, g: Group) -> (r: Result<(), RrhError>)
        requires
            wf(old(self)@),
        ensures
            wf(final(self)@),
            match r {
                Ok(()) => !has_group(old(self)@.groups, g@.name) && final(self)@.groups == old(
                    self,
                )@.groups.push(g@) && final(self)@.repos == old(self)@.repos && final(self)@.rels == old(
                    self,
                )@.rels && final(self)@.last_modified == old(self)@.last_modified,
                Err(e) => has_group(old(self)@.groups, g@.name) && final(self)@ == old(self)@ && (
                e matches RrhError::GroupExists(n) && n@ == g@.name),
            },
            closed(old(self)@) ==> closed(final(self)@),
    {
        if self.find_group(g.name.as_str()).is_some() {
            return Err(RrhError::GroupExists(g.name.clone()));
        }
        let ghost sv0 = self@;
        let ghost gv = g@;
        self.groups.push(g);
        proof {
            assert(self@.groups =~= sv0.groups.push(gv));
            lemma_has_group_iff(sv0.groups, gv.name);
            assert forall|a: int, b: int|
                0 <= a < b < self@.groups.len() implies self@.groups[a].name
                != self@.groups[b].name by {
                if b == self@.groups.len() - 1 {
                    assert(sv0.groups[a].name != gv.name);
                }
            }
            assert forall|i: int| 0 <= i < self@.rels.len() && closed(sv0) implies has_repo(
                self@.repos,
                #[trigger] self@.rels[i].id,
            ) && has_group(self@.groups, self@.rels[i].group) by {
                let x = sv0.rels[i];
                assert(has_repo(sv0.repos, x.id));
                assert(has_group(sv0.groups, x.group));
                lemma_has_group_iff(sv0.groups, x.group);
                let j = choose|j: int| 0 <= j < sv0.groups.len() && sv0.groups[j].name == x.group;
                assert(self@.groups[j].name == x.group);
                lemma_has_group_iff(self@.groups, x.group);
            }
        }
        Ok(())
    }

    /// Creates the relation when the pair is absent; hands the existing
    /// one back unchanged otherwise. Callers are responsible for the
    /// existence of both end points.
    pub fn relate(&mut self, id: String, group_name: String) -> (r: Result<Relation, RrhError>)
        requires
            wf(old(self)@),
            has_repo(old(self)@.repos, id@),
            has_group(old(self)@.groups, group_name@),
        ensures
            wf(final(self)@),
            r is Ok,
            r->Ok_0@.id == id@ && r->Ok_0@.group == group_name@,
            final(self)@.rels == relate_v(old(self)@.rels, id@, group_name@),
            has_rel(old(self)@.rels, id@, group_name@) ==> final(self)@.rels == old(self)@.rels,
            final(self)@.repos == old(self)@.repos,
            final(self)@.groups == old(self)@.groups,
            final(self)@.last_modified == old(self)@.last_modified,
            closed(old(self)@) ==> closed(final(self)@),
    {
        match self.find_relation(id.as_str(), group_name.as_str()) {
            Some(rel) => Ok(rel),
            None => {
                let ghost sv0 = self@;
                let rel = Relation::new(id, group_name);
                let ghost lv = rel@;
                self.relations.push(rel.clone());
                proof {
                    assert(self@.rels =~= sv0.rels.push(lv));
                    lemma_has_rel_iff(sv0.rels, lv.id, lv.group);
                    assert forall|a: int, b: int|
                        0 <= a < b < self@.rels.len() implies !(self@.rels[a].id
                        == self@.rels[b].id && self@.rels[a].group == self@.rels[b].group) by {
                        if b == self@.rels.len() - 1 {
                            assert(!(sv0.rels[a].id == lv.id && sv0.rels[a].group == lv.group));
                        }
                    }
                }
                Ok(rel)
            },
        }
    }

    /// Registers a repository under the given group names: the identifier
    /// must be fresh, missing groups are auto-created once each, and one
    /// relation per name is created idempotently.
    pub fn register(&mut self, r: Repository, group_names: Vec<String>) -> (res: Result<
        (),
        RrhError,
    >)
        requires
            wf(old(self)@),
        ensures
            wf(final(self)@),
            match res {
                Ok(()) => !has_repo(old(self)@.repos, r@.id) && final(self)@ == spec_register(
                    old(self)@,
                    r@,
                    group_names.deep_view(),
                ),
                Err(e) => has_repo(old(self)@.repos, r@.id) && final(self)@ == old(self)@ && (
                e matches RrhError::RepositoryExists(n) && n@ == r@.id),
            },
            closed(old(self)@) ==> closed(final(self)@),
    {
        if self.find_repository(r.id.as_str()).is_some() {
            return Err(RrhError::RepositoryExists(r.id.clone()));
        }
        let ghost sv0 = self@;
        let ghost rv = r@;
        let ghost names_dv = group_names.deep_view();
        let n = group_names.len();
        let mut i: usize = 0;
        while i < n
            invariant
                n == group_names.len(),
                i <= n,
                names_dv == group_names.deep_view(),
                self@.groups == add_missing_groups(sv0.groups, names_dv, i as int),
                self@.repos == sv0.repos,
                self@.rels == sv0.rels,
                self@.last_modified == sv0.last_modified,
                wf(self@),
                closed(sv0) ==> closed(self@),
            decreases n - i,
        {
            proof {
                assert(names_dv[i as int] == group_names@[i as int]@);
            }
            if self.find_group(group_names[i].as_str()).is_none() {
                let created = self.register_group(Group::new(group_names[i].clone()));
                proof {
                    assert(created is Ok);
                }
            }
            i = i + 1;
        }
        let ghost gs1 = self@.groups;
        let id = r.id.clone();
        self.repositories.push(r);
        proof {
            assert(self@.repos =~= sv0.repos.push(rv));
            lemma_has_repo_iff(sv0.repos, rv.id);
            assert forall|a: int, b: int|
                0 <= a < b < self@.repos.len() implies self@.repos[a].id != self@.repos[b].id by {
                if b == self@.repos.len() - 1 {
                    assert(sv0.repos[a].id != rv.id);
                }
            }
            lemma_has_repo_iff(self@.repos, rv.id);
            assert(self@.repos[self@.repos.len() - 1].id == rv.id);
            assert(has_repo(self@.repos, rv.id));
            lemma_add_missing_groups_elts(sv0.groups, names_dv, n as int);
            // a repository appended does not disturb referential closure
            assert forall|k: int| 0 <= k < self@.rels.len() && closed(sv0) implies has_repo(
                self@.repos,
                #[trigger] self@.rels[k].id,
            ) && has_group(self@.groups, self@.rels[k].group) by {
                let x = sv0.rels[k];
                assert(has_repo(sv0.repos, x.id));
                assert(has_group(sv0.groups, x.group));
                lemma_has_repo_iff(sv0.repos, x.id);
                let m = choose|m: int| 0 <= m < sv0.repos.len() && sv0.repos[m].id == x.id;
                assert(self@.repos[m].id == x.id);
                lemma_has_repo_iff(self@.repos, x.id);
            }
        }
        let mut j: usize = 0;
        while j < n
            invariant
                n == group_names.len(),
                j <= n,
                names_dv == group_names.deep_view(),
                id@ == rv.id,
                self@.groups == gs1,
                gs1 == add_missing_groups(sv0.groups, names_dv, n as int),
                self@.repos == sv0.repos.push(rv),
                self@.rels == add_relations(sv0.rels, rv.id, names_dv, j as int),
                self@.last_modified == sv0.last_modified,
                wf(self@),
                has_repo(self@.repos, rv.id),
                forall|k: int| 0 <= k < n ==> has_group(gs1, #[trigger] names_dv[k]),
                closed(sv0) ==> closed(self@),
            decreases n - j,
        {
            proof {
                assert(names_dv[j as int] == group_names@[j as int]@);
            }
            let rr = self.relate(id.clone(), group_names[j].clone());
            j = j + 1;
        }
        Ok(())
    }

    /// Replaces the group found under `name` and re-points every relation
    /// that referenced the old name at the new one. The new name must not
    /// collide with a third group.
    pub fn update_group(&mut self, name: String, group: Group) -> (r: Result<(), RrhError>)
        requires
            wf(old(self)@),
            closed(old(self)@),
            group@.name == name@ || !has_group(old(self)@.groups, group@.name),
        ensures
            wf(final(self)@),
            closed(final(self)@),
            match r {
                Ok(()) => has_group(old(self)@.groups, name@) && final(self)@ == spec_update_group(
                    old(self)@,
                    name@,
                    group@,
                ) && (group@.name != name@ ==> forall|k: int|
                    0 <= k < final(self)@.rels.len() ==> (#[trigger] final(self)@.rels[k]).group != name@),
                Err(e) => !has_group(old(self)@.groups, name@) && final(self)@ == old(self)@ && (
                e matches RrhError::GroupNotFound(n) && n@ == name@),
            },
    {
        let ghost sv0 = self@;
        match self.find_group_index(name.as_str()) {
            None => Err(RrhError::GroupNotFound(name)),
            Some(i) => {
                let ghost gi = i as int;
                let new_name = group.name.clone();
                let ghost gv = group@;
                proof {
                    lemma_group_idx(sv0.groups, name@, sv0.groups.len() as int);
                }
                self.groups[i] = group;
                proof {
                    assert(self@.groups =~= sv0.groups.update(gi, gv));
                    lemma_has_group_iff(sv0.groups, gv.name);
                    assert forall|a: int, b: int|
                        0 <= a < b < self@.groups.len() implies self@.groups[a].name
                        != self@.groups[b].name by {
                        if gv.name != name@ {
                            assert(sv0.groups[a].name != gv.name);
                            assert(sv0.groups[b].name != gv.name);
                        }
                    }
                }
                let ghost gs1 = self@.groups;
                let n = self.relations.len();
                let mut out: Vec<Relation> = Vec::new();
                let mut k: usize = 0;
                while k < n
                    invariant
                        n == self.relations.len(),
                        k <= n,
                        self@.rels == sv0.rels,
                        self@.groups == gs1,
                        self@.repos == sv0.repos,
                        self@.last_modified == sv0.last_modified,
                        new_name@ == gv.name,
                        out.deep_view() == rels_rename_group(sv0.rels, name@, gv.name, k as int),
                    decreases n - k,
                {
                    if str_eq(self.relations[k].group.as_str(), name.as_str()) {
                        out.push(Relation::new(self.relations[k].id.clone(), new_name.clone()));
                        proof {
                            assert(out.deep_view() =~= rels_rename_group(
                                sv0.rels,
                                name@,
                                gv.name,
                                k + 1 as int,
                            ));
                        }
                    } else {
                        out.push(self.relations[k].clone());
                        proof {
                            assert(out.deep_view() =~= rels_rename_group(
                                sv0.rels,
                                name@,
                                gv.name,
                                k + 1 as int,
                            ));
                        }
                    }
                    k = k + 1;
                }
                self.relations = out;
                proof {
                    lemma_rels_rename_group_elts(sv0.rels, name@, gv.name, sv0.rels.len() as int);
                    let nr = self@.rels;
                    // the rewritten list holds no duplicate pair
                    assert forall|a: int, b: int|
                        0 <= a < b < nr.len() implies !(nr[a].id == nr[b].id && nr[a].group
                        == nr[b].group) by {
                        if sv0.rels[a].group == name@ && sv0.rels[b].group == name@ {
                        } else if sv0.rels[a].group != name@ && sv0.rels[b].group != name@ {
                        } else {
                            if gv.name != name@ {
                                lemma_has_group_iff(sv0.groups, gv.name);
                                if sv0.rels[a].group == name@ {
                                    // b kept its group; equality would need that group
                                    // to be the new name, which no third group carries
                                    if nr[b].group == gv.name {
                                        assert(has_group(sv0.groups, sv0.rels[b].group));
                                    }
                                } else {
                                    if nr[a].group == gv.name {
                                        assert(has_group(sv0.groups, sv0.rels[a].group));
                                    }
                                }
                            }
                        }
                    }
                    // every relation still points at a live repository and group
                    assert forall|a: int| 0 <= a < nr.len() implies has_repo(
                        self@.repos,
                        #[trigger] nr[a].id,
                    ) && has_group(self@.groups, nr[a].group) by {
                        assert(has_repo(sv0.repos, sv0.rels[a].id));
                        lemma_has_group_iff(gs1, gv.name);
                        assert(gs1[gi].name == gv.name);
                        if sv0.rels[a].group == name@ {
                            assert(nr[a].group == gv.name);
                        } else {
                            lemma_has_group_iff(sv0.groups, sv0.rels[a].group);
                            let j = choose|j: int|
                                0 <= j < sv0.groups.len() && sv0.groups[j].name
                                    == sv0.rels[a].group;
                            assert(sv0.groups[gi].name == name@);
                            assert(j != gi);
                            assert(gs1[j].name == sv0.rels[a].group);
                            lemma_has_group_iff(gs1, sv0.rels[a].group);
                        }
                    }
                    if gv.name != name@ {
                        assert forall|a: int| 0 <= a < nr.len() implies (#[trigger] nr[a]).group
                            != name@ by {
                            if sv0.rels[a].group == name@ {
                            }
                        }
                    }
                }
                Ok(())
            },
        }
    }

    /// Replaces the repository found under `id` in place. Relations are
    /// not rewritten here: a rename-safe update is the workflow's job.
    /// The new identifier must not collide with a third repository.
    pub fn update_repository(&mut self, id: String, r: Repository) -> (res: Result<(), RrhError>)
        requires
            wf(old(self)@),
            r@.id == id@ || !has_repo(old(self)@.repos, r@.id),
        ensures
            wf(final(self)@),
            match res {
                Ok(()) => has_repo(old(self)@.repos, id@) && final(self)@ == spec_update_repository(
                    old(self)@,
                    id@,
                    r@,
                ),
                Err(e) => !has_repo(old(self)@.repos, id@) && final(self)@ == old(self)@ && (
                e matches RrhError::RepositoryNotFound(n) && n@ == id@),
            },
    {
        let ghost sv0 = self@;
        match self.find_repo_index(id.as_str()) {
            None => Err(RrhError::RepositoryNotFound(id)),
            Some(i) => {
                let ghost ri = i as int;
                let ghost rv = r@;
                proof {
                    lemma_repo_idx(sv0.repos, id@, sv0.repos.len() as int);
                }
                self.repositories[i] = r;
                proof {
                    assert(self@.repos =~= sv0.repos.update(ri, rv));
                    lemma_has_repo_iff(sv0.repos, rv.id);
                    assert forall|a: int, b: int|
                        0 <= a < b < self@.repos.len() implies self@.repos[a].id
                        != self@.repos[b].id by {
                        if rv.id != id@ {
                            assert(sv0.repos[a].id != rv.id);
                            assert(sv0.repos[b].id != rv.id);
                        }
                    }
                }
                Ok(())
            },
        }
    }

    /// Removes the relation equal to the pair; fails when it is absent.
    pub fn delete_relation(&mut self, id: String, group_name: String) -> (r: Result<(), RrhError>)
        requires
            wf(old(self)@),
        ensures
            wf(final(self)@),
            closed(old(self)@) ==> closed(final(self)@),
            match r {
                Ok(()) => has_rel(old(self)@.rels, id@, group_name@) && final(self)@
                    == spec_delete_relation(old(self)@, id@, group_name@),
                Err(e) => !has_rel(old(self)@.rels, id@, group_name@) && final(self)@ == old(self)@ && (
                e matches RrhError::RelationNotFound(a, b) && a@ == id@ && b@ == group_name@),
            },
    {
        let ghost sv0 = self@;
        match self.find_relation_index(id.as_str(), group_name.as_str()) {
            None => Err(RrhError::RelationNotFound(id, group_name)),
            Some(i) => {
                let ghost li = i as int;
                proof {
                    lemma_rel_idx(sv0.rels, id@, group_name@, sv0.rels.len() as int);
                }
                self.relations.remove(i);
                proof {
                    assert(self@.rels =~= sv0.rels.remove(li));
                    assert forall|a: int| 0 <= a < self@.rels.len() implies #[trigger] self@.rels[a]
                        == (if a < li {
                            sv0.rels[a]
                        } else {
                            sv0.rels[a + 1]
                        }) by {}
                    assert forall|a: int| 0 <= a < self@.rels.len() && closed(sv0) implies has_repo(
                        self@.repos,
                        #[trigger] self@.rels[a].id,
                    ) && has_group(self@.groups, self@.rels[a].group) by {}
                }
                Ok(())
            },
        }
    }

    /// Removes the repository stored under `id` and every relation that
    /// referenced it; groups are untouched.
    pub fn delete_repository(&mut self, id: String) -> (r: Result<(), RrhError>)
        requires
            wf(old(self)@),
        ensures
            wf(final(self)@),
            closed(old(self)@) ==> closed(final(self)@),
            match r {
                Ok(()) => has_repo(old(self)@.repos, id@) && final(self)@ == spec_delete_repository(
                    old(self)@,
                    id@,
                ),
                Err(e) => !has_repo(old(self)@.repos, id@) && final(self)@ == old(self)@ && (
                e matches RrhError::RepositoryNotFound(n) && n@ == id@),
            },
    {
        let ghost sv0 = self@;
        match self.find_repo_index(id.as_str()) {
            None => Err(RrhError::RepositoryNotFound(id)),
            Some(i) => {
                let ghost ri = i as int;
                proof {
                    lemma_repo_idx(sv0.repos, id@, sv0.repos.len() as int);
                }
                self.repositories.remove(i);
                let n = self.relations.len();
                let mut out: Vec<Relation> = Vec::new();
                let mut k: usize = 0;
                while k < n
                    invariant
                        n == self.relations.len(),
                        k <= n,
                        self@.rels == sv0.rels,
                        out.deep_view() == rels_drop_id(sv0.rels, id@, k as int),
                    decreases n - k,
                {
                    if !str_eq(self.relations[k].id.as_str(), id.as_str()) {
                        out.push(self.relations[k].clone());
                        proof {
                            assert(out.deep_view() =~= rels_drop_id(sv0.rels, id@, k + 1 as int));
                        }
                    } else {
                        proof {
                            assert(out.deep_view() =~= rels_drop_id(sv0.rels, id@, k + 1 as int));
                        }
                    }
                    k = k + 1;
                }
                self.relations = out;
                proof {
                    assert(self@.repos =~= sv0.repos.remove(ri));
                    lemma_rels_drop_id_elts(sv0.rels, id@, sv0.rels.len() as int);
                    assert forall|a: int, b: int|
                        0 <= a < b < self@.repos.len() implies self@.repos[a].id
                        != self@.repos[b].id by {}
                    assert forall|a: int| 0 <= a < self@.rels.len() && closed(sv0) implies has_repo(
                        self@.repos,
                        #[trigger] self@.rels[a].id,
                    ) && has_group(self@.groups, self@.rels[a].group) by {
                        let x = self@.rels[a];
                        let j = choose|j: int| 0 <= j < sv0.rels.len() && sv0.rels[j] == x;
                        assert(has_repo(sv0.repos, x.id));
                        lemma_has_repo_iff(sv0.repos, x.id);
                        let m = choose|m: int|
                            0 <= m < sv0.repos.len() && sv0.repos[m].id == x.id;
                        assert(sv0.repos[ri].id == id@);
                        assert(m != ri);
                        lemma_has_repo_iff(self@.repos, x.id);
                        if m < ri {
                            assert(self@.repos[m].id == x.id);
                        } else {
                            assert(self@.repos[m - 1].id == x.id);
                        }
                    }
                }
                Ok(())
            },
        }
    }

    /// Removes the group stored under `group_name` and every relation
    /// that referenced it; repositories are untouched.
    pub fn delete_group(&mut self, group_name: String) -> (r: Result<(), RrhError>)
        requires
            wf(old(self)@),
        ensures
            wf(final(self)@),
            closed(old(self)@) ==> closed(final(self)@),
            match r {
                Ok(()) => has_group(old(self)@.groups, group_name@) && final(self)@ == spec_delete_group(
                    old(self)@,
                    group_name@,
                ),
                Err(e) => !has_group(old(self)@.groups, group_name@) && final(self)@ == old(self)@ && (
                e matches RrhError::GroupNotFound(n) && n@ == group_name@),
            },
    {
        let ghost sv0 = self@;
        match self.find_group_index(group_name.as_str()) {
            None => Err(RrhError::GroupNotFound(group_name)),
            Some(i) => {
                let ghost gi = i as int;
                proof {
                    lemma_group_idx(sv0.groups, group_name@, sv0.groups.len() as int);
                }
                self.groups.remove(i);
                let n = self.relations.len();
                let mut out: Vec<Relation> = Vec::new();
                let mut k: usize = 0;
                while k < n
                    invariant
                        n == self.relations.len(),
                        k <= n,
                        self@.rels == sv0.rels,
                        out.deep_view() == rels_drop_group(sv0.rels, group_name@, k as int),
                    decreases n - k,
                {
                    if !str_eq(self.relations[k].group.as_str(), group_name.as_str()) {
                        out.push(self.relations[k].clone());
                        proof {
                            assert(out.deep_view() =~= rels_drop_group(
                                sv0.rels,
                                group_name@,
                                k + 1 as int,
                            ));
                        }
                    } else {
                        proof {
                            assert(out.deep_view() =~= rels_drop_group(
                                sv0.rels,
                                group_name@,
                                k + 1 as int,
                            ));
                        }
                    }
                    k = k + 1;
                }
                self.relations = out;
                proof {
                    assert(self@.groups =~= sv0.groups.remove(gi));
                    lemma_rels_drop_group_elts(sv0.rels, group_name@, sv0.rels.len() as int);
                    assert forall|a: int, b: int|
                        0 <= a < b < self@.groups.len() implies self@.groups[a].name
                        != self@.groups[b].name by {}
                    assert forall|a: int| 0 <= a < self@.rels.len() && closed(sv0) implies has_repo(
                        self@.repos,
                        #[trigger] self@.rels[a].id,
                    ) && has_group(self@.groups, self@.rels[a].group) by {
                        let x = self@.rels[a];
                        let j = choose|j: int| 0 <= j < sv0.rels.len() && sv0.rels[j] == x;
                        assert(sv0.rels[j] == x);
                        assert(has_repo(sv0.repos, sv0.rels[j].id));
                        assert(has_repo(sv0.repos, x.id));
                        assert(has_group(sv0.groups, x.group));
                        lemma_has_group_iff(sv0.groups, x.group);
                        let m = choose|m: int|
                            0 <= m < sv0.groups.len() && sv0.groups[m].name == x.group;
                        assert(sv0.groups[gi].name == group_name@);
                        assert(m != gi);
                        lemma_has_group_iff(self@.groups, x.group);
                        if m < gi {
                            assert(self@.groups[m].name == x.group);
                        } else {
                            assert(self@.groups[m - 1].name == x.group);
                        }
                    }
                }
                Ok(())
            },
        }
    }

    /// Refreshes the modification stamp and renders the whole snapshot.
    pub fn to_json(&mut self, now: u64) -> (r: String)
        ensures
            final(self)@.last_modified == now,
            final(self)@.repos == old(self)@.repos,
            final(self)@.groups == old(self)@.groups,
            final(self)@.rels == old(self)@.rels,
            r@ == crate::db::codec::enc_db(final(self)@),
    {
        self.last_modified = now;
        let v = crate::db::codec::render_db(self);
        crate::utils::chars_to_string(&v)
    }

    /// Loads a store from one snapshot document; the whole text must be
    /// one well-formed snapshot.
    pub fn from_str(data: &str) -> (r: Result<JsonDB, RrhError>)
        ensures
            match r {
                Ok(db) => crate::db::codec::p_db(data@, 0) == Some((db@, data@.len() as int)),
                Err(e) => (match crate::db::codec::p_db(data@, 0) {
                    Some(p) => p.1 != data@.len(),
                    None => true,
                }) && (e matches RrhError::Parse(_)),
            },
    {
        let v = crate::utils::string_to_chars(data);
        match crate::db::codec::parse_db(&v) {
            Some((db, j)) => {
                if j == v.len() {
                    Ok(db)
                } else {
                    Err(RrhError::Parse("the snapshot has text after the document".to_owned()))
                }
            },
            None => Err(RrhError::Parse("the snapshot document is malformed".to_owned())),
        }
    }

    /// Whether repository identifiers are pairwise distinct.
    fn repos_unique_check(&self) -> (r: bool)
        ensures
            r == crate::db::repos_unique(self@.repos),
    {
        let n = self.repositories.len();
        let mut a: usize = 0;
        while a < n
            invariant
                n == self.repositories.len(),
                a <= n,
                forall|i: int, j: int|
                    0 <= i < j < n && i < a ==> self@.repos[i].id != self@.repos[j].id,
            decreases n - a,
        {
            let mut b: usize = a + 1;
            while b < n
                invariant
                    n == self.repositories.len(),
                    a < b <= n || (a + 1 == b && b > n - 1 && a < n),
                    a < n,
                    forall|j: int| a < j < b ==> self@.repos[a as int].id != self@.repos[j].id,
                decreases n - b,
            {
                if str_eq(self.repositories[a].id.as_str(), self.repositories[b].id.as_str()) {
                    proof {
                        assert(self@.repos[a as int].id == self@.repos[b as int].id);
                        assert(!crate::db::repos_unique(self@.repos));
                    }
                    return false;
                }
                b = b + 1;
            }
            a = a + 1;
        }
        true
    }

    /// Whether group names are pairwise distinct.
    fn groups_unique_check(&self) -> (r: bool)
        ensures
            r == crate::db::groups_unique(self@.groups),
    {
        let n = self.groups.len();
        let mut a: usize = 0;
        while a < n
            invariant
                n == self.groups.len(),
                a <= n,
                forall|i: int, j: int|
                    0 <= i < j < n && i < a ==> self@.groups[i].name != self@.groups[j].name,
            decreases n - a,
        {
            let mut b: usize = a + 1;
            while b < n
                invariant
                    n == self.groups.len(),
                    a < b <= n || (a + 1 == b && b > n - 1 && a < n),
                    a < n,
                    forall|j: int| a < j < b ==> self@.groups[a as int].name != self@.groups[j].name,
                decreases n - b,
            {
                if str_eq(self.groups[a].name.as_str(), self.groups[b].name.as_str()) {
                    proof {
                        assert(self@.groups[a as int].name == self@.groups[b as int].name);
                        assert(!crate::db::groups_unique(self@.groups));
                    }
                    return false;
                }
                b = b + 1;
            }
            a = a + 1;
        }
        true
    }

    /// Whether no relation pair is stored twice.
    fn rels_unique_check(&self) -> (r: bool)
        ensures
            r == crate::db::rels_unique(self@.rels),
    {
        let n = self.relations.len();
        let mut a: usize = 0;
        while a < n
            invariant
                n == self.relations.len(),
                a <= n,
                forall|i: int, j: int|
                    0 <= i < j < n && i < a ==> !(self@.rels[i].id == self@.rels[j].id
                        && self@.rels[i].group == self@.rels[j].group),
            decreases n - a,
        {
            let mut b: usize = a + 1;
            while b < n
                invariant
                    n == self.relations.len(),
                    a < b <= n || (a + 1 == b && b > n - 1 && a < n),
                    a < n,
                    forall|j: int|
                        a < j < b ==> !(self@.rels[a as int].id == self@.rels[j].id
                            && self@.rels[a as int].group == self@.rels[j].group),
                decreases n - b,
            {
                if str_eq(self.relations[a].id.as_str(), self.relations[b].id.as_str()) && str_eq(
                    self.relations[a].group.as_str(),
                    self.relations[b].group.as_str(),
                ) {
                    proof {
                        assert(self@.rels[a as int].id == self@.rels[b as int].id
                            && self@.rels[a as int].group == self@.rels[b as int].group);
                        assert(!crate::db::rels_unique(self@.rels));
                    }
                    return false;
                }
                b = b + 1;
            }
            a = a + 1;
        }
        true
    }

    /// Whether every relation points at a stored repository and group.
    fn closed_check(&self) -> (r: bool)
        ensures
            r == closed(self@),
    {
        let n = self.relations.len();
        let mut i: usize = 0;
        while i < n
            invariant
                n == self.relations.len(),
                i <= n,
                forall|k: int|
                    0 <= k < i ==> has_repo(self@.repos, (#[trigger] self@.rels[k]).id)
                        && has_group(self@.groups, self@.rels[k].group),
            decreases n - i,
        {
            if self.find_repository(self.relations[i].id.as_str()).is_none() {
                proof {
                    assert(!has_repo(self@.repos, self@.rels[i as int].id));
                    assert(!closed(self@));
                }
                return false;
            }
            if self.find_group(self.relations[i].group.as_str()).is_none() {
                proof {
                    assert(!has_group(self@.groups, self@.rels[i as int].group));
                    let tr = self@.rels[i as int].id;
                    assert(self@.rels[i as int].id == tr);
                    assert(!closed(self@));
                }
                return false;
            }
            i = i + 1;
        }
        true
    }

    /// Whether the loaded snapshot satisfies the store's invariants:
    /// duplicate-free keys and referentially consistent relations.
    pub fn check_consistency(&self) -> (r: bool)
        ensures
            r == (wf(self@) && closed(self@)),
    {
        self.repos_unique_check() && self.groups_unique_check() && self.rels_unique_check()
            && self.closed_check()
    }
}

/// Re-points every relation of repository `old_id` at `new_id`. The new
/// identifier must not carry relations already (fresh, or equal to the
/// old one), so no duplicate pair can arise.
pub fn update_relations_all_for_repository(db: &mut JsonDB, old_id: &str, new_id: &str)
    requires
        wf(old(db)@),
        old_id@ == new_id@ || !has_repo(old(db)@.repos, new_id@),
        closed(old(db)@),
    ensures
        wf(final(db)@),
        final(db)@.rels == crate::db::rels_rename_id(
            old(db)@.rels,
            old_id@,
            new_id@,
            old(db)@.rels.len() as int,
        ),
        final(db)@.repos == old(db)@.repos,
        final(db)@.groups == old(db)@.groups,
        final(db)@.last_modified == old(db)@.last_modified,
{
    let ghost sv0 = db@;
    let n = db.relations.len();
    let mut out: Vec<Relation> = Vec::new();
    let mut k: usize = 0;
    while k < n
        invariant
            n == db.relations.len(),
            k <= n,
            db@ == sv0,
            out.deep_view() == crate::db::rels_rename_id(sv0.rels, old_id@, new_id@, k as int),
        decreases n - k,
    {
        if str_eq(db.relations[k].id.as_str(), old_id) {
            out.push(Relation::new(new_id.to_owned(), db.relations[k].group.clone()));
            proof {
                assert(out.deep_view() =~= crate::db::rels_rename_id(
                    sv0.rels,
                    old_id@,
                    new_id@,
                    k + 1 as int,
                ));
            }
        } else {
            out.push(db.relations[k].clone());
            proof {
                assert(out.deep_view() =~= crate::db::rels_rename_id(
                    sv0.rels,
                    old_id@,
                    new_id@,
                    k + 1 as int,
                ));
            }
        }
        k = k + 1;
    }
    db.relations = out;
    proof {
        crate::db::lemma_rels_rename_id_elts(sv0.rels, old_id@, new_id@, sv0.rels.len() as int);
        let nr = db@.rels;
        assert forall|a: int, b: int|
            0 <= a < b < nr.len() implies !(nr[a].id == nr[b].id && nr[a].group
            == nr[b].group) by {
            if sv0.rels[a].id == old_id@ && sv0.rels[b].id == old_id@ {
            } else if sv0.rels[a].id != old_id@ && sv0.rels[b].id != old_id@ {
            } else {
                if new_id@ != old_id@ {
                    if sv0.rels[a].id == old_id@ {
                        if nr[b].id == new_id@ {
                            assert(has_repo(sv0.repos, sv0.rels[b].id));
                        }
                    } else {
                        if nr[a].id == new_id@ {
                            assert(has_repo(sv0.repos, sv0.rels[a].id));
                        }
                    }
                }
            }
        }
    }
}

/// Removes every relation of repository `id`; entities are untouched.
pub fn delete_relation_all_for_repository(db: &mut JsonDB, id: &str)
    requires
        wf(old(db)@),
    ensures
        wf(final(db)@),
        closed(old(db)@) ==> closed(final(db)@),
        final(db)@.rels == rels_drop_id(old(db)@.rels, id@, old(db)@.rels.len() as int),
        final(db)@.repos == old(db)@.repos,
        final(db)@.groups == old(db)@.groups,
        final(db)@.last_modified == old(db)@.last_modified,
{
    let ghost sv0 = db@;
    let n = db.relations.len();
    let mut out: Vec<Relation> = Vec::new();
    let mut k: usize = 0;
    while k < n
        invariant
            n == db.relations.len(),
            k <= n,
            db@ == sv0,
            out.deep_view() == rels_drop_id(sv0.rels, id@, k as int),
        decreases n - k,
    {
        if !str_eq(db.relations[k].id.as_str(), id) {
            out.push(db.relations[k].clone());
            proof {
                assert(out.deep_view() =~= rels_drop_id(sv0.rels, id@, k + 1 as int));
            }
        } else {
            proof {
                assert(out.deep_view() =~= rels_drop_id(sv0.rels, id@, k + 1 as int));
            }
        }
        k = k + 1;
    }
    db.relations = out;
    proof {
        lemma_rels_drop_id_elts(sv0.rels, id@, sv0.rels.len() as int);
        assert forall|a: int| 0 <= a < db@.rels.len() && closed(sv0) implies has_repo(
            db@.repos,
            (#[trigger] db@.rels[a]).id,
        ) && has_group(db@.groups, db@.rels[a].group) by {
            let x = db@.rels[a];
            let j = choose|j: int| 0 <= j < sv0.rels.len() && sv0.rels[j] == x;
            assert(sv0.rels[j] == x);
            assert(has_repo(sv0.repos, sv0.rels[j].id));
            assert(has_group(sv0.groups, sv0.rels[j].group));
        }
    }
}

impl crate::db::RefDB for JsonDB {
    open spec fn sv(&self) -> StoreV {
        self@
    }

    fn find_repository(&self, id: &str) -> (r: Option<Repository>) {
        JsonDB::find_repository(self, id)
    }

    fn find_repository_with_groups(&self, id: &str) -> (r: Option<RepositoryWithGroups>) {
        JsonDB::find_repository_with_groups(self, id)
    }

    fn find_group(&self, name: &str) -> (r: Option<Group>) {
        JsonDB::find_group(self, name)
    }

    fn find_groups_of(&self, id: &str) -> (r: Result<Vec<Group>, RrhError>) {
        JsonDB::find_groups_of(self, id)
    }

    fn find_repositories_of(&self, group_name: &str) -> (r: Result<Vec<Repository>, RrhError>) {
        JsonDB::find_repositories_of(self, group_name)
    }

    fn has_relation(&self, repo_id: &str, group_name: &str) -> (r: bool) {
        JsonDB::has_relation(self, repo_id, group_name)
    }

    fn find_relation(&self, repo_id: &str, group_name: &str) -> (r: Option<Relation>) {
        JsonDB::find_relation(self, repo_id, group_name)
    }

    fn find_relation_with_repository(&self, repo_id: &str) -> (r: Vec<Relation>) {
        JsonDB::find_relation_with_repository(self, repo_id)
    }

    fn find_relation_with_group(&self, group_name: &str) -> (r: Vec<Relation>) {
        JsonDB::find_relation_with_group(self, group_name)
    }

    fn groups(&self) -> (r: Result<Vec<Group>, RrhError>) {
        self.all_groups()
    }

    fn group_repositories(&self) -> (r: Result<Vec<(String, Vec<Repository>)>, RrhError>) {
        JsonDB::group_repositories(self)
    }

    fn repositories(&self) -> (r: Result<Vec<Repository>, RrhError>) {
        self.all_repositories()
    }
}

impl crate::db::Database for JsonDB {
    fn register(&mut self, r: Repository, group_names: Vec<String>) -> (res: Result<
        (),
        RrhError,
    >) {
        JsonDB::register(self, r, group_names)
    }

    fn register_group(&mut self, g: Group) -> (r: Result<(), RrhError>) {
        JsonDB::register_group(self, g)
    }

    fn update_group(&mut self, name: String, group: Group) -> (r: Result<(), RrhError>) {
        JsonDB::update_group(self, name, group)
    }

    fn update_repository(&mut self, id: String, r: Repository) -> (res: Result<(), RrhError>) {
        JsonDB::update_repository(self, id, r)
    }

    fn relate(&mut self, id: String, group_name: String) -> (r: Result<Relation, RrhError>) {
        JsonDB::relate(self, id, group_name)
    }

    fn delete_relation(&mut self, id: String, group_name: String) -> (r: Result<(), RrhError>) {
        JsonDB::delete_relation(self, id, group_name)
    }

    fn delete_repository(&mut self, id: String) -> (r: Result<(), RrhError>) {
        JsonDB::delete_repository(self, id)
    }

    fn delete_group(&mut self, group_name: String) -> (r: Result<(), RrhError>) {
        JsonDB::delete_group(self, group_name)
    }

    fn store(&mut self, now: u64) -> (r: String) {
        self.to_json(now)
    }
}

impl crate::db::Exportable for JsonDB {
    open spec fn exported(&self) -> StoreV {
        self@
    }

    fn export(&self) -> (r: Result<String, RrhError>) {
        let v = crate::db::codec::render_db(self);
        Ok(crate::utils::chars_to_string(&v))
    }
}

} // verus!
