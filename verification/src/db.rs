//! The query and mutation contracts of the store, together with the
//! mathematical model both are specified against.
//!
//! Every operation on the concrete store is specified as a function over
//! [`StoreV`], the ghost image of the three entity collections. The
//! `*_idx` functions locate the first entity with a given key inside a
//! prefix; the `rels_*` functions describe how the relation list changes
//! under cascades, renames and joins. Lemmas at the bottom characterise
//! these definitions so that callers can reason about membership.
use vstd::prelude::*;

use crate::entities::{Group, GroupV, RelV, Relation, RepoV, Repository, RepositoryWithGroups};
use crate::cli::RrhError;

pub mod codec;
pub mod jsondb;

verus! {

/// The ghost image of a whole store: its collections and the modification
/// stamp, as mathematical sequences.
pub ghost struct StoreV {
    pub last_modified: u64,
    pub repos: Seq<RepoV>,
    pub groups: Seq<GroupV>,
    pub rels: Seq<RelV>,
}

// ---------------------------------------------------------------------
// first-match lookups over a prefix of length n
// ---------------------------------------------------------------------

/// Index of the first repository with identifier `id` among the first `n`.
pub open spec fn repo_idx(rs: Seq<RepoV>, id: Seq<char>, n: int) -> Option<int>
    decreases n,
{
    if n <= 0 {
        None
    } else {
        match repo_idx(rs, id, n - 1) {
            Some(i) => Some(i),
            None => if rs[n - 1].id == id {
                Some(n - 1)
            } else {
                None
            },
        }
    }
}

/// Index of the first group named `name` among the first `n`.
pub open spec fn group_idx(gs: Seq<GroupV>, name: Seq<char>, n: int) -> Option<int>
    decreases n,
{
    if n <= 0 {
        None
    } else {
        match group_idx(gs, name, n - 1) {
            Some(i) => Some(i),
            None => if gs[n - 1].name == name {
                Some(n - 1)
            } else {
                None
            },
        }
    }
}

/// Index of the first relation equal to the pair `(id, group)` among the
/// first `n`.
pub open spec fn rel_idx(ls: Seq<RelV>, id: Seq<char>, group: Seq<char>, n: int) -> Option<int>
    decreases n,
{
    if n <= 0 {
        None
    } else {
        match rel_idx(ls, id, group, n - 1) {
            Some(i) => Some(i),
            None => if ls[n - 1].id == id && ls[n - 1].group == group {
                Some(n - 1)
            } else {
                None
            },
        }
    }
}

pub open spec fn has_repo(rs: Seq<RepoV>, id: Seq<char>) -> bool {
    repo_idx(rs, id, rs.len() as int) is Some
}

pub open spec fn has_group(gs: Seq<GroupV>, name: Seq<char>) -> bool {
    group_idx(gs, name, gs.len() as int) is Some
}

pub open spec fn has_rel(ls: Seq<RelV>, id: Seq<char>, group: Seq<char>) -> bool {
    rel_idx(ls, id, group, ls.len() as int) is Some
}

/// The first repository with identifier `id`, if any.
pub open spec fn find_repo(rs: Seq<RepoV>, id: Seq<char>) -> Option<RepoV> {
    match repo_idx(rs, id, rs.len() as int) {
        Some(i) => Some(rs[i]),
        None => None,
    }
}

/// The first group named `name`, if any.
pub open spec fn find_group_v(gs: Seq<GroupV>, name: Seq<char>) -> Option<GroupV> {
    match group_idx(gs, name, gs.len() as int) {
        Some(i) => Some(gs[i]),
        None => None,
    }
}

// ---------------------------------------------------------------------
// relation transformations over a prefix of length n
// ---------------------------------------------------------------------

/// The relations among the first `n` whose repository identifier is `id`,
/// in order.
pub open spec fn rels_of_id(ls: Seq<RelV>, id: Seq<char>, n: int) -> Seq<RelV>
    decreases n,
{
    if n <= 0 {
        Seq::empty()
    } else {
        let p = rels_of_id(ls, id, n - 1);
        if ls[n - 1].id == id {
            p.push(ls[n - 1])
        } else {
            p
        }
    }
}

/// The relations among the first `n` whose group name is `group`, in order.
pub open spec fn rels_of_group(ls: Seq<RelV>, group: Seq<char>, n: int) -> Seq<RelV>
    decreases n,
{
    if n <= 0 {
        Seq::empty()
    } else {
        let p = rels_of_group(ls, group, n - 1);
        if ls[n - 1].group == group {
            p.push(ls[n - 1])
        } else {
            p
        }
    }
}

/// The relations among the first `n` that survive deleting repository `id`.
pub open spec fn rels_drop_id(ls: Seq<RelV>, id: Seq<char>, n: int) -> Seq<RelV>
    decreases n,
{
    if n <= 0 {
        Seq::empty()
    } else {
        let p = rels_drop_id(ls, id, n - 1);
        if ls[n - 1].id == id {
            p
        } else {
            p.push(ls[n - 1])
        }
    }
}

/// The relations among the first `n` that survive deleting group `group`.
pub open spec fn rels_drop_group(ls: Seq<RelV>, group: Seq<char>, n: int) -> Seq<RelV>
    decreases n,
{
    if n <= 0 {
        Seq::empty()
    } else {
        let p = rels_drop_group(ls, group, n - 1);
        if ls[n - 1].group == group {
            p
        } else {
            p.push(ls[n - 1])
        }
    }
}

/// The first `n` relations with every group pointer `old` rewritten to
/// `new`.
pub open spec fn rels_rename_group(ls: Seq<RelV>, old_name: Seq<char>, new_name: Seq<char>, n: int) -> Seq<RelV>
    decreases n,
{
    if n <= 0 {
        Seq::empty()
    } else {
        let p = rels_rename_group(ls, old_name, new_name, n - 1);
        if ls[n - 1].group == old_name {
            p.push(RelV { id: ls[n - 1].id, group: new_name })
        } else {
            p.push(ls[n - 1])
        }
    }
}

/// The first `n` relations with every repository pointer `old` rewritten
/// to `new`.
pub open spec fn rels_rename_id(ls: Seq<RelV>, old_id: Seq<char>, new_id: Seq<char>, n: int) -> Seq<RelV>
    decreases n,
{
    if n <= 0 {
        Seq::empty()
    } else {
        let p = rels_rename_id(ls, old_id, new_id, n - 1);
        if ls[n - 1].id == old_id {
            p.push(RelV { id: new_id, group: ls[n - 1].group })
        } else {
            p.push(ls[n - 1])
        }
    }
}

// ---------------------------------------------------------------------
// joins
// ---------------------------------------------------------------------

/// The groups reachable from repository `id` through the first `n`
/// relations, in relation order; relations naming an unknown group are
/// skipped.
pub open spec fn groups_of(gs: Seq<GroupV>, ls: Seq<RelV>, id: Seq<char>, n: int) -> Seq<GroupV>
    decreases n,
{
    if n <= 0 {
        Seq::empty()
    } else {
        let p = groups_of(gs, ls, id, n - 1);
        if ls[n - 1].id == id {
            match find_group_v(gs, ls[n - 1].group) {
                Some(g) => p.push(g),
                None => p,
            }
        } else {
            p
        }
    }
}

/// The repositories reachable from group `group` through the first `n`
/// relations, in relation order; relations naming an unknown repository
/// are skipped.
pub open spec fn repos_of(rs: Seq<RepoV>, ls: Seq<RelV>, group: Seq<char>, n: int) -> Seq<RepoV>
    decreases n,
{
    if n <= 0 {
        Seq::empty()
    } else {
        let p = repos_of(rs, ls, group, n - 1);
        if ls[n - 1].group == group {
            match find_repo(rs, ls[n - 1].id) {
                Some(r) => p.push(r),
                None => p,
            }
        } else {
            p
        }
    }
}

// ---------------------------------------------------------------------
// registration pieces
// ---------------------------------------------------------------------

/// A freshly auto-created group: empty note, not abbreviated.
pub open spec fn new_group_v(name: Seq<char>) -> GroupV {
    GroupV { name, note: Seq::empty(), abbrev: Some(false) }
}

/// The group list after auto-creating every name among the first `n` that
/// is not yet present; each missing name is appended exactly once, in
/// first-occurrence order.
pub open spec fn add_missing_groups(gs: Seq<GroupV>, names: Seq<Seq<char>>, n: int) -> Seq<GroupV>
    decreases n,
{
    if n <= 0 {
        gs
    } else {
        let p = add_missing_groups(gs, names, n - 1);
        if has_group(p, names[n - 1]) {
            p
        } else {
            p.push(new_group_v(names[n - 1]))
        }
    }
}

/// One idempotent relation creation: the pair is appended only when absent.
pub open spec fn relate_v(ls: Seq<RelV>, id: Seq<char>, group: Seq<char>) -> Seq<RelV> {
    if has_rel(ls, id, group) {
        ls
    } else {
        ls.push(RelV { id, group })
    }
}

/// The relation list after relating `id` with each of the first `n` names.
pub open spec fn add_relations(ls: Seq<RelV>, id: Seq<char>, names: Seq<Seq<char>>, n: int) -> Seq<RelV>
    decreases n,
{
    if n <= 0 {
        ls
    } else {
        relate_v(add_relations(ls, id, names, n - 1), id, names[n - 1])
    }
}

// ---------------------------------------------------------------------
// whole-store operations
// ---------------------------------------------------------------------

/// The store after a successful registration of repository `r` under the
/// given group names.
pub open spec fn spec_register(sv: StoreV, r: RepoV, names: Seq<Seq<char>>) -> StoreV {
    StoreV {
        last_modified: sv.last_modified,
        repos: sv.repos.push(r),
        groups: add_missing_groups(sv.groups, names, names.len() as int),
        rels: add_relations(sv.rels, r.id, names, names.len() as int),
    }
}

/// The store after a successful group update: the group found under
/// `old_name` is replaced by `g`, and every relation pointing at
/// `old_name` now points at `g.name`.
pub open spec fn spec_update_group(sv: StoreV, old_name: Seq<char>, g: GroupV) -> StoreV {
    let i = group_idx(sv.groups, old_name, sv.groups.len() as int)->Some_0;
    StoreV {
        last_modified: sv.last_modified,
        repos: sv.repos,
        groups: sv.groups.update(i, g),
        rels: rels_rename_group(sv.rels, old_name, g.name, sv.rels.len() as int),
    }
}

/// The store after a successful raw repository update: the repository
/// found under `old_id` is replaced by `r`; relations are left alone.
pub open spec fn spec_update_repository(sv: StoreV, old_id: Seq<char>, r: RepoV) -> StoreV {
    let i = repo_idx(sv.repos, old_id, sv.repos.len() as int)->Some_0;
    StoreV {
        last_modified: sv.last_modified,
        repos: sv.repos.update(i, r),
        groups: sv.groups,
        rels: sv.rels,
    }
}

/// The store after deleting the relation `(id, group)`.
pub open spec fn spec_delete_relation(sv: StoreV, id: Seq<char>, group: Seq<char>) -> StoreV {
    let i = rel_idx(sv.rels, id, group, sv.rels.len() as int)->Some_0;
    StoreV {
        last_modified: sv.last_modified,
        repos: sv.repos,
        groups: sv.groups,
        rels: sv.rels.remove(i),
    }
}

/// The store after deleting repository `id` and cascading to its
/// relations; groups are untouched.
pub open spec fn spec_delete_repository(sv: StoreV, id: Seq<char>) -> StoreV {
    let i = repo_idx(sv.repos, id, sv.repos.len() as int)->Some_0;
    StoreV {
        last_modified: sv.last_modified,
        repos: sv.repos.remove(i),
        groups: sv.groups,
        rels: rels_drop_id(sv.rels, id, sv.rels.len() as int),
    }
}

/// The store after deleting group `name` and cascading to its relations;
/// repositories are untouched.
pub open spec fn spec_delete_group(sv: StoreV, name: Seq<char>) -> StoreV {
    let i = group_idx(sv.groups, name, sv.groups.len() as int)->Some_0;
    StoreV {
        last_modified: sv.last_modified,
        repos: sv.repos,
        groups: sv.groups.remove(i),
        rels: rels_drop_group(sv.rels, name, sv.rels.len() as int),
    }
}

// ---------------------------------------------------------------------
// invariants
// ---------------------------------------------------------------------

/// Repository identifiers are pairwise distinct.
pub open spec fn repos_unique(rs: Seq<RepoV>) -> bool {
    forall|i: int, j: int| 0 <= i < j < rs.len() ==> rs[i].id != rs[j].id
}

/// Group names are pairwise distinct.
pub open spec fn groups_unique(gs: Seq<GroupV>) -> bool {
    forall|i: int, j: int| 0 <= i < j < gs.len() ==> gs[i].name != gs[j].name
}

/// No two relations carry the same pair.
pub open spec fn rels_unique(ls: Seq<RelV>) -> bool {
    forall|i: int, j: int|
        0 <= i < j < ls.len() ==> !(ls[i].id == ls[j].id && ls[i].group == ls[j].group)
}

/// The store's structural invariant: all three key spaces are duplicate
/// free.
pub open spec fn wf(sv: StoreV) -> bool {
    repos_unique(sv.repos) && groups_unique(sv.groups) && rels_unique(sv.rels)
}

/// Referential consistency: every relation points at an existing
/// repository and an existing group.
pub open spec fn closed(sv: StoreV) -> bool {
    forall|i: int|
        0 <= i < sv.rels.len() ==> has_repo(sv.repos, #[trigger] sv.rels[i].id) && has_group(
            sv.groups,
            sv.rels[i].group,
        )
}

// ---------------------------------------------------------------------
// characterisation lemmas
// ---------------------------------------------------------------------

/// What `repo_idx` finding (or missing) an entry means, element by
/// element.
pub proof fn lemma_repo_idx(rs: Seq<RepoV>, id: Seq<char>, n: int)
    requires
        n <= rs.len(),
    ensures
        match repo_idx(rs, id, n) {
            Some(i) => 0 <= i < n && rs[i].id == id && forall|j: int|
                0 <= j < i ==> rs[j].id != id,
            None => forall|j: int| 0 <= j < n ==> rs[j].id != id,
        },
    decreases n,
{
    if n > 0 {
        lemma_repo_idx(rs, id, n - 1);
    }
}

/// What `group_idx` finding (or missing) an entry means.
pub proof fn lemma_group_idx(gs: Seq<GroupV>, name: Seq<char>, n: int)
    requires
        n <= gs.len(),
    ensures
        match group_idx(gs, name, n) {
            Some(i) => 0 <= i < n && gs[i].name == name && forall|j: int|
                0 <= j < i ==> gs[j].name != name,
            None => forall|j: int| 0 <= j < n ==> gs[j].name != name,
        },
    decreases n,
{
    if n > 0 {
        lemma_group_idx(gs, name, n - 1);
    }
}

/// What `rel_idx` finding (or missing) a pair means.
pub proof fn lemma_rel_idx(ls: Seq<RelV>, id: Seq<char>, group: Seq<char>, n: int)
    requires
        n <= ls.len(),
    ensures
        match rel_idx(ls, id, group, n) {
            Some(i) => 0 <= i < n && ls[i].id == id && ls[i].group == group && forall|j: int|
                0 <= j < i ==> !(ls[j].id == id && ls[j].group == group),
            None => forall|j: int| 0 <= j < n ==> !(ls[j].id == id && ls[j].group == group),
        },
    decreases n,
{
    if n > 0 {
        lemma_rel_idx(ls, id, group, n - 1);
    }
}

/// A first match within a prefix stays the first match of any longer
/// prefix.
pub proof fn lemma_repo_idx_extend(rs: Seq<RepoV>, id: Seq<char>, m: int, n: int)
    requires
        0 <= m <= n,
        repo_idx(rs, id, m) is Some,
    ensures
        repo_idx(rs, id, n) == repo_idx(rs, id, m),
    decreases n,
{
    if n > m {
        lemma_repo_idx_extend(rs, id, m, n - 1);
    }
}

/// A first match within a prefix stays the first match of any longer
/// prefix.
pub proof fn lemma_group_idx_extend(gs: Seq<GroupV>, name: Seq<char>, m: int, n: int)
    requires
        0 <= m <= n,
        group_idx(gs, name, m) is Some,
    ensures
        group_idx(gs, name, n) == group_idx(gs, name, m),
    decreases n,
{
    if n > m {
        lemma_group_idx_extend(gs, name, m, n - 1);
    }
}

/// A first match within a prefix stays the first match of any longer
/// prefix.
pub proof fn lemma_rel_idx_extend(ls: Seq<RelV>, id: Seq<char>, group: Seq<char>, m: int, n: int)
    requires
        0 <= m <= n,
        rel_idx(ls, id, group, m) is Some,
    ensures
        rel_idx(ls, id, group, n) == rel_idx(ls, id, group, m),
    decreases n,
{
    if n > m {
        lemma_rel_idx_extend(ls, id, group, m, n - 1);
    }
}

/// A repository exists exactly when some position holds its identifier.
pub proof fn lemma_has_repo_iff(rs: Seq<RepoV>, id: Seq<char>)
    ensures
        has_repo(rs, id) <==> exists|j: int| 0 <= j < rs.len() && (#[trigger] rs[j].id) == id,
{
    lemma_repo_idx(rs, id, rs.len() as int);
}

/// A group exists exactly when some position holds its name.
pub proof fn lemma_has_group_iff(gs: Seq<GroupV>, name: Seq<char>)
    ensures
        has_group(gs, name) <==> exists|j: int| 0 <= j < gs.len() && (#[trigger] gs[j].name)
            == name,
{
    lemma_group_idx(gs, name, gs.len() as int);
}

/// A relation pair exists exactly when some position holds it.
pub proof fn lemma_has_rel_iff(ls: Seq<RelV>, id: Seq<char>, group: Seq<char>)
    ensures
        has_rel(ls, id, group) <==> exists|j: int|
            0 <= j < ls.len() && (#[trigger] ls[j]).id == id && ls[j].group == group,
{
    lemma_rel_idx(ls, id, group, ls.len() as int);
}

/// What surviving the deletion of repository `id` means, element by
/// element.
pub proof fn lemma_rels_drop_id_elts(ls: Seq<RelV>, id: Seq<char>, n: int)
    requires
        0 <= n <= ls.len(),
    ensures
        rels_drop_id(ls, id, n).len() <= n,
        forall|k: int|
            0 <= k < rels_drop_id(ls, id, n).len() ==> (#[trigger] rels_drop_id(ls, id, n)[k]).id
                != id && exists|j: int| 0 <= j < n && ls[j] == rels_drop_id(ls, id, n)[k],
        forall|j: int|
            0 <= j < n && (#[trigger] ls[j]).id != id ==> rels_drop_id(ls, id, n).contains(ls[j]),
        rels_unique(ls) ==> rels_unique(rels_drop_id(ls, id, n)),
    decreases n,
{
    if n > 0 {
        lemma_rels_drop_id_elts(ls, id, n - 1);
        let p = rels_drop_id(ls, id, n - 1);
        let r = rels_drop_id(ls, id, n);
        if ls[n - 1].id != id {
            assert(forall|j: int|
                0 <= j < n - 1 && (#[trigger] ls[j]).id != id ==> r.contains(ls[j])) by {
                assert(forall|j: int|
                    0 <= j < n - 1 && (#[trigger] ls[j]).id != id ==> {
                        let k = choose|k: int| 0 <= k < p.len() && p[k] == ls[j];
                        r[k] == ls[j]
                    });
            }
            assert(r[r.len() - 1] == ls[n - 1]);
            assert(r.contains(ls[n - 1]));
            if rels_unique(ls) {
                assert forall|a: int, b: int| 0 <= a < b < r.len() implies !(r[a].id == r[b].id
                    && r[a].group == r[b].group) by {
                    if b == r.len() - 1 {
                        let j = choose|j: int| 0 <= j < n - 1 && ls[j] == p[a];
                        assert(!(ls[j].id == ls[n - 1].id && ls[j].group == ls[n - 1].group));
                    }
                }
            }
        }
    }
}

/// What surviving the deletion of group `group` means, element by element.
pub proof fn lemma_rels_drop_group_elts(ls: Seq<RelV>, group: Seq<char>, n: int)
    requires
        0 <= n <= ls.len(),
    ensures
        rels_drop_group(ls, group, n).len() <= n,
        forall|k: int|
            0 <= k < rels_drop_group(ls, group, n).len() ==> (#[trigger] rels_drop_group(
                ls,
                group,
                n,
            )[k]).group != group && exists|j: int|
                0 <= j < n && ls[j] == rels_drop_group(ls, group, n)[k],
        forall|j: int|
            0 <= j < n && (#[trigger] ls[j]).group != group ==> rels_drop_group(
                ls,
                group,
                n,
            ).contains(ls[j]),
        rels_unique(ls) ==> rels_unique(rels_drop_group(ls, group, n)),
    decreases n,
{
    if n > 0 {
        lemma_rels_drop_group_elts(ls, group, n - 1);
        let p = rels_drop_group(ls, group, n - 1);
        let r = rels_drop_group(ls, group, n);
        if ls[n - 1].group != group {
            assert(forall|j: int|
                0 <= j < n - 1 && (#[trigger] ls[j]).group != group ==> r.contains(ls[j])) by {
                assert(forall|j: int|
                    0 <= j < n - 1 && (#[trigger] ls[j]).group != group ==> {
                        let k = choose|k: int| 0 <= k < p.len() && p[k] == ls[j];
                        r[k] == ls[j]
                    });
            }
            assert(r[r.len() - 1] == ls[n - 1]);
            assert(r.contains(ls[n - 1]));
            if rels_unique(ls) {
                assert forall|a: int, b: int| 0 <= a < b < r.len() implies !(r[a].id == r[b].id
                    && r[a].group == r[b].group) by {
                    if b == r.len() - 1 {
                        let j = choose|j: int| 0 <= j < n - 1 && ls[j] == p[a];
                        assert(!(ls[j].id == ls[n - 1].id && ls[j].group == ls[n - 1].group));
                    }
                }
            }
        }
    }
}

/// The relations of one group, element by element.
pub proof fn lemma_rels_of_group_elts(ls: Seq<RelV>, group: Seq<char>, n: int)
    requires
        0 <= n <= ls.len(),
    ensures
        rels_of_group(ls, group, n).len() <= n,
        forall|k: int|
            0 <= k < rels_of_group(ls, group, n).len() ==> (#[trigger] rels_of_group(
                ls,
                group,
                n,
            )[k]).group == group && exists|j: int|
                0 <= j < n && ls[j] == rels_of_group(ls, group, n)[k],
        forall|j: int|
            0 <= j < n && (#[trigger] ls[j]).group == group ==> rels_of_group(
                ls,
                group,
                n,
            ).contains(ls[j]),
    decreases n,
{
    if n > 0 {
        lemma_rels_of_group_elts(ls, group, n - 1);
        let p = rels_of_group(ls, group, n - 1);
        let r = rels_of_group(ls, group, n);
        if ls[n - 1].group == group {
            assert(forall|j: int|
                0 <= j < n - 1 && (#[trigger] ls[j]).group == group ==> r.contains(ls[j])) by {
                assert(forall|j: int|
                    0 <= j < n - 1 && (#[trigger] ls[j]).group == group ==> {
                        let k = choose|k: int| 0 <= k < p.len() && p[k] == ls[j];
                        r[k] == ls[j]
                    });
            }
            assert(r[r.len() - 1] == ls[n - 1]);
            assert(r.contains(ls[n - 1]));
        }
    }
}

/// Rewriting group pointers keeps length and touches exactly the
/// relations of the old name.
pub proof fn lemma_rels_rename_group_elts(
    ls: Seq<RelV>,
    old_name: Seq<char>,
    new_name: Seq<char>,
    n: int,
)
    requires
        0 <= n <= ls.len(),
    ensures
        rels_rename_group(ls, old_name, new_name, n).len() == n,
        forall|k: int|
            0 <= k < n ==> #[trigger] rels_rename_group(ls, old_name, new_name, n)[k] == (if ls[k].group
                == old_name {
                RelV { id: ls[k].id, group: new_name }
            } else {
                ls[k]
            }),
    decreases n,
{
    if n > 0 {
        lemma_rels_rename_group_elts(ls, old_name, new_name, n - 1);
    }
}

/// Rewriting repository pointers keeps length and touches exactly the
/// relations of the old identifier.
pub proof fn lemma_rels_rename_id_elts(
    ls: Seq<RelV>,
    old_id: Seq<char>,
    new_id: Seq<char>,
    n: int,
)
    requires
        0 <= n <= ls.len(),
    ensures
        rels_rename_id(ls, old_id, new_id, n).len() == n,
        forall|k: int|
            0 <= k < n ==> #[trigger] rels_rename_id(ls, old_id, new_id, n)[k] == (if ls[k].id
                == old_id {
                RelV { id: new_id, group: ls[k].group }
            } else {
                ls[k]
            }),
    decreases n,
{
    if n > 0 {
        lemma_rels_rename_id_elts(ls, old_id, new_id, n - 1);
    }
}

/// Auto-creation appends exactly the missing names, once each, after the
/// groups already stored, which stay untouched.
pub proof fn lemma_add_missing_groups_elts(gs: Seq<GroupV>, names: Seq<Seq<char>>, n: int)
    requires
        0 <= n <= names.len(),
    ensures
        gs.len() <= add_missing_groups(gs, names, n).len(),
        forall|j: int|
            0 <= j < gs.len() ==> #[trigger] add_missing_groups(gs, names, n)[j] == gs[j],
        forall|k: int| 0 <= k < n ==> has_group(add_missing_groups(gs, names, n), #[trigger] names[k]),
        forall|x: Seq<char>|
            has_group(gs, x) ==> has_group(add_missing_groups(gs, names, n), x),
        forall|j: int|
            gs.len() <= j < add_missing_groups(gs, names, n).len() ==> {
                let g = #[trigger] add_missing_groups(gs, names, n)[j];
                g.note == Seq::<char>::empty() && g.abbrev == Some(false) && !has_group(gs, g.name)
                    && exists|k: int| 0 <= k < n && names[k] == g.name
            },
        groups_unique(gs) ==> groups_unique(add_missing_groups(gs, names, n)),
    decreases n,
{
    if n > 0 {
        lemma_add_missing_groups_elts(gs, names, n - 1);
        let p = add_missing_groups(gs, names, n - 1);
        let r = add_missing_groups(gs, names, n);
        assert forall|x: Seq<char>| has_group(p, x) implies has_group(r, x) by {
            lemma_has_group_iff(p, x);
            lemma_has_group_iff(r, x);
            let j = choose|j: int| 0 <= j < p.len() && p[j].name == x;
            assert(r[j].name == x);
        }
        if !has_group(p, names[n - 1]) {
            lemma_has_group_iff(r, names[n - 1]);
            assert(r[r.len() - 1].name == names[n - 1]);
            assert(has_group(r, names[n - 1]));
            assert forall|j: int| gs.len() <= j < r.len() implies {
                let g = #[trigger] r[j];
                g.note == Seq::<char>::empty() && g.abbrev == Some(false) && !has_group(gs, g.name)
                    && exists|k: int| 0 <= k < n && names[k] == g.name
            } by {
                if j == r.len() - 1 {
                    lemma_has_group_iff(gs, names[n - 1]);
                    assert(names[n - 1 as int] == r[j].name);
                }
            }
            if groups_unique(p) {
                assert forall|a: int, b: int| 0 <= a < b < r.len() implies r[a].name != r[b].name by {
                    if b == r.len() - 1 {
                        lemma_has_group_iff(p, names[n - 1]);
                    }
                }
            }
        }
    }
}

/// Relating a list of names appends exactly the missing pairs for `id`,
/// once each, after the relations already stored, which stay untouched.
pub proof fn lemma_add_relations_elts(ls: Seq<RelV>, id: Seq<char>, names: Seq<Seq<char>>, n: int)
    requires
        0 <= n <= names.len(),
    ensures
        ls.len() <= add_relations(ls, id, names, n).len(),
        forall|j: int| 0 <= j < ls.len() ==> #[trigger] add_relations(ls, id, names, n)[j] == ls[j],
        forall|k: int| 0 <= k < n ==> has_rel(add_relations(ls, id, names, n), id, #[trigger] names[k]),
        forall|a: Seq<char>, b: Seq<char>|
            has_rel(ls, a, b) ==> has_rel(add_relations(ls, id, names, n), a, b),
        forall|j: int|
            ls.len() <= j < add_relations(ls, id, names, n).len() ==> {
                let l = #[trigger] add_relations(ls, id, names, n)[j];
                l.id == id && !has_rel(ls, id, l.group) && exists|k: int|
                    0 <= k < n && names[k] == l.group
            },
        rels_unique(ls) ==> rels_unique(add_relations(ls, id, names, n)),
    decreases n,
{
    if n > 0 {
        lemma_add_relations_elts(ls, id, names, n - 1);
        let p = add_relations(ls, id, names, n - 1);
        let r = add_relations(ls, id, names, n);
        assert forall|a: Seq<char>, b: Seq<char>| has_rel(p, a, b) implies has_rel(r, a, b) by {
            lemma_has_rel_iff(p, a, b);
            lemma_has_rel_iff(r, a, b);
            let j = choose|j: int| 0 <= j < p.len() && p[j].id == a && p[j].group == b;
            assert(r[j].id == a && r[j].group == b);
        }
        if !has_rel(p, id, names[n - 1]) {
            lemma_has_rel_iff(r, id, names[n - 1]);
            assert(r[r.len() - 1].id == id && r[r.len() - 1].group == names[n - 1]);
            assert(has_rel(r, id, names[n - 1]));
            assert forall|j: int| ls.len() <= j < r.len() implies {
                let l = #[trigger] r[j];
                l.id == id && !has_rel(ls, id, l.group) && exists|k: int|
                    0 <= k < n && names[k] == l.group
            } by {
                if j == r.len() - 1 {
                    lemma_has_rel_iff(ls, id, names[n - 1]);
                    lemma_has_rel_iff(p, id, names[n - 1]);
                    assert(names[n - 1 as int] == r[j].group);
                }
            }
            if rels_unique(p) {
                assert forall|a: int, b: int| 0 <= a < b < r.len() implies !(r[a].id == r[b].id
                    && r[a].group == r[b].group) by {
                    if b == r.len() - 1 {
                        lemma_has_rel_iff(p, id, names[n - 1]);
                    }
                }
            }
        }
    }
}

/// Dropping a group's relations is the identity when none carries the
/// group.
pub proof fn lemma_rels_drop_group_noop(ls: Seq<RelV>, group: Seq<char>, n: int)
    requires
        0 <= n <= ls.len(),
        forall|k: int| 0 <= k < n ==> (#[trigger] ls[k]).group != group,
    ensures
        rels_drop_group(ls, group, n) == ls.take(n),
    decreases n,
{
    if n > 0 {
        lemma_rels_drop_group_noop(ls, group, n - 1);
        assert(rels_drop_group(ls, group, n) =~= ls.take(n));
    } else {
        assert(rels_drop_group(ls, group, n) =~= ls.take(n));
    }
}

/// When every relation points at a stored repository, the member list of
/// a group is as long as its relation list.
pub proof fn lemma_repos_of_len(rs: Seq<RepoV>, ls: Seq<RelV>, group: Seq<char>, n: int)
    requires
        0 <= n <= ls.len(),
        forall|k: int| 0 <= k < n ==> has_repo(rs, (#[trigger] ls[k]).id),
    ensures
        repos_of(rs, ls, group, n).len() == rels_of_group(ls, group, n).len(),
    decreases n,
{
    if n > 0 {
        lemma_repos_of_len(rs, ls, group, n - 1);
        if ls[n - 1].group == group {
            assert(has_repo(rs, ls[n - 1].id));
            lemma_repo_idx(rs, ls[n - 1].id, rs.len() as int);
        }
    }
}

/// Registering a repository under names that are not yet groups creates
/// each missing group exactly once — the group list stays duplicate
/// free and every listed name is present — and each listed pair is
/// related, so that relating the same pair again afterwards leaves the
/// relation list exactly as it is.
pub proof fn lemma_register_then_relate(sv: StoreV, r: RepoV, names: Seq<Seq<char>>, k: int)
    requires
        wf(sv),
        !has_repo(sv.repos, r.id),
        0 <= k < names.len(),
    ensures
        has_group(spec_register(sv, r, names).groups, names[k]),
        groups_unique(spec_register(sv, r, names).groups),
        rels_unique(spec_register(sv, r, names).rels),
        has_rel(spec_register(sv, r, names).rels, r.id, names[k]),
        relate_v(spec_register(sv, r, names).rels, r.id, names[k]) == spec_register(
            sv,
            r,
            names,
        ).rels,
{
    lemma_add_missing_groups_elts(sv.groups, names, names.len() as int);
    lemma_add_relations_elts(sv.rels, r.id, names, names.len() as int);
}

/// Deleting the group at its index removes exactly that name from the
/// name space, provided names are unique.
pub proof fn lemma_delete_group_membership(gs: Seq<GroupV>, name: Seq<char>, gi: int)
    requires
        groups_unique(gs),
        group_idx(gs, name, gs.len() as int) == Some(gi),
    ensures
        forall|x: Seq<char>|
            #[trigger] has_group(gs.remove(gi), x) <==> (has_group(gs, x) && x != name),
{
    lemma_group_idx(gs, name, gs.len() as int);
    assert forall|x: Seq<char>|
        #[trigger] has_group(gs.remove(gi), x) <==> (has_group(gs, x) && x != name) by {
        lemma_has_group_iff(gs.remove(gi), x);
        lemma_has_group_iff(gs, x);
        if has_group(gs.remove(gi), x) {
            let m = choose|m: int| 0 <= m < gs.remove(gi).len() && gs.remove(gi)[m].name == x;
            if m < gi {
                assert(gs[m].name == x);
            } else {
                assert(gs[m + 1].name == x);
            }
        }
        if has_group(gs, x) && x != name {
            let m = choose|m: int| 0 <= m < gs.len() && gs[m].name == x;
            assert(gs[gi].name == name);
            assert(m != gi);
            if m < gi {
                assert(gs.remove(gi)[m].name == x);
            } else {
                assert(gs.remove(gi)[m - 1].name == x);
            }
        }
    }
}

/// Deleting the repository at its index removes exactly that identifier,
/// provided identifiers are unique.
pub proof fn lemma_delete_repo_membership(rs: Seq<RepoV>, id: Seq<char>, ri: int)
    requires
        repos_unique(rs),
        repo_idx(rs, id, rs.len() as int) == Some(ri),
    ensures
        forall|x: Seq<char>|
            #[trigger] has_repo(rs.remove(ri), x) <==> (has_repo(rs, x) && x != id),
{
    lemma_repo_idx(rs, id, rs.len() as int);
    assert forall|x: Seq<char>|
        #[trigger] has_repo(rs.remove(ri), x) <==> (has_repo(rs, x) && x != id) by {
        lemma_has_repo_iff(rs.remove(ri), x);
        lemma_has_repo_iff(rs, x);
        if has_repo(rs.remove(ri), x) {
            let m = choose|m: int| 0 <= m < rs.remove(ri).len() && rs.remove(ri)[m].id == x;
            if m < ri {
                assert(rs[m].id == x);
            } else {
                assert(rs[m + 1].id == x);
            }
        }
        if has_repo(rs, x) && x != id {
            let m = choose|m: int| 0 <= m < rs.len() && rs[m].id == x;
            assert(rs[ri].id == id);
            assert(m != ri);
            if m < ri {
                assert(rs.remove(ri)[m].id == x);
            } else {
                assert(rs.remove(ri)[m - 1].id == x);
            }
        }
    }
}

/// Dropping a group's relations removes exactly the pairs naming it.
pub proof fn lemma_drop_group_membership(ls: Seq<RelV>, group: Seq<char>)
    ensures
        forall|a: Seq<char>, b: Seq<char>|
            #[trigger] has_rel(rels_drop_group(ls, group, ls.len() as int), a, b) <==> (has_rel(
                ls,
                a,
                b,
            ) && b != group),
{
    lemma_rels_drop_group_elts(ls, group, ls.len() as int);
    let d = rels_drop_group(ls, group, ls.len() as int);
    assert forall|a: Seq<char>, b: Seq<char>|
        #[trigger] has_rel(d, a, b) <==> (has_rel(ls, a, b) && b != group) by {
        lemma_has_rel_iff(d, a, b);
        lemma_has_rel_iff(ls, a, b);
        if has_rel(d, a, b) {
            let m = choose|m: int| 0 <= m < d.len() && d[m].id == a && d[m].group == b;
            let j = choose|j: int| 0 <= j < ls.len() && ls[j] == d[m];
            assert(ls[j].id == a && ls[j].group == b);
        }
        if has_rel(ls, a, b) && b != group {
            let j = choose|j: int| 0 <= j < ls.len() && ls[j].id == a && ls[j].group == b;
            assert(d.contains(ls[j]));
            let m = choose|m: int| 0 <= m < d.len() && d[m] == ls[j];
            assert(d[m].id == a && d[m].group == b);
        }
    }
}

/// Dropping a repository's relations removes exactly the pairs naming it.
pub proof fn lemma_drop_id_membership(ls: Seq<RelV>, id: Seq<char>)
    ensures
        forall|a: Seq<char>, b: Seq<char>|
            #[trigger] has_rel(rels_drop_id(ls, id, ls.len() as int), a, b) <==> (has_rel(ls, a, b)
                && a != id),
{
    lemma_rels_drop_id_elts(ls, id, ls.len() as int);
    let d = rels_drop_id(ls, id, ls.len() as int);
    assert forall|a: Seq<char>, b: Seq<char>|
        #[trigger] has_rel(d, a, b) <==> (has_rel(ls, a, b) && a != id) by {
        lemma_has_rel_iff(d, a, b);
        lemma_has_rel_iff(ls, a, b);
        if has_rel(d, a, b) {
            let m = choose|m: int| 0 <= m < d.len() && d[m].id == a && d[m].group == b;
            let j = choose|j: int| 0 <= j < ls.len() && ls[j] == d[m];
            assert(ls[j].id == a && ls[j].group == b);
        }
        if has_rel(ls, a, b) && a != id {
            let j = choose|j: int| 0 <= j < ls.len() && ls[j].id == a && ls[j].group == b;
            assert(d.contains(ls[j]));
            let m = choose|m: int| 0 <= m < d.len() && d[m] == ls[j];
            assert(d[m].id == a && d[m].group == b);
        }
    }
}

/// Appending a group adds exactly its name to the name space.
pub proof fn lemma_push_group_membership(gs: Seq<GroupV>, g: GroupV)
    ensures
        forall|x: Seq<char>|
            #[trigger] has_group(gs.push(g), x) <==> (has_group(gs, x) || x == g.name),
{
    assert forall|x: Seq<char>|
        #[trigger] has_group(gs.push(g), x) <==> (has_group(gs, x) || x == g.name) by {
        lemma_has_group_iff(gs.push(g), x);
        lemma_has_group_iff(gs, x);
        if has_group(gs.push(g), x) {
            let m = choose|m: int| 0 <= m < gs.push(g).len() && gs.push(g)[m].name == x;
            if m < gs.len() {
                assert(gs[m].name == x);
            }
        }
        if has_group(gs, x) {
            let m = choose|m: int| 0 <= m < gs.len() && gs[m].name == x;
            assert(gs.push(g)[m].name == x);
        }
        if x == g.name {
            assert(gs.push(g)[gs.len() as int].name == x);
        }
    }
}

/// Appending a repository adds exactly its identifier to the key space.
pub proof fn lemma_push_repo_membership(rs: Seq<RepoV>, r: RepoV)
    ensures
        forall|x: Seq<char>|
            #[trigger] has_repo(rs.push(r), x) <==> (has_repo(rs, x) || x == r.id),
{
    assert forall|x: Seq<char>|
        #[trigger] has_repo(rs.push(r), x) <==> (has_repo(rs, x) || x == r.id) by {
        lemma_has_repo_iff(rs.push(r), x);
        lemma_has_repo_iff(rs, x);
        if has_repo(rs.push(r), x) {
            let m = choose|m: int| 0 <= m < rs.push(r).len() && rs.push(r)[m].id == x;
            if m < rs.len() {
                assert(rs[m].id == x);
            }
        }
        if has_repo(rs, x) {
            let m = choose|m: int| 0 <= m < rs.len() && rs[m].id == x;
            assert(rs.push(r)[m].id == x);
        }
        if x == r.id {
            assert(rs.push(r)[rs.len() as int].id == x);
        }
    }
}

/// The read-only lookups over the current snapshot.
pub trait RefDB {
    /// The mathematical image of the snapshot read.
    spec fn sv(&self) -> StoreV;

    /// The first repository stored under `id`.
    fn find_repository(&self, id: &str) -> (r: Option<Repository>)
        ensures
            r.deep_view() == find_repo(self.sv().repos, id@),
    ;

    /// The joined view of a repository with its groups; `None` exactly
    /// when the repository itself is absent.
    fn find_repository_with_groups(&self, id: &str) -> (r: Option<RepositoryWithGroups>)
        ensures
            match r {
                Some(rg) => has_repo(self.sv().repos, id@) && rg.repo.deep_view() == find_repo(
                    self.sv().repos,
                    id@,
                )->Some_0 && rg.groups.deep_view() == groups_of(
                    self.sv().groups,
                    self.sv().rels,
                    id@,
                    self.sv().rels.len() as int,
                ),
                None => !has_repo(self.sv().repos, id@),
            },
    ;

    /// The first group stored under `name`.
    fn find_group(&self, name: &str) -> (r: Option<Group>)
        ensures
            r.deep_view() == find_group_v(self.sv().groups, name@),
    ;

    /// The groups related to repository `id`, in relation insertion
    /// order.
    fn find_groups_of(&self, id: &str) -> (r: Result<Vec<Group>, RrhError>)
        ensures
            r is Ok,
            r->Ok_0.deep_view() == groups_of(
                self.sv().groups,
                self.sv().rels,
                id@,
                self.sv().rels.len() as int,
            ),
    ;

    /// The repositories related to group `group_name`, in relation
    /// insertion order.
    fn find_repositories_of(&self, group_name: &str) -> (r: Result<Vec<Repository>, RrhError>)
        ensures
            r is Ok,
            r->Ok_0.deep_view() == repos_of(
                self.sv().repos,
                self.sv().rels,
                group_name@,
                self.sv().rels.len() as int,
            ),
    ;

    /// Whether the relation pair is stored.
    fn has_relation(&self, repo_id: &str, group_name: &str) -> (r: bool)
        ensures
            r == has_rel(self.sv().rels, repo_id@, group_name@),
    ;

    /// The stored relation equal to the pair, if any.
    fn find_relation(&self, repo_id: &str, group_name: &str) -> (r: Option<Relation>)
        ensures
            match r {
                Some(l) => has_rel(self.sv().rels, repo_id@, group_name@) && l@.id == repo_id@
                    && l@.group == group_name@,
                None => !has_rel(self.sv().rels, repo_id@, group_name@),
            },
    ;

    /// Every relation of one repository, in order.
    fn find_relation_with_repository(&self, repo_id: &str) -> (r: Vec<Relation>)
        ensures
            r.deep_view() == rels_of_id(self.sv().rels, repo_id@, self.sv().rels.len() as int),
    ;

    /// Every relation of one group, in order.
    fn find_relation_with_group(&self, group_name: &str) -> (r: Vec<Relation>)
        ensures
            r.deep_view() == rels_of_group(
                self.sv().rels,
                group_name@,
                self.sv().rels.len() as int,
            ),
    ;

    /// A copy of the whole group list.
    fn groups(&self) -> (r: Result<Vec<Group>, RrhError>)
        ensures
            r is Ok,
            r->Ok_0.deep_view() == self.sv().groups,
    ;

    /// Every group name with that group's members; a group with none is
    /// present with an empty list.
    fn group_repositories(&self) -> (r: Result<Vec<(String, Vec<Repository>)>, RrhError>)
        ensures
            r is Ok,
            r->Ok_0.len() == self.sv().groups.len(),
            forall|i: int|
                0 <= i < self.sv().groups.len() ==> (#[trigger] r->Ok_0@[i]).0@
                    == self.sv().groups[i].name && r->Ok_0@[i].1.deep_view() == repos_of(
                    self.sv().repos,
                    self.sv().rels,
                    self.sv().groups[i].name,
                    self.sv().rels.len() as int,
                ),
    ;

    /// A copy of the whole repository list.
    fn repositories(&self) -> (r: Result<Vec<Repository>, RrhError>)
        ensures
            r is Ok,
            r->Ok_0.deep_view() == self.sv().repos,
    ;
}

/// The structural edits over the snapshot.
pub trait Database: RefDB {
    /// Registers a repository under the given group names; the
    /// identifier must be fresh, missing groups are auto-created, one
    /// relation per name is created idempotently.
    fn register(&mut self, r: Repository, group_names: Vec<String>) -> (res: Result<(), RrhError>)
        requires
            wf(old(self).sv()),
        ensures
            wf(final(self).sv()),
            closed(old(self).sv()) ==> closed(final(self).sv()),
            match res {
                Ok(()) => !has_repo(old(self).sv().repos, r@.id) && final(self).sv()
                    == spec_register(old(self).sv(), r@, group_names.deep_view()),
                Err(e) => has_repo(old(self).sv().repos, r@.id) && final(self).sv() == old(
                    self,
                ).sv() && (e matches RrhError::RepositoryExists(n) && n@ == r@.id),
            },
    ;

    /// Adds a group; fails when the name is taken.
    fn register_group(&mut self, g: Group) -> (r: Result<(), RrhError>)
        requires
            wf(old(self).sv()),
        ensures
            wf(final(self).sv()),
            closed(old(self).sv()) ==> closed(final(self).sv()),
            match r {
                Ok(()) => !has_group(old(self).sv().groups, g@.name) && final(self).sv().groups
                    == old(self).sv().groups.push(g@) && final(self).sv().repos == old(
                    self,
                ).sv().repos && final(self).sv().rels == old(self).sv().rels,
                Err(e) => has_group(old(self).sv().groups, g@.name) && final(self).sv() == old(
                    self,
                ).sv() && (e matches RrhError::GroupExists(n) && n@ == g@.name),
            },
    ;

    /// Replaces the group under `name` and re-points its relations.
    fn update_group(&mut self, name: String, group: Group) -> (r: Result<(), RrhError>)
        requires
            wf(old(self).sv()),
            closed(old(self).sv()),
            group@.name == name@ || !has_group(old(self).sv().groups, group@.name),
        ensures
            wf(final(self).sv()),
            closed(final(self).sv()),
            match r {
                Ok(()) => has_group(old(self).sv().groups, name@) && final(self).sv()
                    == spec_update_group(old(self).sv(), name@, group@),
                Err(e) => !has_group(old(self).sv().groups, name@) && final(self).sv() == old(
                    self,
                ).sv() && (e matches RrhError::GroupNotFound(n) && n@ == name@),
            },
    ;

    /// Replaces the repository under `id` in place; relations are not
    /// rewritten here.
    fn update_repository(&mut self, id: String, r: Repository) -> (res: Result<(), RrhError>)
        requires
            wf(old(self).sv()),
            r@.id == id@ || !has_repo(old(self).sv().repos, r@.id),
        ensures
            wf(final(self).sv()),
            match res {
                Ok(()) => has_repo(old(self).sv().repos, id@) && final(self).sv()
                    == spec_update_repository(old(self).sv(), id@, r@),
                Err(e) => !has_repo(old(self).sv().repos, id@) && final(self).sv() == old(
                    self,
                ).sv() && (e matches RrhError::RepositoryNotFound(n) && n@ == id@),
            },
    ;

    /// Creates the pair when absent; hands the stored one back
    /// otherwise. Both end points must exist.
    fn relate(&mut self, id: String, group_name: String) -> (r: Result<Relation, RrhError>)
        requires
            wf(old(self).sv()),
            has_repo(old(self).sv().repos, id@),
            has_group(old(self).sv().groups, group_name@),
        ensures
            wf(final(self).sv()),
            closed(old(self).sv()) ==> closed(final(self).sv()),
            r is Ok,
            final(self).sv().rels == relate_v(old(self).sv().rels, id@, group_name@),
            has_rel(old(self).sv().rels, id@, group_name@) ==> final(self).sv() == old(self).sv(),
    ;

    /// Removes the pair; fails when it is absent.
    fn delete_relation(&mut self, id: String, group_name: String) -> (r: Result<(), RrhError>)
        requires
            wf(old(self).sv()),
        ensures
            wf(final(self).sv()),
            closed(old(self).sv()) ==> closed(final(self).sv()),
            match r {
                Ok(()) => has_rel(old(self).sv().rels, id@, group_name@) && final(self).sv()
                    == spec_delete_relation(old(self).sv(), id@, group_name@),
                Err(e) => !has_rel(old(self).sv().rels, id@, group_name@) && final(self).sv()
                    == old(self).sv() && (e matches RrhError::RelationNotFound(a, b) && a@ == id@
                    && b@ == group_name@),
            },
    ;

    /// Removes the repository and every relation referencing it.
    fn delete_repository(&mut self, id: String) -> (r: Result<(), RrhError>)
        requires
            wf(old(self).sv()),
        ensures
            wf(final(self).sv()),
            closed(old(self).sv()) ==> closed(final(self).sv()),
            match r {
                Ok(()) => has_repo(old(self).sv().repos, id@) && final(self).sv()
                    == spec_delete_repository(old(self).sv(), id@),
                Err(e) => !has_repo(old(self).sv().repos, id@) && final(self).sv() == old(
                    self,
                ).sv() && (e matches RrhError::RepositoryNotFound(n) && n@ == id@),
            },
    ;

    /// Removes the group and every relation referencing it.
    fn delete_group(&mut self, group_name: String) -> (r: Result<(), RrhError>)
        requires
            wf(old(self).sv()),
        ensures
            wf(final(self).sv()),
            closed(old(self).sv()) ==> closed(final(self).sv()),
            match r {
                Ok(()) => has_group(old(self).sv().groups, group_name@) && final(self).sv()
                    == spec_delete_group(old(self).sv(), group_name@),
                Err(e) => !has_group(old(self).sv().groups, group_name@) && final(self).sv()
                    == old(self).sv() && (e matches RrhError::GroupNotFound(n) && n@
                    == group_name@),
            },
    ;

    /// Refreshes the modification stamp and renders the whole snapshot
    /// for persistence.
    fn store(&mut self, now: u64) -> (r: String)
        ensures
            final(self).sv().last_modified == now,
            final(self).sv().repos == old(self).sv().repos,
            final(self).sv().groups == old(self).sv().groups,
            final(self).sv().rels == old(self).sv().rels,
            r@ == crate::db::codec::enc_db(final(self).sv()),
    ;
}

/// Anything that can write itself out as one document.
pub trait Exportable {
    /// The mathematical image of what is exported.
    spec fn exported(&self) -> StoreV;

    /// The document.
    fn export(&self) -> (r: Result<String, RrhError>)
        ensures
            r is Ok,
            r->Ok_0@ == crate::db::codec::enc_db(self.exported()),
    ;
}

} // verus!
