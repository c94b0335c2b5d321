//! Pruning and the flat-namespace commands: computing the candidate sets
//! (groups with no members, repositories whose path is gone), deleting
//! them, and resolving a bare name to a repository or a group for rename
//! and remove.
use vstd::prelude::*;

use crate::cli::{
    GroupRemoveOpts, GroupUpdateOpts, PruneOpts, RemoveOpts, RenameOpts, RepositoryRemoveOpts,
    RepositoryUpdateOpts, RrhError,
};
use crate::commands::{group, repository};
use crate::config::Context;
use crate::db::jsondb::JsonDB;
use crate::db::{
    closed, find_group_v, has_group, has_rel, has_repo, lemma_has_group_iff, lemma_has_repo_iff,
    lemma_rels_drop_group_noop, lemma_rels_of_group_elts, lemma_repos_of_len, repos_of,
    rels_of_group, spec_update_group, wf,
};
use crate::entities::{Group, Repository};
use crate::utils::format_humanize;
use vstd::string::StringExecFns;

verus! {

/// The names of the groups with no members among the first `n`.
pub open spec fn empty_group_names(sv: crate::db::StoreV, n: int) -> Seq<Seq<char>>
    decreases n,
{
    if n <= 0 {
        Seq::empty()
    } else {
        let p = empty_group_names(sv, n - 1);
        if repos_of(sv.repos, sv.rels, sv.groups[n - 1].name, sv.rels.len() as int).len() == 0 {
            p.push(sv.groups[n - 1].name)
        } else {
            p
        }
    }
}

/// Every listed candidate name belongs to a group with no members; each
/// candidate is a stored group's name, and — names being unique — no
/// candidate is listed twice.
proof fn lemma_empty_group_names_elts(sv: crate::db::StoreV, n: int)
    requires
        0 <= n <= sv.groups.len(),
        crate::db::groups_unique(sv.groups),
    ensures
        forall|k: int|
            0 <= k < empty_group_names(sv, n).len() ==> repos_of(
                sv.repos,
                sv.rels,
                #[trigger] empty_group_names(sv, n)[k],
                sv.rels.len() as int,
            ).len() == 0,
        forall|k: int|
            0 <= k < empty_group_names(sv, n).len() ==> exists|j: int|
                0 <= j < n && #[trigger] empty_group_names(sv, n)[k] == sv.groups[j].name,
        forall|k: int, l: int|
            0 <= k < l < empty_group_names(sv, n).len() ==> empty_group_names(sv, n)[k]
                != empty_group_names(sv, n)[l],
        forall|k: int|
            0 <= k < empty_group_names(sv, n).len() ==> has_group(
                sv.groups,
                #[trigger] empty_group_names(sv, n)[k],
            ),
    decreases n,
{
    if n > 0 {
        lemma_empty_group_names_elts(sv, n - 1);
        let p = empty_group_names(sv, n - 1);
        let r = empty_group_names(sv, n);
        assert forall|k: int|
            0 <= k < r.len() implies repos_of(
            sv.repos,
            sv.rels,
            #[trigger] r[k],
            sv.rels.len() as int,
        ).len() == 0 && (exists|j: int| 0 <= j < n && r[k] == sv.groups[j].name) && has_group(
            sv.groups,
            r[k],
        ) by {
            if k < p.len() {
                assert(r[k] == p[k]);
                let j = choose|j: int| 0 <= j < n - 1 && p[k] == sv.groups[j].name;
                assert(r[k] == sv.groups[j].name);
                lemma_has_group_iff(sv.groups, r[k]);
            } else {
                assert(r[k] == sv.groups[n - 1].name);
                lemma_has_group_iff(sv.groups, r[k]);
            }
        }
        assert forall|k: int, l: int| 0 <= k < l < r.len() implies r[k] != r[l] by {
            if l < p.len() {
            } else {
                let j = choose|j: int| 0 <= j < n - 1 && p[k] == sv.groups[j].name;
                assert(r[l] == sv.groups[n - 1].name);
                assert(r[k] == sv.groups[j].name);
            }
        }
    }
}

/// Every flagged repository is a stored record; identifiers being
/// unique, no identifier is flagged twice.
proof fn lemma_missing_path_repos_elts(
    rs: Seq<crate::entities::RepoV>,
    ex: Seq<bool>,
    n: int,
)
    requires
        0 <= n <= rs.len(),
        ex.len() == rs.len(),
        crate::db::repos_unique(rs),
    ensures
        forall|k: int|
            0 <= k < missing_path_repos(rs, ex, n).len() ==> exists|j: int|
                0 <= j < n && #[trigger] missing_path_repos(rs, ex, n)[k] == rs[j],
        forall|k: int, l: int|
            0 <= k < l < missing_path_repos(rs, ex, n).len() ==> missing_path_repos(
                rs,
                ex,
                n,
            )[k].id != missing_path_repos(rs, ex, n)[l].id,
        forall|k: int|
            0 <= k < missing_path_repos(rs, ex, n).len() ==> has_repo(
                rs,
                (#[trigger] missing_path_repos(rs, ex, n)[k]).id,
            ),
    decreases n,
{
    if n > 0 {
        lemma_missing_path_repos_elts(rs, ex, n - 1);
        let p = missing_path_repos(rs, ex, n - 1);
        let r = missing_path_repos(rs, ex, n);
        assert forall|k: int|
            0 <= k < r.len() implies (exists|j: int| 0 <= j < n && #[trigger] r[k] == rs[j])
            && has_repo(rs, r[k].id) by {
            if k < p.len() {
                assert(r[k] == p[k]);
                let j = choose|j: int| 0 <= j < n - 1 && p[k] == rs[j];
                assert(r[k] == rs[j]);
                lemma_has_repo_iff(rs, r[k].id);
            } else {
                assert(r[k] == rs[n - 1]);
                lemma_has_repo_iff(rs, r[k].id);
            }
        }
        assert forall|k: int, l: int| 0 <= k < l < r.len() implies r[k].id != r[l].id by {
            if l < p.len() {
            } else {
                let j = choose|j: int| 0 <= j < n - 1 && p[k] == rs[j];
                assert(r[l] == rs[n - 1]);
                assert(r[k] == rs[j]);
            }
        }
    }
}

/// Whether a group has no members.
pub fn is_empty_group(db: &JsonDB, group_name: &str) -> (r: bool)
    ensures
        r == (repos_of(db@.repos, db@.rels, group_name@, db@.rels.len() as int).len() == 0),
{
    match db.find_repositories_of(group_name) {
        Ok(rs) => rs.len() == 0,
        Err(_) => false,
    }
}

/// Every group with no members, in group order.
pub fn find_empty_groups(db: &JsonDB) -> (r: Vec<String>)
    ensures
        r.deep_view() == empty_group_names(db@, db@.groups.len() as int),
{
    let n = db.groups.len();
    let mut out: Vec<String> = Vec::new();
    let mut i: usize = 0;
    while i < n
        invariant
            n == db.groups.len(),
            i <= n,
            out.deep_view() == empty_group_names(db@, i as int),
        decreases n - i,
    {
        if is_empty_group(db, db.groups[i].name.as_str()) {
            out.push(db.groups[i].name.clone());
            proof {
                assert(out.deep_view() =~= empty_group_names(db@, i + 1 as int));
            }
        } else {
            proof {
                assert(out.deep_view() =~= empty_group_names(db@, i + 1 as int));
            }
        }
        i = i + 1;
    }
    out
}

/// The repositories flagged as having no path, among the first `n`.
pub open spec fn missing_path_repos(
    rs: Seq<crate::entities::RepoV>,
    ex: Seq<bool>,
    n: int,
) -> Seq<crate::entities::RepoV>
    decreases n,
{
    if n <= 0 {
        Seq::empty()
    } else {
        let p = missing_path_repos(rs, ex, n - 1);
        if !ex[n - 1] {
            p.push(rs[n - 1])
        } else {
            p
        }
    }
}

/// Every repository whose path the caller found missing, in store order;
/// the flags line up with the repository list.
pub fn find_non_exists_path_repositoreis(db: &JsonDB, path_exists: &Vec<bool>) -> (r: Vec<
    Repository,
>)
    requires
        path_exists@.len() == db@.repos.len(),
    ensures
        r.deep_view() == missing_path_repos(db@.repos, path_exists@, db@.repos.len() as int),
{
    let n = db.repositories.len();
    let mut out: Vec<Repository> = Vec::new();
    let mut i: usize = 0;
    while i < n
        invariant
            n == db.repositories.len(),
            n == path_exists@.len(),
            i <= n,
            out.deep_view() == missing_path_repos(db@.repos, path_exists@, i as int),
        decreases n - i,
    {
        if !path_exists[i] {
            out.push(db.repositories[i].clone());
            proof {
                assert(out.deep_view() =~= missing_path_repos(
                    db@.repos,
                    path_exists@,
                    i + 1 as int,
                ));
            }
        } else {
            proof {
                assert(out.deep_view() =~= missing_path_repos(
                    db@.repos,
                    path_exists@,
                    i + 1 as int,
                ));
            }
        }
        i = i + 1;
    }
    out
}

/// The confirmation question naming both candidate counts.
pub fn build_inquiry_message(g: &Vec<String>, r: &Vec<Repository>) -> (out: String)
{
    let mut out = "found ".to_owned();
    out.append(format_humanize(g.len(), "empty group", "empty groups").as_str());
    out.append(", and ");
    out.append(
        format_humanize(r.len(), "non-exists path repository", "non-exists path repositories")
            .as_str(),
    );
    out.append(". Do you want to delete them?");
    out
}

/// Whether every listed target can be deleted: groups present, listed
/// once and relation free; repository identifiers present and listed
/// once.
pub open spec fn prunable(
    sv: crate::db::StoreV,
    tg: Seq<String>,
    tr: Seq<Repository>,
) -> bool {
    &&& (forall|k: int| 0 <= k < tg.len() ==> has_group(sv.groups, (#[trigger] tg[k])@))
    &&& (forall|k: int, l: int| 0 <= k < l < tg.len() ==> tg[k]@ != tg[l]@)
    &&& (forall|k: int| 0 <= k < tr.len() ==> has_repo(sv.repos, (#[trigger] tr[k])@.id))
    &&& (forall|k: int, l: int| 0 <= k < l < tr.len() ==> tr[k]@.id != tr[l]@.id)
}

/// Deletes every candidate group and candidate repository; failures are
/// collected and the rest are deleted all the same. Deletion is owed
/// whenever every target is present and listed once, and nothing beyond
/// the targets is touched.
#[verifier::loop_isolation(false)]
pub fn prune_impl(c: &mut Context, target_groups: Vec<String>, target_repos: Vec<Repository>) -> (r:
    Result<bool, RrhError>)
    requires
        wf(old(c).db@),
        closed(old(c).db@),
        forall|k: int|
            0 <= k < target_groups@.len() ==> rels_of_group(
                old(c).db@.rels,
                (#[trigger] target_groups@[k])@,
                old(c).db@.rels.len() as int,
            ).len() == 0,
    ensures
        wf(final(c).db@),
        closed(final(c).db@),
        final(c).config == old(c).config,
        r matches Ok(flag) ==> flag == true && (forall|k: int|
            0 <= k < target_groups@.len() ==> !has_group(
                final(c).db@.groups,
                (#[trigger] target_groups@[k])@,
            )) && (forall|k: int|
            0 <= k < target_repos@.len() ==> !has_repo(
                final(c).db@.repos,
                (#[trigger] target_repos@[k])@.id,
            )),
        r is Err ==> r->Err_0 matches RrhError::Arrays(_),
        prunable(old(c).db@, target_groups@, target_repos@) ==> r is Ok,
        // deletion only, and only of the listed targets
        forall|x: Seq<char>|
            #[trigger] has_group(final(c).db@.groups, x) ==> has_group(old(c).db@.groups, x),
        forall|x: Seq<char>|
            has_group(old(c).db@.groups, x) && (forall|k: int|
                0 <= k < target_groups@.len() ==> (#[trigger] target_groups@[k])@ != x)
                ==> #[trigger] has_group(final(c).db@.groups, x),
        forall|x: Seq<char>|
            has_repo(old(c).db@.repos, x) && (forall|k: int|
                0 <= k < target_repos@.len() ==> (#[trigger] target_repos@[k])@.id != x)
                ==> #[trigger] has_repo(final(c).db@.repos, x),
        forall|x: Seq<char>|
            #[trigger] has_repo(final(c).db@.repos, x) ==> has_repo(old(c).db@.repos, x),
        forall|a: Seq<char>, b: Seq<char>|
            #[trigger] has_rel(final(c).db@.rels, a, b) <==> (has_rel(old(c).db@.rels, a, b) && (
            forall|k: int| 0 <= k < target_repos@.len() ==> (#[trigger] target_repos@[k])@.id != a)),
        target_repos@.len() == 0 ==> final(c).db@.rels == old(c).db@.rels && final(c).db@.repos
            == old(c).db@.repos,
{
    let ghost sv0 = old(c).db@;
    let mut errs: Vec<RrhError> = Vec::new();
    let gn = target_groups.len();
    let mut i: usize = 0;
    while i < gn
        invariant
            i <= gn,
            wf(c.db@),
            closed(c.db@),
            c.config == old(c).config,
            c.db@.repos == sv0.repos,
            c.db@.rels == sv0.rels,
            errs@.len() == 0 ==> forall|k: int|
                0 <= k < i ==> !has_group(c.db@.groups, (#[trigger] target_groups@[k])@),
            forall|x: Seq<char>|
                #[trigger] has_group(c.db@.groups, x) ==> has_group(sv0.groups, x),
            forall|x: Seq<char>|
                has_group(sv0.groups, x) && (forall|k: int|
                    0 <= k < i ==> (#[trigger] target_groups@[k])@ != x) ==> #[trigger] has_group(
                    c.db@.groups,
                    x,
                ),
            prunable(sv0, target_groups@, target_repos@) ==> errs@.len() == 0 && forall|k: int|
                i <= k < gn ==> has_group(c.db@.groups, (#[trigger] target_groups@[k])@),
        decreases gn - i,
    {
        let ghost pre = c.db@;
        match c.db.delete_group(target_groups[i].clone()) {
            Ok(()) => {
                proof {
                    // the candidate has no relations, so the cascade drops none
                    lemma_rels_of_group_elts(
                        pre.rels,
                        target_groups@[i as int]@,
                        pre.rels.len() as int,
                    );
                    assert forall|k: int| 0 <= k < pre.rels.len() implies (#[trigger] pre.rels[k]).group
                        != target_groups@[i as int]@ by {
                        if pre.rels[k].group == target_groups@[i as int]@ {
                            assert(rels_of_group(
                                pre.rels,
                                target_groups@[i as int]@,
                                pre.rels.len() as int,
                            ).contains(pre.rels[k]));
                        }
                    }
                    lemma_rels_drop_group_noop(
                        pre.rels,
                        target_groups@[i as int]@,
                        pre.rels.len() as int,
                    );
                    assert(pre.rels.take(pre.rels.len() as int) =~= pre.rels);
                    assert(c.db@.rels == pre.rels);
                    crate::db::lemma_group_idx(
                        pre.groups,
                        target_groups@[i as int]@,
                        pre.groups.len() as int,
                    );
                    let gi = crate::db::group_idx(
                        pre.groups,
                        target_groups@[i as int]@,
                        pre.groups.len() as int,
                    )->Some_0;
                    crate::db::lemma_delete_group_membership(
                        pre.groups,
                        target_groups@[i as int]@,
                        gi,
                    );
                }
            },
            Err(e) => {
                errs.push(e);
            },
        }
        i = i + 1;
    }
    let rn = target_repos.len();
    let mut j: usize = 0;
    while j < rn
        invariant
            j <= rn,
            wf(c.db@),
            closed(c.db@),
            c.config == old(c).config,
            rn == 0 ==> c.db@.rels == sv0.rels && c.db@.repos == sv0.repos,
            errs@.len() == 0 ==> forall|k: int|
                0 <= k < j ==> !has_repo(c.db@.repos, (#[trigger] target_repos@[k])@.id),
            errs@.len() == 0 ==> forall|k: int|
                0 <= k < target_groups@.len() ==> !has_group(
                    c.db@.groups,
                    (#[trigger] target_groups@[k])@,
                ),
            forall|x: Seq<char>|
                #[trigger] has_group(c.db@.groups, x) ==> has_group(sv0.groups, x),
            forall|x: Seq<char>|
                has_group(sv0.groups, x) && (forall|k: int|
                    0 <= k < target_groups@.len() ==> (#[trigger] target_groups@[k])@ != x)
                    ==> #[trigger] has_group(c.db@.groups, x),
            forall|x: Seq<char>|
                #[trigger] has_repo(c.db@.repos, x) ==> has_repo(sv0.repos, x),
            forall|x: Seq<char>|
                has_repo(sv0.repos, x) && (forall|k: int|
                    0 <= k < j ==> (#[trigger] target_repos@[k])@.id != x) ==> #[trigger] has_repo(
                    c.db@.repos,
                    x,
                ),
            forall|a: Seq<char>, b: Seq<char>|
                #[trigger] has_rel(c.db@.rels, a, b) <==> (has_rel(sv0.rels, a, b) && (forall|
                    k: int,
                | 0 <= k < j ==> (#[trigger] target_repos@[k])@.id != a)),
            prunable(sv0, target_groups@, target_repos@) ==> errs@.len() == 0 && forall|k: int|
                j <= k < rn ==> has_repo(c.db@.repos, (#[trigger] target_repos@[k])@.id),
        decreases rn - j,
    {
        let ghost pre = c.db@;
        match c.db.delete_repository(target_repos[j].id.clone()) {
            Ok(()) => {
                proof {
                    crate::db::lemma_repo_idx(
                        pre.repos,
                        target_repos@[j as int]@.id,
                        pre.repos.len() as int,
                    );
                    let ri = crate::db::repo_idx(
                        pre.repos,
                        target_repos@[j as int]@.id,
                        pre.repos.len() as int,
                    )->Some_0;
                    crate::db::lemma_delete_repo_membership(
                        pre.repos,
                        target_repos@[j as int]@.id,
                        ri,
                    );
                    crate::db::lemma_drop_id_membership(pre.rels, target_repos@[j as int]@.id);
                }
            },
            Err(e) => {
                proof {
                    // an absent target carries no relations either, the
                    // store being referentially consistent
                    assert forall|b: Seq<char>| !has_rel(
                        pre.rels,
                        target_repos@[j as int]@.id,
                        b,
                    ) by {
                        crate::db::lemma_has_rel_iff(pre.rels, target_repos@[j as int]@.id, b);
                        if has_rel(pre.rels, target_repos@[j as int]@.id, b) {
                            let m = choose|m: int|
                                0 <= m < pre.rels.len() && pre.rels[m].id
                                    == target_repos@[j as int]@.id && pre.rels[m].group == b;
                            assert(has_repo(pre.repos, pre.rels[m].id));
                        }
                    }
                }
                errs.push(e);
            },
        }
        j = j + 1;
    }
    if errs.len() > 0 {
        Err(RrhError::Arrays(errs))
    } else {
        Ok(true)
    }
}

/// Prunes the store: the groups with no members and the repositories
/// whose path the caller found missing are deleted, cascading to their
/// relations — exactly those and nothing else. The caller confirms
/// beforehand where it wants to; under the dry-run flag the candidate
/// sets are still what this contract names, but the store is left
/// untouched and no persistence is signalled.
pub fn perform_prune(c: &mut Context, opts: PruneOpts, path_exists: Vec<bool>) -> (r: Result<
    bool,
    RrhError,
>)
    requires
        wf(old(c).db@),
        closed(old(c).db@),
        path_exists@.len() == old(c).db@.repos.len(),
    ensures
        wf(final(c).db@),
        closed(final(c).db@),
        final(c).config == old(c).config,
        r matches Ok(flag) && flag == !opts.dry_run,
        opts.dry_run ==> final(c).db@ == old(c).db@,
        !opts.dry_run ==> ({
            let sv = old(c).db@;
            let cg = empty_group_names(sv, sv.groups.len() as int);
            let cr = missing_path_repos(sv.repos, path_exists@, sv.repos.len() as int);
            // the candidates are gone
            &&& (forall|k: int|
                0 <= k < cg.len() ==> !has_group(final(c).db@.groups, #[trigger] cg[k]))
            &&& (forall|k: int|
                0 <= k < cr.len() ==> !has_repo(final(c).db@.repos, (#[trigger] cr[k]).id))
            // and nothing else changed
            &&& (forall|x: Seq<char>|
                #[trigger] has_group(final(c).db@.groups, x) ==> has_group(sv.groups, x))
            &&& (forall|x: Seq<char>|
                has_group(sv.groups, x) && (forall|k: int|
                    0 <= k < cg.len() ==> #[trigger] cg[k] != x) ==> #[trigger] has_group(
                    final(c).db@.groups,
                    x,
                ))
            &&& (forall|x: Seq<char>|
                #[trigger] has_repo(final(c).db@.repos, x) ==> has_repo(sv.repos, x))
            &&& (forall|x: Seq<char>|
                has_repo(sv.repos, x) && (forall|k: int|
                    0 <= k < cr.len() ==> (#[trigger] cr[k]).id != x) ==> #[trigger] has_repo(
                    final(c).db@.repos,
                    x,
                ))
            &&& (forall|a: Seq<char>, b: Seq<char>|
                #[trigger] has_rel(final(c).db@.rels, a, b) <==> (has_rel(sv.rels, a, b) && (
                forall|k: int| 0 <= k < cr.len() ==> (#[trigger] cr[k]).id != a)))
            &&& (cr.len() == 0 ==> final(c).db@.rels == sv.rels && final(c).db@.repos == sv.repos)
        }),
{
    if opts.dry_run {
        return Ok(false);
    }
    let ghost sv = c.db@;
    let target_groups = find_empty_groups(&c.db);
    let target_repos = find_non_exists_path_repositoreis(&c.db, &path_exists);
    proof {
        lemma_empty_group_names_elts(c.db@, c.db@.groups.len() as int);
        lemma_missing_path_repos_elts(c.db@.repos, path_exists@, c.db@.repos.len() as int);
        assert forall|k: int|
            0 <= k < target_groups@.len() implies (#[trigger] target_groups@[k])@
            == empty_group_names(c.db@, c.db@.groups.len() as int)[k] by {
            assert(target_groups@[k]@ == target_groups.deep_view()[k]);
        }
        assert forall|k: int|
            0 <= k < target_repos@.len() implies (#[trigger] target_repos@[k])@
            == missing_path_repos(c.db@.repos, path_exists@, c.db@.repos.len() as int)[k] by {
            assert(target_repos@[k]@ == target_repos.deep_view()[k]);
        }
        // every candidate group is relation free
        assert forall|k: int|
            0 <= k < target_groups@.len() implies rels_of_group(
            c.db@.rels,
            (#[trigger] target_groups@[k])@,
            c.db@.rels.len() as int,
        ).len() == 0 by {
            assert(repos_of(
                c.db@.repos,
                c.db@.rels,
                target_groups@[k]@,
                c.db@.rels.len() as int,
            ).len() == 0);
            assert forall|m: int| 0 <= m < c.db@.rels.len() implies has_repo(
                c.db@.repos,
                (#[trigger] c.db@.rels[m]).id,
            ) by {}
            lemma_repos_of_len(
                c.db@.repos,
                c.db@.rels,
                target_groups@[k]@,
                c.db@.rels.len() as int,
            );
        }
        assert(prunable(c.db@, target_groups@, target_repos@));
    }
    match prune_impl(c, target_groups, target_repos) {
        Ok(_) => Ok(true),
        Err(e) => Err(e),
    }
}

/// Either side of the flat namespace a bare name can land in.
pub enum RepoOrGroup {
    R(Repository),
    G(Group),
}

/// Resolves a bare name: a repository, a group, neither, or — refused —
/// both.
pub fn find_repo_or_group(c: &Context, name: &str) -> (r: Result<RepoOrGroup, RrhError>)
    ensures
        match r {
            Ok(RepoOrGroup::R(rep)) => has_repo(c.db@.repos, name@) && !has_group(
                c.db@.groups,
                name@,
            ) && rep@.id == name@,
            Ok(RepoOrGroup::G(g)) => !has_repo(c.db@.repos, name@) && has_group(
                c.db@.groups,
                name@,
            ) && g@.name == name@,
            Err(RrhError::RepositoryAndGroupNotFound(n)) => !has_repo(c.db@.repos, name@)
                && !has_group(c.db@.groups, name@) && n@ == name@,
            Err(RrhError::RepositoryAndGroupExists(n)) => has_repo(c.db@.repos, name@) && has_group(
                c.db@.groups,
                name@,
            ) && n@ == name@,
            Err(_) => false,
        },
{
    let rep = c.db.find_repository(name);
    let grp = c.db.find_group(name);
    proof {
        crate::db::lemma_repo_idx(c.db@.repos, name@, c.db@.repos.len() as int);
        crate::db::lemma_group_idx(c.db@.groups, name@, c.db@.groups.len() as int);
    }
    match (rep, grp) {
        (Some(rv), None) => Ok(RepoOrGroup::R(rv)),
        (None, Some(g)) => Ok(RepoOrGroup::G(g)),
        (None, None) => Err(RrhError::RepositoryAndGroupNotFound(name.to_owned())),
        (Some(_), Some(_)) => Err(RrhError::RepositoryAndGroupExists(name.to_owned())),
    }
}

/// What a repository rename leaves behind: the record under the new
/// identifier, every membership moved with it, none at the stale one,
/// and every other repository's relations untouched.
pub open spec fn renamed_repository(
    sv: crate::db::StoreV,
    fv: crate::db::StoreV,
    from: Seq<char>,
    to: Seq<char>,
) -> bool {
    &&& has_repo(fv.repos, to)
    &&& (from != to ==> !has_repo(fv.repos, from))
    &&& (forall|b: Seq<char>| #[trigger] has_rel(fv.rels, to, b) <==> has_rel(sv.rels, from, b))
    &&& (from != to ==> forall|k: int|
        0 <= k < fv.rels.len() ==> (#[trigger] fv.rels[k]).id != from)
    &&& (forall|a: Seq<char>, b: Seq<char>|
        a != from && a != to ==> (#[trigger] has_rel(fv.rels, a, b) <==> has_rel(sv.rels, a, b)))
}

/// Renames a repository via the additive update path with no field or
/// group changes; the rename is owed whenever the source exists and the
/// target identifier is free.
fn rename_repository(c: &mut Context, old_name: &str, new_name: &str, dry_run: bool, now: u64) -> (
    r: Result<bool, RrhError>)
    requires
        wf(old(c).db@),
        closed(old(c).db@),
    ensures
        wf(final(c).db@),
        closed(final(c).db@),
        final(c).config == old(c).config,
        r matches Ok(flag) ==> flag == !dry_run && renamed_repository(
            old(c).db@,
            final(c).db@,
            old_name@,
            new_name@,
        ),
        r is Err ==> final(c).db@ == old(c).db@,
        r matches Err(RrhError::RepositoryNotFound(n)) ==> !has_repo(old(c).db@.repos, old_name@)
            && n@ == old_name@,
        r matches Err(RrhError::ToNameExist(n)) ==> new_name@ != old_name@ && has_repo(
            old(c).db@.repos,
            new_name@,
        ) && n@ == new_name@,
        (has_repo(old(c).db@.repos, old_name@) && (new_name@ == old_name@ || !has_repo(
            old(c).db@.repos,
            new_name@,
        ))) ==> r is Ok,
        (r is Err ==> r->Err_0 matches RrhError::RepositoryNotFound(_) || r->Err_0
            matches RrhError::ToNameExist(_)),
{
    let ghost sv = old(c).db@;
    let r_opts = RepositoryUpdateOpts {
        id: Some(new_name.to_owned()),
        path: None,
        description: None,
        groups: Vec::new(),
        new_groups: Vec::new(),
        repository_id: old_name.to_owned(),
        dry_run,
        probed_last_access: None,
        now,
    };
    let ghost opts_g = r_opts;
    proof {
        assert(repository::updated_id(sv, opts_g) == new_name@);
        assert(!repository::spec_renew_groups(opts_g));
        // every target name is a current membership, whose group exists
        // because the store is referentially consistent
        repository::lemma_groups_of_names(sv.groups, sv.rels, old_name@, sv.rels.len() as int);
        assert forall|k: int|
            0 <= k < repository::target_names(sv, opts_g).len() implies has_group(
            sv.groups,
            #[trigger] repository::target_names(sv, opts_g)[k],
        ) by {
            let tn = repository::target_names(sv, opts_g);
            assert(opts_g.groups.deep_view() =~= Seq::<Seq<char>>::empty());
            assert(tn =~= repository::group_names(
                crate::db::groups_of(sv.groups, sv.rels, old_name@, sv.rels.len() as int),
                crate::db::groups_of(
                    sv.groups,
                    sv.rels,
                    old_name@,
                    sv.rels.len() as int,
                ).len() as int,
            ));
            assert(repository::names_has(tn, tn[k]));
            assert(has_rel(sv.rels, old_name@, tn[k]));
            crate::db::lemma_has_rel_iff(sv.rels, old_name@, tn[k]);
            let m = choose|m: int|
                0 <= m < sv.rels.len() && sv.rels[m].id == old_name@ && sv.rels[m].group == tn[k];
            assert(has_repo(sv.repos, sv.rels[m].id));
        }
    }
    let res = repository::perform_update(c, r_opts);
    proof {
        if res is Ok {
            let fv = c.db@;
            let nr = repository::new_repo_v(
                crate::db::find_repo(sv.repos, old_name@)->Some_0,
                opts_g,
                old(c).config.envs@,
            );
            assert(nr.id == new_name@);
            crate::db::lemma_repo_idx(sv.repos, old_name@, sv.repos.len() as int);
            let ri = crate::db::repo_idx(sv.repos, old_name@, sv.repos.len() as int)->Some_0;
            // the record now stands under the new identifier, and under
            // it alone
            assert(fv.repos[ri].id == new_name@);
            crate::db::lemma_has_repo_iff(fv.repos, new_name@);
            assert(has_repo(fv.repos, new_name@));
            if new_name@ != old_name@ {
                crate::db::lemma_has_repo_iff(fv.repos, old_name@);
                crate::db::lemma_has_repo_iff(sv.repos, old_name@);
                if has_repo(fv.repos, old_name@) {
                    let m = choose|m: int|
                        0 <= m < fv.repos.len() && fv.repos[m].id == old_name@;
                    assert(m != ri);
                    assert(sv.repos[m].id == old_name@);
                }
            }
            // memberships moved exactly: the target names are the prior
            // memberships, so the upper bound collapses onto them
            assert forall|b: Seq<char>|
                #[trigger] has_rel(fv.rels, new_name@, b) <==> has_rel(
                sv.rels,
                old_name@,
                b,
            ) by {
                if has_rel(fv.rels, new_name@, b) {
                    if !has_rel(sv.rels, old_name@, b) {
                        assert(repository::names_has(
                            repository::target_names(sv, opts_g),
                            b,
                        ));
                        let k = choose|k: int|
                            0 <= k < repository::target_names(sv, opts_g).len()
                                && repository::target_names(sv, opts_g)[k] == b;
                        assert(has_rel(sv.rels, old_name@, b));
                    }
                }
            }
        }
    }
    match res {
        Ok(flag) => Ok(flag),
        Err(e) => Err(e),
    }
}

/// Renames a group via the rename-safe group update; the rename is owed
/// whenever the source group exists and the target name is free.
fn rename_group(c: &mut Context, old_name: &str, new_name: &str, dry_run: bool) -> (r: Result<
    bool,
    RrhError,
>)
    requires
        wf(old(c).db@),
        closed(old(c).db@),
    ensures
        wf(final(c).db@),
        closed(final(c).db@),
        final(c).config == old(c).config,
        r matches Ok(flag) ==> flag == !dry_run && has_group(old(c).db@.groups, old_name@)
            && final(c).db@ == spec_update_group(
            old(c).db@,
            old_name@,
            crate::entities::GroupV {
                name: new_name@,
                note: find_group_v(old(c).db@.groups, old_name@)->Some_0.note,
                abbrev: find_group_v(old(c).db@.groups, old_name@)->Some_0.abbrev,
            },
        ) && (new_name@ != old_name@ ==> forall|k: int|
            0 <= k < final(c).db@.rels.len() ==> (#[trigger] final(c).db@.rels[k]).group
                != old_name@),
        r is Err ==> final(c).db@ == old(c).db@,
        r matches Err(RrhError::GroupNotFound(n)) ==> !has_group(old(c).db@.groups, old_name@)
            && n@ == old_name@,
        r matches Err(RrhError::ToNameExist(n)) ==> new_name@ != old_name@ && has_group(
            old(c).db@.groups,
            new_name@,
        ) && n@ == new_name@,
        (has_group(old(c).db@.groups, old_name@) && (new_name@ == old_name@ || !has_group(
            old(c).db@.groups,
            new_name@,
        ))) ==> r is Ok,
        (r is Err ==> r->Err_0 matches RrhError::GroupNotFound(_) || r->Err_0
            matches RrhError::ToNameExist(_)),
{
    let g_opts = GroupUpdateOpts {
        abbrev: None,
        note: None,
        rename_to: Some(new_name.to_owned()),
        name: old_name.to_owned(),
        dry_run,
    };
    group::perform_update(c, g_opts)
}

/// The net effect of a group rename: the group stands under the new
/// name with its note and flag kept, and every relation that pointed at
/// the old name now points at the new one.
pub open spec fn renamed_group(
    sv: crate::db::StoreV,
    fv: crate::db::StoreV,
    from: Seq<char>,
    to: Seq<char>,
) -> bool {
    &&& has_group(sv.groups, from)
    &&& fv == spec_update_group(
        sv,
        from,
        crate::entities::GroupV {
            name: to,
            note: find_group_v(sv.groups, from)->Some_0.note,
            abbrev: find_group_v(sv.groups, from)->Some_0.abbrev,
        },
    )
    &&& (to != from ==> forall|k: int|
        0 <= k < fv.rels.len() ==> (#[trigger] fv.rels[k]).group != from)
}

/// Renames whatever the source name resolves to. With a side forced by
/// flag the rename is owed when the source exists and the target key is
/// free; on the bare path the source must resolve to exactly one side,
/// and a target occupied on the same side is refused. No failure leaves
/// a trace.
pub fn perform_rename(c: &mut Context, opts: RenameOpts, now: u64) -> (r: Result<bool, RrhError>)
    requires
        wf(old(c).db@),
        closed(old(c).db@),
    ensures
        wf(final(c).db@),
        closed(final(c).db@),
        final(c).config == old(c).config,
        r is Err ==> final(c).db@ == old(c).db@,
        ({
            let sv = old(c).db@;
            let fv = final(c).db@;
            let from = opts.from@;
            let to = opts.to_name@;
            &&& (opts.repository ==> (r matches Ok(flag) ==> flag == !opts.dry_run
                && renamed_repository(sv, fv, from, to)))
            &&& (opts.repository && has_repo(sv.repos, from) && (to == from || !has_repo(
                sv.repos,
                to,
            )) ==> r is Ok)
            &&& (!opts.repository && opts.group ==> (r matches Ok(flag) ==> flag == !opts.dry_run
                && renamed_group(sv, fv, from, to)))
            &&& (!opts.repository && opts.group && has_group(sv.groups, from) && (to == from
                || !has_group(sv.groups, to)) ==> r is Ok)
            &&& (!opts.repository && !opts.group ==> (r matches Ok(flag) ==> flag
                == !opts.dry_run && (if has_repo(sv.repos, from) && !has_group(sv.groups, from) {
                renamed_repository(sv, fv, from, to)
            } else {
                has_group(sv.groups, from) && !has_repo(sv.repos, from) && renamed_group(
                    sv,
                    fv,
                    from,
                    to,
                )
            })))
            &&& (!opts.repository && !opts.group && !has_repo(sv.repos, to) && !has_group(
                sv.groups,
                to,
            ) && (has_repo(sv.repos, from) != has_group(sv.groups, from)) ==> r is Ok)
        }),
{
    if opts.repository {
        rename_repository(c, opts.from.as_str(), opts.to_name.as_str(), opts.dry_run, now)
    } else if opts.group {
        rename_group(c, opts.from.as_str(), opts.to_name.as_str(), opts.dry_run)
    } else {
        let from_side = find_repo_or_group(c, opts.from.as_str());
        let to_side = find_repo_or_group(c, opts.to_name.as_str());
        match (from_side, to_side) {
            (Ok(RepoOrGroup::R(rv)), Ok(RepoOrGroup::G(_))) => rename_repository(
                c,
                rv.id.as_str(),
                opts.to_name.as_str(),
                opts.dry_run,
                now,
            ),
            (Ok(RepoOrGroup::R(_)), Ok(RepoOrGroup::R(r2))) => Err(RrhError::ToNameExist(r2.id)),
            (
                Ok(RepoOrGroup::R(rv)),
                Err(RrhError::RepositoryAndGroupNotFound(_)),
            ) => rename_repository(c, rv.id.as_str(), opts.to_name.as_str(), opts.dry_run, now),
            (Ok(RepoOrGroup::R(rv)), Err(RrhError::RepositoryAndGroupExists(_))) => Err(
                RrhError::ToNameExist(rv.id),
            ),
            (Ok(RepoOrGroup::G(g)), Ok(RepoOrGroup::R(_))) => rename_group(
                c,
                g.name.as_str(),
                opts.to_name.as_str(),
                opts.dry_run,
            ),
            (Ok(RepoOrGroup::G(_)), Ok(RepoOrGroup::G(g2))) => Err(RrhError::ToNameExist(g2.name)),
            (Ok(RepoOrGroup::G(g)), Err(RrhError::RepositoryAndGroupNotFound(_))) => rename_group(
                c,
                g.name.as_str(),
                opts.to_name.as_str(),
                opts.dry_run,
            ),
            (Ok(RepoOrGroup::G(g)), Err(RrhError::RepositoryAndGroupExists(_))) => Err(
                RrhError::ToNameExist(g.name),
            ),
            (Err(e), _) => Err(e),
            (_, Err(e)) => Err(e),
        }
    }
}

/// Whether every listed name can be removed: each resolves to exactly
/// one side of the flat namespace, is listed once, and a group side is
/// relation free unless forced.
pub open spec fn flat_removable(sv: crate::db::StoreV, ts: Seq<String>, force: bool) -> bool {
    &&& (forall|k: int|
        0 <= k < ts.len() ==> ((has_repo(sv.repos, (#[trigger] ts[k])@) && !has_group(
            sv.groups,
            ts[k]@,
        )) || (!has_repo(sv.repos, ts[k]@) && has_group(sv.groups, ts[k]@) && (force || forall|
            a: Seq<char>,
        | !has_rel(sv.rels, a, ts[k]@)))))
    &&& (forall|k: int, l: int| 0 <= k < l < ts.len() ==> ts[k]@ != ts[l]@)
}

/// Removes whatever each listed name resolves to, a repository or a
/// group, honoring the force flag; failures are collected. Removal is
/// owed whenever every listed name is removable, and on success no
/// listed name resolves any more.
#[verifier::loop_isolation(false)]
pub fn perform_remove(c: &mut Context, opts: RemoveOpts) -> (r: Result<bool, RrhError>)
    requires
        wf(old(c).db@),
        closed(old(c).db@),
    ensures
        wf(final(c).db@),
        closed(final(c).db@),
        final(c).config == old(c).config,
        r matches Ok(flag) ==> flag == !opts.dry_run && forall|k: int|
            0 <= k < opts.targets@.len() ==> !has_repo(
                final(c).db@.repos,
                (#[trigger] opts.targets@[k])@,
            ) && !has_group(final(c).db@.groups, opts.targets@[k]@),
        r is Err ==> r->Err_0 matches RrhError::Arrays(_),
        flat_removable(old(c).db@, opts.targets@, opts.force) ==> r is Ok,
        // deletion only
        forall|x: Seq<char>|
            #[trigger] has_group(final(c).db@.groups, x) ==> has_group(old(c).db@.groups, x),
        forall|x: Seq<char>|
            #[trigger] has_repo(final(c).db@.repos, x) ==> has_repo(old(c).db@.repos, x),
        forall|a: Seq<char>, b: Seq<char>|
            #[trigger] has_rel(final(c).db@.rels, a, b) ==> has_rel(old(c).db@.rels, a, b),
{
    let ghost sv0 = old(c).db@;
    let mut errs: Vec<RrhError> = Vec::new();
    let n = opts.targets.len();
    let mut i: usize = 0;
    while i < n
        invariant
            n == opts.targets.len(),
            i <= n,
            wf(c.db@),
            closed(c.db@),
            c.config == old(c).config,
            forall|x: Seq<char>|
                #[trigger] has_group(c.db@.groups, x) ==> has_group(sv0.groups, x),
            forall|x: Seq<char>|
                #[trigger] has_repo(c.db@.repos, x) ==> has_repo(sv0.repos, x),
            forall|a: Seq<char>, b: Seq<char>|
                #[trigger] has_rel(c.db@.rels, a, b) ==> has_rel(sv0.rels, a, b),
            errs@.len() == 0 ==> forall|k: int|
                0 <= k < i ==> !has_repo(c.db@.repos, (#[trigger] opts.targets@[k])@)
                    && !has_group(c.db@.groups, opts.targets@[k]@),
            flat_removable(sv0, opts.targets@, opts.force) ==> errs@.len() == 0 && forall|k: int|
                i <= k < n ==> ((has_repo(sv0.repos, (#[trigger] opts.targets@[k])@)
                    ==> has_repo(c.db@.repos, opts.targets@[k]@) && !has_group(
                    c.db@.groups,
                    opts.targets@[k]@,
                )) && (has_group(sv0.groups, opts.targets@[k]@) ==> has_group(
                    c.db@.groups,
                    opts.targets@[k]@,
                ) && !has_repo(c.db@.repos, opts.targets@[k]@) && (opts.force || forall|
                    a: Seq<char>,
                | !has_rel(c.db@.rels, a, opts.targets@[k]@)))),
        decreases n - i,
    {
        let ghost pre = c.db@;
        let outcome = match find_repo_or_group(c, opts.targets[i].as_str()) {
            Ok(RepoOrGroup::R(_)) => {
                let mut ids: Vec<String> = Vec::new();
                ids.push(opts.targets[i].clone());
                let sub_opts = RepositoryRemoveOpts { ids, dry_run: opts.dry_run };
                proof {
                    assert(sub_opts.ids@ =~= seq![opts.targets@[i as int]]);
                }
                let sub = repository::perform_remove(c, sub_opts);
                proof {
                    if sub is Ok {
                        assert(!has_repo(c.db@.repos, (sub_opts.ids@[0])@));
                        assert(!has_group(c.db@.groups, opts.targets@[i as int]@));
                    }
                    if flat_removable(sv0, opts.targets@, opts.force) {
                        assert(repository::removable_repos(
                            pre,
                            seq![opts.targets@[i as int]],
                        ));
                        assert(sub is Ok);
                    }
                }
                sub
            },
            Ok(RepoOrGroup::G(_)) => {
                let mut args: Vec<String> = Vec::new();
                args.push(opts.targets[i].clone());
                let sub_opts = GroupRemoveOpts { force: opts.force, args, dry_run: opts.dry_run };
                proof {
                    assert(sub_opts.args@ =~= seq![opts.targets@[i as int]]);
                }
                let sub = group::perform_remove(c, sub_opts);
                proof {
                    if flat_removable(sv0, opts.targets@, opts.force) {
                        if !opts.force {
                            // no relation names this group, so its member
                            // list is empty
                            lemma_rels_of_group_elts(
                                pre.rels,
                                opts.targets@[i as int]@,
                                pre.rels.len() as int,
                            );
                            let m = rels_of_group(
                                pre.rels,
                                opts.targets@[i as int]@,
                                pre.rels.len() as int,
                            );
                            if m.len() > 0 {
                                let j = choose|j: int|
                                    0 <= j < pre.rels.len() && pre.rels[j] == m[0];
                                crate::db::lemma_has_rel_iff(
                                    pre.rels,
                                    pre.rels[j].id,
                                    opts.targets@[i as int]@,
                                );
                                assert(has_rel(
                                    pre.rels,
                                    pre.rels[j].id,
                                    opts.targets@[i as int]@,
                                ));
                            }
                        }
                        assert(group::removable_groups(
                            pre,
                            seq![opts.targets@[i as int]],
                            opts.force,
                        ));
                        assert(sub is Ok);
                    }
                    if sub is Ok {
                        assert(!has_group(c.db@.groups, (sub_opts.args@[0])@));
                        assert(!has_repo(c.db@.repos, opts.targets@[i as int]@));
                    }
                }
                sub
            },
            Err(e) => Err(e),
        };
        match outcome {
            Ok(_) => {},
            Err(e) => {
                errs.push(e);
            },
        }
        i = i + 1;
    }
    if errs.len() > 0 {
        Err(RrhError::Arrays(errs))
    } else {
        Ok(!opts.dry_run)
    }
}

} // verus!
