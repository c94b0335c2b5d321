//! The repository commands, above all the rename-safe update workflow:
//! overlaying the supplied fields, deciding the target group set, deleting
//! or re-pointing relations so none is left at a stale identifier, and
//! relating the repository to every target group under its new identifier.
use vstd::prelude::*;

use crate::cli::{
    RepositoryInfoOpts, RepositoryOpts, RepositoryRemoveOpts, RepositorySubCommand,
    RepositoryUpdateOpts, RrhError,
};
use crate::config::{env_val, Context, EnvValue};
use crate::db::jsondb::{delete_relation_all_for_repository, update_relations_all_for_repository};
use crate::db::{
    closed, groups_of, has_group, has_rel, has_repo, lemma_group_idx, lemma_has_group_iff,
    lemma_has_rel_iff, lemma_has_repo_iff, lemma_rel_idx, lemma_rels_drop_id_elts,
    lemma_rels_rename_id_elts, lemma_repo_idx, repo_idx, wf, StoreV,
};
use crate::entities::{refreshed_access, Group, GroupV, RelV, RepoV, Repository, RepositoryWithGroups};
use crate::utils::lower_of;

verus! {

/// Whether the store-wide auto-create-group policy is switched on.
pub open spec fn auto_create(es: Seq<(String, EnvValue)>) -> bool {
    match env_val(es, "auto_create_group"@) {
        Some(EnvValue::Bool(b)) => b,
        Some(EnvValue::Var(s)) => lower_of(s@) == "true"@ || lower_of(s@) == "yes"@,
        _ => false,
    }
}

/// Whether a replacement group list was supplied; it then wins outright.
pub open spec fn spec_renew_groups(opts: RepositoryUpdateOpts) -> bool {
    opts.new_groups@.len() > 0
}

/// The names of a group list, in order.
pub open spec fn group_names(gs: Seq<GroupV>, n: int) -> Seq<Seq<char>>
    decreases n,
{
    if n <= 0 {
        Seq::empty()
    } else {
        group_names(gs, n - 1).push(gs[n - 1].name)
    }
}

/// Whether `b` occurs among the names `ns`.
pub open spec fn names_has(ns: Seq<Seq<char>>, b: Seq<char>) -> bool {
    exists|k: int| 0 <= k < ns.len() && ns[k] == b
}

/// The last-access stamp after the workflow's refresh policy ran at
/// `now` with the caller's probe.
pub open spec fn updated_access(
    stored: Option<u64>,
    es: Seq<(String, EnvValue)>,
    now: u64,
    probed: Option<u64>,
) -> Option<u64> {
    match stored {
        Some(t) => if now < t || now - t > crate::config::reload_duration_secs(es) {
            refreshed_access(Some(t), probed)
        } else {
            Some(t)
        },
        None => refreshed_access(None, probed),
    }
}

/// The repository value after overlaying the supplied fields and
/// refreshing the stamp.
pub open spec fn new_repo_v(
    old: RepoV,
    opts: RepositoryUpdateOpts,
    es: Seq<(String, EnvValue)>,
) -> RepoV {
    RepoV {
        id: match opts.id {
            Some(s) => s@,
            None => old.id,
        },
        path: match opts.path {
            Some(p) => p@,
            None => old.path,
        },
        description: match opts.description {
            Some(d) => Some(d@),
            None => old.description,
        },
        last_access: updated_access(old.last_access, es, opts.now, opts.probed_last_access),
    }
}

/// The group names the repository shall belong to afterwards: the
/// replacement list when one is given, else the current memberships
/// united with the additive list.
pub open spec fn target_names(sv: StoreV, opts: RepositoryUpdateOpts) -> Seq<Seq<char>> {
    if spec_renew_groups(opts) {
        opts.new_groups.deep_view()
    } else {
        group_names(
            groups_of(sv.groups, sv.rels, opts.repository_id@, sv.rels.len() as int),
            groups_of(sv.groups, sv.rels, opts.repository_id@, sv.rels.len() as int).len() as int,
        ) + opts.groups.deep_view()
    }
}

/// A name listed by the join is the group of some relation of the
/// repository.
pub proof fn lemma_groups_of_names(gs: Seq<GroupV>, ls: Seq<RelV>, id: Seq<char>, n: int)
    requires
        0 <= n <= ls.len(),
    ensures
        forall|b: Seq<char>|
            names_has(
                group_names(
                    groups_of(gs, ls, id, n),
                    groups_of(gs, ls, id, n).len() as int,
                ),
                b,
            ) ==> has_rel(ls, id, b),
    decreases n,
{
    if n > 0 {
        lemma_groups_of_names(gs, ls, id, n - 1);
        let p = groups_of(gs, ls, id, n - 1);
        let r = groups_of(gs, ls, id, n);
        assert forall|b: Seq<char>|
            names_has(group_names(r, r.len() as int), b) implies has_rel(ls, id, b) by {
            lemma_group_names_elts(r, r.len() as int);
            lemma_group_names_elts(p, p.len() as int);
            let k = choose|k: int|
                0 <= k < group_names(r, r.len() as int).len() && group_names(
                    r,
                    r.len() as int,
                )[k] == b;
            if k < p.len() {
                assert(group_names(p, p.len() as int)[k] == b);
                assert(names_has(group_names(p, p.len() as int), b));
            } else {
                // the last joined group carries the relation's own name
                lemma_group_idx(gs, ls[n - 1].group, gs.len() as int);
                lemma_has_rel_iff(ls, id, b);
            }
        }
    }
}

/// The names list mirrors the group list position by position.
proof fn lemma_group_names_elts(gs: Seq<GroupV>, n: int)
    requires
        0 <= n <= gs.len(),
    ensures
        group_names(gs, n).len() == n,
        forall|k: int| 0 <= k < n ==> #[trigger] group_names(gs, n)[k] == gs[k].name,
    decreases n,
{
    if n > 0 {
        lemma_group_names_elts(gs, n - 1);
    }
}

/// Dispatches one repository subcommand; the adding, removing and
/// updating arms keep their workers' guarantees.
pub fn perform(c: &mut Context, opts: RepositoryOpts) -> (r: Result<bool, RrhError>)
    requires
        wf(old(c).db@),
        closed(old(c).db@),
    ensures
        wf(final(c).db@),
        closed(final(c).db@),
        final(c).config == old(c).config,
        opts.subcmd matches RepositorySubCommand::Add(o) ==> (crate::commands::add::addable(
            old(c).db@,
            o,
        ) ==> r is Ok),
        opts.subcmd matches RepositorySubCommand::Remove(o) ==> (removable_repos(
            old(c).db@,
            o.ids@,
        ) ==> r is Ok) && (r is Ok ==> forall|k: int|
            0 <= k < o.ids@.len() ==> !has_repo(final(c).db@.repos, (#[trigger] o.ids@[k])@)),
        opts.subcmd matches RepositorySubCommand::Update(o) ==> (update_accepted(
            old(c).db@,
            o,
            old(c).config.envs@,
        ) ==> r is Ok) && (r is Ok ==> update_net_effect(
            old(c).db@,
            final(c).db@,
            o,
            old(c).config.envs@,
        ) && update_all_related(old(c).db@, final(c).db@, o)),
{
    match opts.subcmd {
        RepositorySubCommand::Add(o) => crate::commands::add::perform_add(c, o),
        RepositorySubCommand::List(o) => {
            match crate::commands::list::perform_list(c, o) {
                Ok((flag, _)) => Ok(flag),
                Err(e) => Err(e),
            }
        },
        RepositorySubCommand::Info(o) => {
            match perform_info(c, o) {
                Ok((flag, _)) => Ok(flag),
                Err(e) => Err(e),
            }
        },
        RepositorySubCommand::Remove(o) => perform_remove(c, o),
        RepositorySubCommand::Update(o) => perform_update(c, o),
    }
}

/// Collects the joined view of every listed repository that exists and
/// renders it; nothing is mutated.
pub fn perform_info(c: &mut Context, opts: RepositoryInfoOpts) -> (r: Result<
    (bool, Vec<crate::commands::list::Rendering>),
    RrhError,
>)
    requires
        wf(old(c).db@),
        closed(old(c).db@),
    ensures
        wf(final(c).db@),
        closed(final(c).db@),
        final(c).db@ == old(c).db@,
        final(c).config == old(c).config,
{
    let mut repos: Vec<RepositoryWithGroups> = Vec::new();
    let n = opts.ids.len();
    let mut i: usize = 0;
    while i < n
        invariant
            n == opts.ids.len(),
            i <= n,
        decreases n - i,
    {
        match c.db.find_repository_with_groups(opts.ids[i].as_str()) {
            Some(rg) => repos.push(rg),
            None => {},
        }
        i = i + 1;
    }
    if repos.len() > 0 {
        let mut p_opts = opts.print_opts;
        if p_opts.entries.len() == 0 {
            p_opts.entries = vec![crate::cli::RepositoryEntry::All];
        }
        crate::commands::list::print_list(repos, &mut c.config, &mut p_opts)
    } else {
        Ok((false, Vec::new()))
    }
}

/// Whether every listed identifier names a repository, each listed once.
pub open spec fn removable_repos(sv: StoreV, ids: Seq<String>) -> bool {
    (forall|k: int| 0 <= k < ids.len() ==> has_repo(sv.repos, (#[trigger] ids[k])@)) && (forall|
        k: int,
        l: int,
    | 0 <= k < l < ids.len() ==> ids[k]@ != ids[l]@)
}

/// Deletes every listed repository, cascading to its relations; failures
/// are collected. Deletion is owed whenever every listed identifier is
/// stored and listed once; groups are never touched.
#[verifier::loop_isolation(false)]
pub fn perform_remove(c: &mut Context, opts: RepositoryRemoveOpts) -> (r: Result<bool, RrhError>)
    requires
        wf(old(c).db@),
        closed(old(c).db@),
    ensures
        wf(final(c).db@),
        closed(final(c).db@),
        final(c).config == old(c).config,
        final(c).db@.groups == old(c).db@.groups,
        (r matches Ok(flag) ==> (opts.ids@.len() > 0 ==> flag == true)),
        (r matches Ok(flag) ==> (opts.ids@.len() == 0 ==> flag == false && final(c).db@ == old(
            c,
        ).db@)),
        r is Ok ==> forall|k: int|
            0 <= k < opts.ids@.len() ==> !has_repo(final(c).db@.repos, (#[trigger] opts.ids@[k])@),
        r is Err ==> r->Err_0 matches RrhError::Arrays(_),
        removable_repos(old(c).db@, opts.ids@) ==> r is Ok,
        // deletion only: nothing appears, relations only disappear, and
        // only the listed identifiers go
        forall|x: Seq<char>|
            #[trigger] has_repo(final(c).db@.repos, x) ==> has_repo(old(c).db@.repos, x),
        forall|a: Seq<char>, b: Seq<char>|
            #[trigger] has_rel(final(c).db@.rels, a, b) ==> has_rel(old(c).db@.rels, a, b),
        forall|x: Seq<char>|
            has_repo(old(c).db@.repos, x) && (forall|k: int|
                0 <= k < opts.ids@.len() ==> (#[trigger] opts.ids@[k])@ != x)
                ==> #[trigger] has_repo(final(c).db@.repos, x),
{
    let ghost sv0 = old(c).db@;
    if opts.ids.len() > 0 {
        let mut errs: Vec<RrhError> = Vec::new();
        let n = opts.ids.len();
        let mut i: usize = 0;
        while i < n
            invariant
                n == opts.ids.len(),
                i <= n,
                wf(c.db@),
                closed(c.db@),
                c.config == old(c).config,
                c.db@.groups == sv0.groups,
                errs@.len() == 0 ==> forall|k: int|
                    0 <= k < i ==> !has_repo(c.db@.repos, (#[trigger] opts.ids@[k])@),
                forall|x: Seq<char>|
                    #[trigger] has_repo(c.db@.repos, x) ==> has_repo(sv0.repos, x),
                forall|a: Seq<char>, b: Seq<char>|
                    #[trigger] has_rel(c.db@.rels, a, b) ==> has_rel(sv0.rels, a, b),
                forall|x: Seq<char>|
                    has_repo(sv0.repos, x) && (forall|k: int|
                        0 <= k < i ==> (#[trigger] opts.ids@[k])@ != x) ==> #[trigger] has_repo(
                        c.db@.repos,
                        x,
                    ),
                removable_repos(sv0, opts.ids@) ==> errs@.len() == 0 && forall|k: int|
                    i <= k < n ==> has_repo(c.db@.repos, (#[trigger] opts.ids@[k])@),
            decreases n - i,
        {
            let ghost pre = c.db@;
            match c.db.delete_repository(opts.ids[i].clone()) {
                Ok(()) => {
                    proof {
                        lemma_repo_idx(pre.repos, opts.ids@[i as int]@, pre.repos.len() as int);
                        let ri = repo_idx(
                            pre.repos,
                            opts.ids@[i as int]@,
                            pre.repos.len() as int,
                        )->Some_0;
                        crate::db::lemma_delete_repo_membership(
                            pre.repos,
                            opts.ids@[i as int]@,
                            ri,
                        );
                        crate::db::lemma_drop_id_membership(pre.rels, opts.ids@[i as int]@);
                    }
                },
                Err(e) => {
                    errs.push(e);
                },
            }
            i = i + 1;
        }
        if errs.len() > 0 {
            return Err(RrhError::Arrays(errs));
        }
        Ok(true)
    } else {
        Ok(false)
    }
}

impl RepositoryUpdateOpts {
    /// Whether the replacement list wins outright.
    pub fn renew_groups(&self) -> (r: bool)
        ensures
            r == spec_renew_groups(*self),
    {
        self.new_groups.len() > 0
    }

    /// Overlays only the supplied fields onto the current repository.
    fn build_new_repo(&self, r: &Repository) -> (out: Repository)
        ensures
            out@.id == (match self.id {
                Some(s) => s@,
                None => r@.id,
            }),
            out@.path == (match self.path {
                Some(p) => p@,
                None => r@.path,
            }),
            out@.description == (match self.description {
                Some(d) => Some(d@),
                None => r@.description,
            }),
            out@.last_access == r@.last_access,
    {
        let mut new_repo = r.clone();
        match &self.id {
            Some(id) => {
                new_repo.id = id.clone();
            },
            None => {},
        }
        match &self.path {
            Some(p) => {
                new_repo.path = p.clone();
            },
            None => {},
        }
        match &self.description {
            Some(d) => {
                new_repo.description = Some(d.clone());
            },
            None => {},
        }
        new_repo
    }
}

/// The target group names: the replacement list, or the current names
/// united with the additive list.
fn find_groups(groups: &Vec<Group>, opts: &RepositoryUpdateOpts) -> (r: Vec<String>)
    ensures
        r.deep_view() == (if spec_renew_groups(*opts) {
            opts.new_groups.deep_view()
        } else {
            group_names(groups.deep_view(), groups.deep_view().len() as int)
                + opts.groups.deep_view()
        }),
{
    if opts.new_groups.len() > 0 {
        let r = crate::utils::clone_string_vec(&opts.new_groups);
        proof {
            assert(r.deep_view() =~= opts.new_groups.deep_view());
        }
        r
    } else {
        let mut result: Vec<String> = Vec::new();
        let n = groups.len();
        let mut i: usize = 0;
        while i < n
            invariant
                n == groups.len(),
                i <= n,
                result.deep_view() == group_names(groups.deep_view(), i as int),
            decreases n - i,
        {
            result.push(groups[i].name.clone());
            proof {
                assert(result.deep_view() =~= group_names(groups.deep_view(), i + 1 as int));
            }
            i = i + 1;
        }
        let m = opts.groups.len();
        let mut j: usize = 0;
        while j < m
            invariant
                m == opts.groups.len(),
                j <= m,
                result.deep_view() == group_names(groups.deep_view(), groups.deep_view().len() as int)
                    + opts.groups.deep_view().take(j as int),
            decreases m - j,
        {
            let ghost prev = result.deep_view();
            result.push(opts.groups[j].clone());
            proof {
                assert(opts.groups.deep_view()[j as int] == opts.groups@[j as int]@);
                assert(result.deep_view() =~= prev.push(opts.groups.deep_view()[j as int]));
                assert(opts.groups.deep_view().take(j + 1 as int)
                    =~= opts.groups.deep_view().take(j as int).push(
                    opts.groups.deep_view()[j as int],
                ));
                assert(result.deep_view() =~= group_names(
                    groups.deep_view(),
                    groups.deep_view().len() as int,
                ) + opts.groups.deep_view().take(j + 1 as int));
            }
            j = j + 1;
        }
        proof {
            assert(opts.groups.deep_view().take(m as int) =~= opts.groups.deep_view());
        }
        result
    }
}

/// Builds the new repository value and the target group names; the stamp
/// is refreshed when stale.
fn build_new_repo(c: &Context, r: RepositoryWithGroups, opts: &RepositoryUpdateOpts) -> (out: (
    Repository,
    Vec<String>,
))
    ensures
        out.0@ == new_repo_v(r.repo@, *opts, c.config.envs@),
        out.1.deep_view() == (if spec_renew_groups(*opts) {
            opts.new_groups.deep_view()
        } else {
            group_names(r.groups.deep_view(), r.groups.deep_view().len() as int)
                + opts.groups.deep_view()
        }),
{
    let mut new_repo = opts.build_new_repo(&r.repo);
    let _ = new_repo.last_access(&c.config, opts.now, opts.probed_last_access);
    let new_groups = find_groups(&r.groups, opts);
    (new_repo, new_groups)
}

/// Relates one group name with the repository: a no-op when the pair
/// exists; the group is auto-created under the store-wide policy, and
/// missing otherwise.
fn relate_with(c: &mut Context, group_name: &str, repo_id: &str) -> (r: Result<(), RrhError>)
    requires
        wf(old(c).db@),
        closed(old(c).db@),
        has_repo(old(c).db@.repos, repo_id@),
    ensures
        wf(final(c).db@),
        closed(final(c).db@),
        final(c).config == old(c).config,
        final(c).db@.repos == old(c).db@.repos,
        final(c).db@.last_modified == old(c).db@.last_modified,
        r is Ok <==> (has_rel(old(c).db@.rels, repo_id@, group_name@) || has_group(
            old(c).db@.groups,
            group_name@,
        ) || auto_create(old(c).config.envs@)),
        r is Ok ==> has_rel(final(c).db@.rels, repo_id@, group_name@),
        r is Err ==> final(c).db@ == old(c).db@ && (r->Err_0 matches RrhError::GroupNotFound(n)
            && n@ == group_name@),
        // relations grow by at most the one pair, at the end
        final(c).db@.rels.len() >= old(c).db@.rels.len(),
        forall|k: int|
            0 <= k < old(c).db@.rels.len() ==> #[trigger] final(c).db@.rels[k] == old(c).db@.rels[k],
        forall|k: int|
            old(c).db@.rels.len() <= k < final(c).db@.rels.len() ==> (#[trigger] final(c).db@.rels[k]).id == repo_id@ && final(c).db@.rels[k].group == group_name@,
        // groups grow by at most the one auto-created group, at the end
        final(c).db@.groups.len() >= old(c).db@.groups.len(),
        final(c).db@.groups.len() <= old(c).db@.groups.len() + 1,
        forall|j: int|
            0 <= j < old(c).db@.groups.len() ==> #[trigger] final(c).db@.groups[j] == old(c).db@.groups[j],
        final(c).db@.groups.len() == old(c).db@.groups.len() + 1 ==> final(c).db@.groups[old(c).db@.groups.len() as int] == crate::db::new_group_v(group_name@) && !has_group(
            old(c).db@.groups,
            group_name@,
        ),
    {
    if c.db.has_relation(repo_id, group_name) {
        return Ok(());
    }
    if c.db.find_group(group_name).is_none() {
        match c.config.is_env_value_true("auto_create_group") {
            Some(b) => {
                if b {
                    let created = c.db.register_group(Group::new(group_name.to_owned()));
                    proof {
                        assert(created is Ok);
                    }
                } else {
                    return Err(RrhError::GroupNotFound(group_name.to_owned()));
                }
            },
            _ => {
                return Err(RrhError::GroupNotFound(group_name.to_owned()));
            },
        }
    }
    let ghost mid = c.db@;
    proof {
        lemma_has_group_iff(mid.groups, group_name@);
    }
    let related = c.db.relate(repo_id.to_owned(), group_name.to_owned());
    proof {
        assert(related is Ok);
        lemma_rel_idx(mid.rels, repo_id@, group_name@, mid.rels.len() as int);
    }
    Ok(())
}

/// Re-points the relations, replaces the repository record, and relates
/// every target name under the new identifier; per-name failures are
/// collected.
#[verifier::loop_isolation(false)]
fn repository_update_impl(c: &mut Context, old_id: String, r: Repository, g: Vec<String>) -> (res:
    Result<bool, RrhError>)
    requires
        wf(old(c).db@),
        closed(old(c).db@),
        has_repo(old(c).db@.repos, old_id@),
        r@.id == old_id@ || !has_repo(old(c).db@.repos, r@.id),
    ensures
        wf(final(c).db@),
        closed(final(c).db@),
        final(c).config == old(c).config,
        final(c).db@.last_modified == old(c).db@.last_modified,
        final(c).db@.repos == old(c).db@.repos.update(
            repo_idx(old(c).db@.repos, old_id@, old(c).db@.repos.len() as int)->Some_0,
            r@,
        ),
        r@.id != old_id@ ==> forall|k: int|
            0 <= k < final(c).db@.rels.len() ==> (#[trigger] final(c).db@.rels[k]).id != old_id@,
        forall|a: Seq<char>, b: Seq<char>|
            a != old_id@ && a != r@.id ==> (#[trigger] has_rel(final(c).db@.rels, a, b) <==> has_rel(
                old(c).db@.rels,
                a,
                b,
            )),
        forall|b: Seq<char>|
            has_rel(old(c).db@.rels, old_id@, b) ==> #[trigger] has_rel(
                final(c).db@.rels,
                r@.id,
                b,
            ),
        forall|b: Seq<char>|
            #[trigger] has_rel(final(c).db@.rels, r@.id, b) ==> has_rel(old(c).db@.rels, old_id@, b)
                || names_has(g.deep_view(), b),
        forall|j: int|
            0 <= j < old(c).db@.groups.len() ==> #[trigger] final(c).db@.groups[j] == old(c).db@.groups[j],
        final(c).db@.groups.len() >= old(c).db@.groups.len(),
        res is Ok ==> forall|k: int|
            0 <= k < g.deep_view().len() ==> has_rel(
                final(c).db@.rels,
                r@.id,
                #[trigger] g.deep_view()[k],
            ),
        res matches Ok(flag) ==> flag == true,
        res is Err ==> res->Err_0 matches RrhError::Arrays(_),
        (auto_create(old(c).config.envs@) || forall|k: int|
            0 <= k < g.deep_view().len() ==> has_group(
                old(c).db@.groups,
                #[trigger] g.deep_view()[k],
            )) ==> res is Ok,
        res is Err ==> !auto_create(old(c).config.envs@),
    {
    let ghost sv = c.db@;
    let ghost oidv = old_id@;
    let ghost nidv = r@.id;
    let new_id = r.id.clone();
    update_relations_all_for_repository(&mut c.db, old_id.as_str(), new_id.as_str());
    let ghost rw = c.db@;
    proof {
        lemma_rels_rename_id_elts(sv.rels, oidv, nidv, sv.rels.len() as int);
        lemma_has_repo_iff(sv.repos, nidv);
        // membership of the rewritten list, both directions
        assert forall|a: Seq<char>, b: Seq<char>|
            a != oidv && a != nidv implies (has_rel(rw.rels, a, b) <==> has_rel(
            sv.rels,
            a,
            b,
        )) by {
            lemma_has_rel_iff(rw.rels, a, b);
            lemma_has_rel_iff(sv.rels, a, b);
            if has_rel(rw.rels, a, b) {
                let k = choose|k: int| 0 <= k < rw.rels.len() && rw.rels[k].id == a && rw.rels[k].group == b;
                assert(sv.rels[k].id == a && sv.rels[k].group == b);
            }
            if has_rel(sv.rels, a, b) {
                let k = choose|k: int| 0 <= k < sv.rels.len() && sv.rels[k].id == a && sv.rels[k].group == b;
                assert(rw.rels[k].id == a && rw.rels[k].group == b);
            }
        }
        assert forall|b: Seq<char>| has_rel(sv.rels, oidv, b) implies #[trigger] has_rel(
            rw.rels,
            nidv,
            b,
        ) by {
            lemma_has_rel_iff(sv.rels, oidv, b);
            lemma_has_rel_iff(rw.rels, nidv, b);
            let k = choose|k: int| 0 <= k < sv.rels.len() && sv.rels[k].id == oidv && sv.rels[k].group == b;
            assert(rw.rels[k].id == nidv && rw.rels[k].group == b);
        }
        assert forall|b: Seq<char>| #[trigger] has_rel(rw.rels, nidv, b) implies has_rel(
            sv.rels,
            oidv,
            b,
        ) by {
            lemma_has_rel_iff(rw.rels, nidv, b);
            lemma_has_rel_iff(sv.rels, oidv, b);
            let k = choose|k: int| 0 <= k < rw.rels.len() && rw.rels[k].id == nidv && rw.rels[k].group == b;
            if sv.rels[k].id == oidv {
            } else {
                // an untouched relation already carried the new identifier,
                // which referential consistency rules out for a fresh one
                if nidv != oidv {
                    assert(has_repo(sv.repos, sv.rels[k].id));
                }
            }
        }
        if nidv != oidv {
            assert forall|k: int| 0 <= k < rw.rels.len() implies (#[trigger] rw.rels[k]).id
                != oidv by {
                if sv.rels[k].id == oidv {
                } else {
                }
            }
        }
    }
    let updated = c.db.update_repository(old_id, r);
    proof {
        assert(updated is Ok);
    }
    let ghost base = c.db@;
    proof {
        lemma_repo_idx(sv.repos, oidv, sv.repos.len() as int);
        let gi = repo_idx(sv.repos, oidv, sv.repos.len() as int)->Some_0;
        assert(base.repos == sv.repos.update(gi, base.repos[gi]));
        assert(base.repos[gi].id == nidv);
        lemma_has_repo_iff(base.repos, nidv);
        assert(has_repo(base.repos, nidv));
        // every relation points at a live repository and group again
        assert forall|k: int| 0 <= k < base.rels.len() implies has_repo(
            base.repos,
            (#[trigger] base.rels[k]).id,
        ) && has_group(base.groups, base.rels[k].group) by {
            assert(base.rels[k] == rw.rels[k]);
            lemma_has_repo_iff(base.repos, base.rels[k].id);
            if rw.rels[k].id == nidv {
                assert(base.repos[gi].id == nidv);
            } else {
                assert(sv.rels[k].id == rw.rels[k].id);
                assert(has_repo(sv.repos, sv.rels[k].id));
                lemma_has_repo_iff(sv.repos, sv.rels[k].id);
                let m = choose|m: int|
                    0 <= m < sv.repos.len() && sv.repos[m].id == sv.rels[k].id;
                assert(m != gi);
                assert(base.repos[m].id == sv.rels[k].id);
            }
            assert(has_group(sv.groups, sv.rels[k].group));
            assert(rw.rels[k].group == sv.rels[k].group);
        }
        assert(closed(base));
    }
    let mut errs: Vec<RrhError> = Vec::new();
    let n = g.len();
    let mut j: usize = 0;
    while j < n
        invariant
            n == g.len(),
            j <= n,
            wf(c.db@),
            closed(c.db@),
            c.config == old(c).config,
            c.db@.repos == base.repos,
            c.db@.last_modified == base.last_modified,
            has_repo(c.db@.repos, nidv),
            forall|jj: int|
                0 <= jj < base.groups.len() ==> #[trigger] c.db@.groups[jj] == base.groups[jj],
            c.db@.groups.len() >= base.groups.len(),
            base.groups == sv.groups,
            forall|x: Seq<char>|
                has_group(sv.groups, x) ==> #[trigger] has_group(c.db@.groups, x),
            (auto_create(old(c).config.envs@) || forall|k: int|
                0 <= k < g.deep_view().len() ==> has_group(
                    sv.groups,
                    #[trigger] g.deep_view()[k],
                )) ==> errs@.len() == 0,
            errs@.len() > 0 ==> !auto_create(old(c).config.envs@),
            // only pairs of the new identifier with listed names were added
            forall|a: Seq<char>, b: Seq<char>|
                #[trigger] has_rel(c.db@.rels, a, b) ==> has_rel(base.rels, a, b) || (a == nidv
                    && names_has(g.deep_view(), b)),
            forall|a: Seq<char>, b: Seq<char>|
                has_rel(base.rels, a, b) ==> #[trigger] has_rel(c.db@.rels, a, b),
            errs@.len() == 0 ==> forall|k: int|
                0 <= k < j ==> has_rel(c.db@.rels, nidv, #[trigger] g.deep_view()[k]),
            nidv != oidv ==> forall|k: int|
                0 <= k < c.db@.rels.len() ==> (#[trigger] c.db@.rels[k]).id != oidv,
        decreases n - j,
    {
        let ghost pre = c.db@;
        let res = relate_with(c, g[j].as_str(), new_id.as_str());
        proof {
            assert(g@[j as int]@ == g.deep_view()[j as int]);
            assert forall|x: Seq<char>| has_group(pre.groups, x) implies #[trigger] has_group(
                c.db@.groups,
                x,
            ) by {
                lemma_has_group_iff(pre.groups, x);
                lemma_has_group_iff(c.db@.groups, x);
                let m = choose|m: int| 0 <= m < pre.groups.len() && pre.groups[m].name == x;
                assert(c.db@.groups[m] == pre.groups[m]);
            }
            if res is Ok {
                assert forall|k: int|
                    0 <= k <= j && errs@.len() == 0 implies has_rel(
                    c.db@.rels,
                    nidv,
                    #[trigger] g.deep_view()[k],
                ) by {
                    if k < j {
                        lemma_has_rel_iff(pre.rels, nidv, g.deep_view()[k]);
                        lemma_has_rel_iff(c.db@.rels, nidv, g.deep_view()[k]);
                        let m = choose|m: int|
                            0 <= m < pre.rels.len() && pre.rels[m].id == nidv && pre.rels[m].group
                                == g.deep_view()[k];
                        assert(c.db@.rels[m].id == nidv && c.db@.rels[m].group == g.deep_view()[k]);
                    }
                }
            }
            assert forall|a: Seq<char>, b: Seq<char>| #[trigger] has_rel(c.db@.rels, a, b) implies
                has_rel(base.rels, a, b) || (a == nidv && names_has(g.deep_view(), b)) by {
                lemma_has_rel_iff(c.db@.rels, a, b);
                let m = choose|m: int|
                    0 <= m < c.db@.rels.len() && c.db@.rels[m].id == a && c.db@.rels[m].group == b;
                if m < pre.rels.len() {
                    lemma_has_rel_iff(pre.rels, a, b);
                    assert(has_rel(pre.rels, a, b));
                } else {
                    assert(c.db@.rels[m].id == new_id@);
                    assert(c.db@.rels[m].group == g@[j as int]@);
                    assert(a == nidv && b == g.deep_view()[j as int]);
                }
            }
            assert forall|a: Seq<char>, b: Seq<char>| has_rel(base.rels, a, b) implies #[trigger] has_rel(
                c.db@.rels,
                a,
                b,
            ) by {
                assert(has_rel(pre.rels, a, b));
                lemma_has_rel_iff(pre.rels, a, b);
                lemma_has_rel_iff(c.db@.rels, a, b);
                let m = choose|m: int|
                    0 <= m < pre.rels.len() && pre.rels[m].id == a && pre.rels[m].group == b;
                assert(c.db@.rels[m].id == a && c.db@.rels[m].group == b);
            }
            if nidv != oidv {
                assert forall|k: int| 0 <= k < c.db@.rels.len() implies (#[trigger] c.db@.rels[k]).id
                    != oidv by {
                    if k < pre.rels.len() {
                    }
                }
            }
        }
        match res {
            Ok(()) => {},
            Err(e) => {
                errs.push(e);
            },
        }
        j = j + 1;
    }
    if errs.len() > 0 {
        return Err(RrhError::Arrays(errs));
    }
    Ok(true)
}

/// The identifier the repository is stored under after the overlay.
pub open spec fn updated_id(sv: StoreV, opts: RepositoryUpdateOpts) -> Seq<char> {
    match opts.id {
        Some(s) => s@,
        None => opts.repository_id@,
    }
}

/// The net effect of the rename-safe update on the store: the record
/// replaced in place, no relation left at the stale identifier, prior
/// memberships preserved on the additive path, nothing related beyond
/// the prior memberships and the target names, and every other
/// repository's relations untouched.
pub open spec fn update_net_effect(
    sv: StoreV,
    fv: StoreV,
    opts: RepositoryUpdateOpts,
    es: Seq<(String, EnvValue)>,
) -> bool {
    let oid = opts.repository_id@;
    let nr = new_repo_v(crate::db::find_repo(sv.repos, oid)->Some_0, opts, es);
    &&& fv.repos == sv.repos.update(repo_idx(sv.repos, oid, sv.repos.len() as int)->Some_0, nr)
    &&& (nr.id != oid ==> forall|k: int|
        0 <= k < fv.rels.len() ==> (#[trigger] fv.rels[k]).id != oid)
    &&& (!spec_renew_groups(opts) ==> forall|b: Seq<char>|
        has_rel(sv.rels, oid, b) ==> #[trigger] has_rel(fv.rels, nr.id, b))
    &&& (forall|b: Seq<char>|
        #[trigger] has_rel(fv.rels, nr.id, b) ==> (!spec_renew_groups(opts) && has_rel(
            sv.rels,
            oid,
            b,
        )) || names_has(target_names(sv, opts), b))
    &&& (forall|a: Seq<char>, b: Seq<char>|
        a != oid && a != nr.id ==> (#[trigger] has_rel(fv.rels, a, b) <==> has_rel(sv.rels, a, b)))
}

/// Every target name is related under the new identifier.
pub open spec fn update_all_related(sv: StoreV, fv: StoreV, opts: RepositoryUpdateOpts) -> bool {
    forall|k: int|
        0 <= k < target_names(sv, opts).len() ==> has_rel(
            fv.rels,
            updated_id(sv, opts),
            #[trigger] target_names(sv, opts)[k],
        )
}

/// The update is owed success: the repository exists, the new identifier
/// does not collide, and every target group exists or may be created.
pub open spec fn update_accepted(sv: StoreV, opts: RepositoryUpdateOpts, es: Seq<(String, EnvValue)>) -> bool {
    &&& has_repo(sv.repos, opts.repository_id@)
    &&& (updated_id(sv, opts) == opts.repository_id@ || !has_repo(sv.repos, updated_id(sv, opts)))
    &&& (auto_create(es) || forall|k: int|
        0 <= k < target_names(sv, opts).len() ==> has_group(
            sv.groups,
            #[trigger] target_names(sv, opts)[k],
        ))
}

/// The rename-safe repository update: resolves the current state, builds
/// the new value, decides the target group set, and leaves every intended
/// relation pointing at the new identifier with none at the stale one.
pub fn perform_update(c: &mut Context, opts: RepositoryUpdateOpts) -> (r: Result<bool, RrhError>)
    requires
        wf(old(c).db@),
        closed(old(c).db@),
    ensures
        wf(final(c).db@),
        closed(final(c).db@),
        final(c).config == old(c).config,
        ({
            let sv = old(c).db@;
            let oid = opts.repository_id@;
            let nr = new_repo_v(
                crate::db::find_repo(sv.repos, oid)->Some_0,
                opts,
                old(c).config.envs@,
            );
            match r {
                Ok(flag) => {
                    &&& has_repo(sv.repos, oid)
                    &&& flag == !opts.dry_run
                    &&& update_net_effect(sv, final(c).db@, opts, old(c).config.envs@)
                    &&& update_all_related(sv, final(c).db@, opts)
                },
                Err(e) => match e {
                    RrhError::RepositoryNotFound(n) => !has_repo(sv.repos, oid) && final(c).db@
                        == sv && n@ == oid,
                    RrhError::ToNameExist(n) => final(c).db@ == sv && n@ == nr.id && nr.id != oid
                        && has_repo(sv.repos, oid) && has_repo(sv.repos, nr.id),
                    // per-name failures: some target group was missing while
                    // auto-creation was off; the replacement and re-pointing
                    // have happened all the same
                    RrhError::Arrays(_) => has_repo(sv.repos, oid) && (updated_id(sv, opts)
                        == oid || !has_repo(sv.repos, updated_id(sv, opts))) && !auto_create(
                        old(c).config.envs@,
                    ) && update_net_effect(sv, final(c).db@, opts, old(c).config.envs@),
                    _ => false,
                },
            }
        }),
        update_accepted(old(c).db@, opts, old(c).config.envs@) ==> r is Ok,
    {
    let ghost sv = old(c).db@;
    let rwg = match c.db.find_repository_with_groups(opts.repository_id.as_str()) {
        Some(rg) => rg,
        None => {
            return Err(RrhError::RepositoryNotFound(opts.repository_id));
        },
    };
    let (new_repo, g) = build_new_repo(c, rwg, &opts);
    proof {
        assert(g.deep_view() == target_names(sv, opts));
    }
    let ghost nidv = new_repo@.id;
    let ghost oidv = opts.repository_id@;
    proof {
        lemma_repo_idx(sv.repos, opts.repository_id@, sv.repos.len() as int);
        assert(nidv == updated_id(sv, opts));
    }
    let same_id = crate::utils::str_eq(new_repo.id.as_str(), opts.repository_id.as_str());
    if !same_id {
        if c.db.find_repository(new_repo.id.as_str()).is_some() {
            return Err(RrhError::ToNameExist(new_repo.id));
        }
    }
    let renew = opts.new_groups.len() > 0;
    if renew {
        delete_relation_all_for_repository(&mut c.db, opts.repository_id.as_str());
        proof {
            lemma_rels_drop_id_elts(sv.rels, oidv, sv.rels.len() as int);
            lemma_has_repo_iff(c.db@.repos, oidv);
            lemma_has_repo_iff(sv.repos, oidv);
        }
    }
    let ghost mid = c.db@;
    proof {
        assert(has_repo(mid.repos, oidv));
        assert(mid.groups == sv.groups);
        if update_accepted(sv, opts, old(c).config.envs@) && !auto_create(old(c).config.envs@) {
            assert forall|k: int| 0 <= k < g.deep_view().len() implies has_group(
                mid.groups,
                #[trigger] g.deep_view()[k],
            ) by {
                assert(g.deep_view()[k] == target_names(sv, opts)[k]);
            }
        }
        // after a replacement's cascade the repository has no relations left
        if spec_renew_groups(opts) {
            assert forall|b: Seq<char>| !has_rel(mid.rels, oidv, b) by {
                lemma_has_rel_iff(mid.rels, oidv, b);
                if has_rel(mid.rels, oidv, b) {
                    let k = choose|k: int|
                        0 <= k < mid.rels.len() && mid.rels[k].id == oidv && mid.rels[k].group
                            == b;
                }
            }
        }
    }
    let res = repository_update_impl(c, opts.repository_id, new_repo, g);
    proof {
        // translate the net effect from the post-cascade state back to
        // the entry state
        assert(repo_idx(mid.repos, oidv, mid.repos.len() as int) == repo_idx(
            sv.repos,
            oidv,
            sv.repos.len() as int,
        ));
        assert(new_repo@ == new_repo_v(
            crate::db::find_repo(sv.repos, oidv)->Some_0,
            opts,
            old(c).config.envs@,
        ));
        assert(mid.repos == sv.repos);
        assert(c.db@.repos == mid.repos.update(
            repo_idx(mid.repos, oidv, mid.repos.len() as int)->Some_0,
            new_repo@,
        ));
        assert(c.db@.repos == sv.repos.update(
            repo_idx(sv.repos, oidv, sv.repos.len() as int)->Some_0,
            new_repo@,
        ));
        if res is Ok || (res is Err && res->Err_0 matches RrhError::Arrays(_)) {
            if !spec_renew_groups(opts) {
                assert(mid.rels == sv.rels);
            } else {
                lemma_rels_drop_id_elts(sv.rels, oidv, sv.rels.len() as int);
                // the cascade touched only the renamed repository's pairs
                assert forall|a: Seq<char>, b: Seq<char>|
                    a != oidv && a != nidv implies (#[trigger] has_rel(c.db@.rels, a, b) <==> has_rel(
                    sv.rels,
                    a,
                    b,
                )) by {
                    lemma_has_rel_iff(mid.rels, a, b);
                    lemma_has_rel_iff(sv.rels, a, b);
                    if has_rel(sv.rels, a, b) {
                        let j = choose|j: int|
                            0 <= j < sv.rels.len() && sv.rels[j].id == a && sv.rels[j].group == b;
                        assert(mid.rels.contains(sv.rels[j]));
                        let m = choose|m: int| 0 <= m < mid.rels.len() && mid.rels[m] == sv.rels[j];
                        assert(mid.rels[m].id == a && mid.rels[m].group == b);
                        assert(has_rel(mid.rels, a, b));
                    }
                    if has_rel(mid.rels, a, b) {
                        let m = choose|m: int|
                            0 <= m < mid.rels.len() && mid.rels[m].id == a && mid.rels[m].group
                                == b;
                        let j = choose|j: int| 0 <= j < sv.rels.len() && sv.rels[j] == mid.rels[m];
                        assert(sv.rels[j].id == a && sv.rels[j].group == b);
                        assert(has_rel(sv.rels, a, b));
                    }
                }
                assert forall|b: Seq<char>|
                    #[trigger] has_rel(final(c).db@.rels, nidv, b) implies (!spec_renew_groups(
                    opts,
                ) && has_rel(sv.rels, oidv, b)) || names_has(target_names(sv, opts), b) by {
                    if has_rel(mid.rels, nidv, b) {
                        assert(!has_rel(mid.rels, oidv, b));
                        if nidv != oidv {
                            // a surviving pair with the fresh identifier would
                            // contradict referential consistency
                            lemma_has_rel_iff(mid.rels, nidv, b);
                            let k = choose|k: int|
                                0 <= k < mid.rels.len() && mid.rels[k].id == nidv
                                    && mid.rels[k].group == b;
                            let j = choose|j: int|
                                0 <= j < sv.rels.len() && sv.rels[j] == mid.rels[k];
                            assert(has_repo(sv.repos, sv.rels[j].id));
                        }
                    }
                }
            }
            if !spec_renew_groups(opts) {
                // the listed names and the current memberships make up the
                // target set
                assert forall|b: Seq<char>|
                    #[trigger] has_rel(final(c).db@.rels, nidv, b) implies (has_rel(
                    sv.rels,
                    oidv,
                    b,
                ) || names_has(target_names(sv, opts), b)) by {
                    if !has_rel(mid.rels, oidv, b) {
                        if names_has(g.deep_view(), b) {
                            assert(g.deep_view() == target_names(sv, opts));
                        }
                    }
                }
                assert forall|k: int|
                    0 <= k < target_names(sv, opts).len() && res is Ok implies has_rel(
                    final(c).db@.rels,
                    nidv,
                    #[trigger] target_names(sv, opts)[k],
                ) by {
                    assert(g.deep_view() == target_names(sv, opts));
                }
            } else {
                assert(g.deep_view() == target_names(sv, opts));
            }
        }
    }
    match res {
        Ok(_) => Ok(!opts.dry_run),
        Err(e) => Err(e),
    }
}

} // verus!
