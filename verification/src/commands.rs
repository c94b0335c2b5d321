//! The command layer: one entry point per subcommand. Each returns
//! whether the store shall be persisted afterwards, together with
//! whatever text or plan the caller is to act on.
use vstd::prelude::*;

use crate::cli::{
    AddOpts, AliasOpts, ExecOpts, ExportOpts, FindOpts, GroupOpts, OpenOpts, OpenTarget, PruneOpts,
    RecentOpts, RemoveOpts, RenameOpts, RepositoryListOpts, RepositoryOpts, RrhError,
};
use crate::config::Context;
use crate::db::{closed, wf};
use crate::entities::Repository;

pub mod add;
pub mod alias;
pub mod config;
pub mod exec;
pub mod export;
pub mod group;
pub mod list;
pub mod prune;
pub mod repository;

verus! {

/// Registers repositories from probed paths; owed whenever every path
/// builds a record under a fresh, unshared identifier.
pub fn perform_add(context: &mut Context, c: AddOpts) -> (r: Result<bool, RrhError>)
    requires
        wf(old(context).db@),
        closed(old(context).db@),
    ensures
        wf(final(context).db@),
        closed(final(context).db@),
        final(context).config == old(context).config,
        r matches Ok(flag) ==> flag == !c.dry_run && forall|k: int|
            0 <= k < c.paths@.len() ==> crate::db::has_repo(
                final(context).db@.repos,
                add::added_id(#[trigger] c.paths@[k], c.repo),
            ),
        r is Err ==> r->Err_0 matches RrhError::Arrays(_),
        add::addable(old(context).db@, c) ==> r is Ok,
{
    add::perform_add(context, c)
}

/// Lists, binds, rebinds or unbinds an alias.
pub fn perform_alias(context: &mut Context, c: AliasOpts) -> (r: Result<
    (bool, Vec<String>),
    RrhError,
>) {
    alias::perform(context, c)
}

/// Finds repositories by keyword and renders them.
pub fn perform_find(context: &Context, c: FindOpts) -> (r: Result<
    (bool, Vec<list::Rendering>),
    RrhError,
>) {
    list::perform_find(context, c)
}

/// Decides what to execute on which repositories.
pub fn perform_exec(context: &Context, c: ExecOpts) -> (r: Result<
    (exec::Cmd, Vec<Repository>, bool),
    RrhError,
>) {
    exec::perform_exec(context, c)
}

/// Writes the catalog in the chosen export format.
pub fn perform_export(context: &Context, c: ExportOpts) -> (r: Result<(bool, String), RrhError>) {
    export::perform_export(context, c)
}

/// Runs one group subcommand.
pub fn perform_group(context: &mut Context, c: GroupOpts) -> (r: Result<bool, RrhError>)
    requires
        wf(old(context).db@),
        closed(old(context).db@),
    ensures
        wf(final(context).db@),
        closed(final(context).db@),
{
    group::perform(context, c)
}

/// Lists repositories by group.
pub fn perform_list(context: &Context, c: RepositoryListOpts) -> (r: Result<
    (bool, Vec<list::Rendering>),
    RrhError,
>) {
    list::perform_list(context, c)
}

/// Decides what to open for which repositories.
pub fn perform_open(context: &Context, c: OpenOpts) -> (r: Result<
    (OpenTarget, Vec<Repository>),
    RrhError,
>) {
    exec::perform_open(context, c)
}

/// Prunes groups with no members and repositories whose path is gone —
/// exactly those; the flags say, per stored repository, whether its
/// path exists. Under the dry-run flag the store is left untouched.
pub fn perform_prune(context: &mut Context, c: PruneOpts, path_exists: Vec<bool>) -> (r: Result<
    bool,
    RrhError,
>)
    requires
        wf(old(context).db@),
        closed(old(context).db@),
        path_exists@.len() == old(context).db@.repos.len(),
    ensures
        wf(final(context).db@),
        closed(final(context).db@),
        final(context).config == old(context).config,
        r matches Ok(flag) && flag == !c.dry_run,
        c.dry_run ==> final(context).db@ == old(context).db@,
        !c.dry_run ==> (forall|k: int|
            0 <= k < prune::empty_group_names(
                old(context).db@,
                old(context).db@.groups.len() as int,
            ).len() ==> !crate::db::has_group(
                final(context).db@.groups,
                #[trigger] prune::empty_group_names(
                    old(context).db@,
                    old(context).db@.groups.len() as int,
                )[k],
            )),
        !c.dry_run ==> (forall|k: int|
            0 <= k < prune::missing_path_repos(
                old(context).db@.repos,
                path_exists@,
                old(context).db@.repos.len() as int,
            ).len() ==> !crate::db::has_repo(
                final(context).db@.repos,
                (#[trigger] prune::missing_path_repos(
                    old(context).db@.repos,
                    path_exists@,
                    old(context).db@.repos.len() as int,
                )[k]).id,
            )),
{
    prune::perform_prune(context, c, path_exists)
}

/// Runs one repository subcommand.
pub fn perform_repository(context: &mut Context, c: RepositoryOpts) -> (r: Result<bool, RrhError>)
    requires
        wf(old(context).db@),
        closed(old(context).db@),
    ensures
        wf(final(context).db@),
        closed(final(context).db@),
{
    repository::perform(context, c)
}

/// Renders the least recently accessed repositories.
pub fn perform_recent(context: &Context, c: RecentOpts) -> (r: Result<
    (bool, Vec<list::Rendering>),
    RrhError,
>) {
    list::perform_recent(context, c)
}

/// Renames a repository or a group, rename safe either way: on success
/// the record stands under the new key with every relation re-pointed
/// and none at the old one; no failure leaves a trace.
pub fn perform_rename(context: &mut Context, c: RenameOpts, now: u64) -> (r: Result<
    bool,
    RrhError,
>)
    requires
        wf(old(context).db@),
        closed(old(context).db@),
    ensures
        wf(final(context).db@),
        closed(final(context).db@),
        final(context).config == old(context).config,
        r is Err ==> final(context).db@ == old(context).db@,
        !c.repository && !c.group ==> (r matches Ok(flag) ==> flag == !c.dry_run && (if
        crate::db::has_repo(old(context).db@.repos, c.from@) && !crate::db::has_group(
            old(context).db@.groups,
            c.from@,
        ) {
            prune::renamed_repository(old(context).db@, final(context).db@, c.from@, c.to_name@)
        } else {
            crate::db::has_group(old(context).db@.groups, c.from@) && !crate::db::has_repo(
                old(context).db@.repos,
                c.from@,
            ) && prune::renamed_group(old(context).db@, final(context).db@, c.from@, c.to_name@)
        })),
        (!c.repository && !c.group && !crate::db::has_repo(old(context).db@.repos, c.to_name@)
            && !crate::db::has_group(old(context).db@.groups, c.to_name@) && (crate::db::has_repo(
            old(context).db@.repos,
            c.from@,
        ) != crate::db::has_group(old(context).db@.groups, c.from@))) ==> r is Ok,
{
    prune::perform_rename(context, c, now)
}

/// Removes whatever each listed name resolves to, honoring the force
/// flag; owed whenever every listed name resolves to exactly one side
/// and may be removed, and on success no listed name resolves any more.
pub fn perform_remove(context: &mut Context, c: RemoveOpts) -> (r: Result<bool, RrhError>)
    requires
        wf(old(context).db@),
        closed(old(context).db@),
    ensures
        wf(final(context).db@),
        closed(final(context).db@),
        final(context).config == old(context).config,
        r matches Ok(flag) ==> flag == !c.dry_run && forall|k: int|
            0 <= k < c.targets@.len() ==> !crate::db::has_repo(
                final(context).db@.repos,
                (#[trigger] c.targets@[k])@,
            ) && !crate::db::has_group(final(context).db@.groups, c.targets@[k]@),
        r is Err ==> r->Err_0 matches RrhError::Arrays(_),
        prune::flat_removable(old(context).db@, c.targets@, c.force) ==> r is Ok,
{
    prune::perform_remove(context, c)
}

} // verus!
