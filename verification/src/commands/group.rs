//! The group commands: adding, listing, renaming and removing groups. A
//! rename is safe here because the store's group update re-points every
//! relation; removal of a non-empty group is guarded unless forced.
use vstd::prelude::*;

use crate::cli::{
    GroupAddOpts, GroupEntry, GroupListOpts, GroupOfOpts, GroupOpts, GroupPrintingOpts,
    GroupRemoveOpts, GroupSubCommand, GroupUpdateOpts, RrhError, ShellName,
};
use crate::commands::list::{normalize_format, Rendering, TableData};
use crate::config::{Context, EnvValue};
use crate::db::{
    closed, find_group_v, group_idx, has_group, has_rel, lemma_group_idx, lemma_has_group_iff,
    lemma_push_group_membership, spec_update_group, wf,
};
use crate::entities::{Group, GroupV};
use crate::utils::{format_humanize, str_eq, u64_to_string};

verus! {

/// Dispatches one group subcommand; the adding, removing and updating
/// arms keep their workers' guarantees.
pub fn perform(c: &mut Context, opts: GroupOpts) -> (r: Result<bool, RrhError>)
    requires
        wf(old(c).db@),
        closed(old(c).db@),
    ensures
        wf(final(c).db@),
        closed(final(c).db@),
        final(c).config == old(c).config,
        opts.subcmd matches GroupSubCommand::Add(o) ==> (r is Ok <==> !some_name_taken(
            old(c).db@.groups,
            o.names@,
        )) && (r is Ok ==> forall|k: int|
            0 <= k < o.names@.len() ==> has_group(final(c).db@.groups, (#[trigger] o.names@[k])@)),
        opts.subcmd matches GroupSubCommand::Remove(o) ==> (removable_groups(
            old(c).db@,
            o.args@,
            o.force,
        ) ==> r is Ok) && (r is Ok ==> forall|k: int|
            0 <= k < o.args@.len() ==> !has_group(final(c).db@.groups, (#[trigger] o.args@[k])@)),
        opts.subcmd matches GroupSubCommand::Update(o) ==> ((has_group(
            old(c).db@.groups,
            o.name@,
        ) && (overlaid_group(find_group_v(old(c).db@.groups, o.name@)->Some_0, o).name == o.name@
            || !has_group(
            old(c).db@.groups,
            overlaid_group(find_group_v(old(c).db@.groups, o.name@)->Some_0, o).name,
        )) ==> r is Ok) && (r is Ok ==> final(c).db@ == spec_update_group(
            old(c).db@,
            o.name@,
            overlaid_group(find_group_v(old(c).db@.groups, o.name@)->Some_0, o),
        ))),
{
    match opts.subcmd {
        GroupSubCommand::Add(o) => perform_add(c, &o),
        GroupSubCommand::List(o) => {
            match perform_list(c, o) {
                Ok((flag, _)) => Ok(flag),
                Err(e) => Err(e),
            }
        },
        GroupSubCommand::Of(o) => {
            match perform_of(c, o) {
                Ok((flag, _)) => Ok(flag),
                Err(e) => Err(e),
            }
        },
        GroupSubCommand::Remove(o) => perform_remove(c, o),
        GroupSubCommand::Update(o) => perform_update(c, o),
    }
}

/// Whether some listed name is unusable: already a group, or a repeat of
/// an earlier listed name.
pub open spec fn some_name_taken(gs: Seq<GroupV>, names: Seq<String>) -> bool {
    exists|k: int|
        0 <= k < names.len() && (has_group(gs, (#[trigger] names[k])@) || exists|j: int|
            0 <= j < k && names[j]@ == names[k]@)
}

/// Registers one group per listed name with the shared note and abbrev
/// flag: it succeeds exactly when every listed name is fresh and listed
/// once; a taken name is reported and the rest are registered all the
/// same.
#[verifier::loop_isolation(false)]
pub fn perform_add(c: &mut Context, opts: &GroupAddOpts) -> (r: Result<bool, RrhError>)
    requires
        wf(old(c).db@),
        closed(old(c).db@),
    ensures
        wf(final(c).db@),
        closed(final(c).db@),
        final(c).config == old(c).config,
        final(c).db@.repos == old(c).db@.repos,
        final(c).db@.rels == old(c).db@.rels,
        r is Ok <==> !some_name_taken(old(c).db@.groups, opts.names@),
        r matches Ok(flag) ==> flag == !opts.dry_run,
        r is Err ==> r->Err_0 matches RrhError::Arrays(_),
        // every listed name is a group afterwards, failures or not
        forall|k: int|
            0 <= k < opts.names@.len() ==> has_group(final(c).db@.groups, (#[trigger] opts.names@[k])@),
        forall|x: Seq<char>|
            #[trigger] has_group(final(c).db@.groups, x) ==> has_group(old(c).db@.groups, x) || (
            exists|k: int| 0 <= k < opts.names@.len() && (#[trigger] opts.names@[k])@ == x),
{
    let ghost sv0 = old(c).db@;
    let mut errs: Vec<RrhError> = Vec::new();
    let n = opts.names.len();
    let mut i: usize = 0;
    while i < n
        invariant
            n == opts.names.len(),
            i <= n,
            wf(c.db@),
            closed(c.db@),
            c.config == old(c).config,
            c.db@.repos == sv0.repos,
            c.db@.rels == sv0.rels,
            forall|k: int| 0 <= k < i ==> has_group(c.db@.groups, (#[trigger] opts.names@[k])@),
            forall|x: Seq<char>|
                has_group(sv0.groups, x) ==> #[trigger] has_group(c.db@.groups, x),
            forall|x: Seq<char>|
                #[trigger] has_group(c.db@.groups, x) ==> has_group(sv0.groups, x) || (exists|k: int|
                    0 <= k < i && (#[trigger] opts.names@[k])@ == x),
            errs@.len() == 0 ==> forall|x: Seq<char>|
                #[trigger] has_group(c.db@.groups, x) <==> (has_group(sv0.groups, x) || exists|k: int|
                    0 <= k < i && (#[trigger] opts.names@[k])@ == x),
            errs@.len() > 0 ==> exists|k: int|
                0 <= k < i && (has_group(sv0.groups, (#[trigger] opts.names@[k])@) || exists|j: int|
                    0 <= j < k && opts.names@[j]@ == opts.names@[k]@),
            (exists|k: int|
                0 <= k < i && (has_group(sv0.groups, (#[trigger] opts.names@[k])@) || exists|j: int|
                    0 <= j < k && opts.names@[j]@ == opts.names@[k]@)) ==> errs@.len() > 0,
        decreases n - i,
    {
        let ghost pre = c.db@;
        let note = match &opts.note {
            Some(s) => s.clone(),
            None => String::new(),
        };
        let group = Group::new_with(opts.names[i].clone(), note, Some(opts.abbrev));
        match c.db.register_group(group) {
            Ok(()) => {
                proof {
                    lemma_push_group_membership(pre.groups, c.db@.groups[c.db@.groups.len() - 1]);
                    assert(c.db@.groups =~= pre.groups.push(
                        c.db@.groups[c.db@.groups.len() - 1],
                    ));
                    assert(c.db@.groups[c.db@.groups.len() - 1].name == opts.names@[i as int]@);
                }
            },
            Err(e) => {
                proof {
                    // the taken name was stale or listed before
                    assert(has_group(pre.groups, opts.names@[i as int]@));
                }
                errs.push(e);
            },
        }
        i = i + 1;
    }
    if errs.len() == 0 {
        Ok(!opts.dry_run)
    } else {
        Err(RrhError::Arrays(errs))
    }
}

/// Whether an entry list asks for `e`.
fn is_group_entry(entries: &Vec<GroupEntry>, e: GroupEntry) -> (r: bool)
    ensures
        r == exists|i: int| 0 <= i < entries@.len() && entries@[i] == e,
{
    let n = entries.len();
    let mut i: usize = 0;
    while i < n
        invariant
            n == entries.len(),
            i <= n,
            forall|j: int| 0 <= j < i ==> entries@[j] != e,
        decreases n - i,
    {
        if entries[i] == e {
            return true;
        }
        i = i + 1;
    }
    false
}

impl GroupPrintingOpts {
    /// Whether this run shall print the given column.
    pub fn is_print_target(&self, target: GroupEntry) -> (r: bool)
        ensures
            r == (exists|i: int|
                0 <= i < self.entries@.len() && (self.entries@[i] == GroupEntry::All
                    || self.entries@[i] == target)),
    {
        let a = is_group_entry(&self.entries, GroupEntry::All);
        let b = is_group_entry(&self.entries, target);
        a || b
    }

    /// An empty entry list defaults to every column.
    pub fn update_entries(&mut self)
        ensures
            final(self).entries@.len() > 0,
            final(self).no_header == old(self).no_header,
            final(self).format == old(self).format,
    {
        if self.entries.len() == 0 {
            self.entries = vec![GroupEntry::All];
        }
    }

    /// Settles the table style, as for the repository listings.
    pub fn update_format(&mut self, format: Option<&EnvValue>)
        ensures
            final(self).format is Some,
            final(self).entries == old(self).entries,
            final(self).no_header == old(self).no_header,
    {
        match &self.format {
            Some(f) => {
                self.format = Some(normalize_format(f.as_str()));
            },
            None => {
                match format {
                    Some(EnvValue::Var(f)) => {
                        self.format = Some(normalize_format(f.as_str()));
                    },
                    _ => {
                        self.format = Some("blank".to_owned());
                    },
                }
            },
        }
    }
}

/// The header cells of a group table.
fn group_header(opts: &GroupPrintingOpts) -> (r: Option<Vec<String>>)
    ensures
        r is Some <==> !opts.no_header,
{
    if opts.no_header {
        return None;
    }
    let mut header: Vec<String> = Vec::new();
    if opts.is_print_target(GroupEntry::Name) {
        header.push("Name".to_owned());
    }
    if opts.is_print_target(GroupEntry::Note) {
        header.push("Note".to_owned());
    }
    if opts.is_print_target(GroupEntry::Abbrev) {
        header.push("Abbrev".to_owned());
    }
    if opts.is_print_target(GroupEntry::Count) {
        header.push("Count".to_owned());
    }
    Some(header)
}

/// The table of the given groups: name, note, abbrev flag and member
/// count, as requested.
fn print_group(c: &Context, groups: &Vec<Group>, opts: &GroupPrintingOpts) -> (r: Rendering) {
    let header = group_header(opts);
    let mut rows: Vec<Vec<String>> = Vec::new();
    let n = groups.len();
    let mut i: usize = 0;
    while i < n
        invariant
            n == groups.len(),
            i <= n,
        decreases n - i,
    {
        let mut row: Vec<String> = Vec::new();
        if opts.is_print_target(GroupEntry::Name) {
            row.push(groups[i].name.clone());
        }
        if opts.is_print_target(GroupEntry::Note) {
            row.push(groups[i].note.clone());
        }
        if opts.is_print_target(GroupEntry::Abbrev) {
            if groups[i].is_abbrev() {
                row.push("true".to_owned());
            } else {
                row.push("false".to_owned());
            }
        }
        if opts.is_print_target(GroupEntry::Count) {
            let count = match c.db.find_repositories_of(groups[i].name.as_str()) {
                Ok(rs) => rs.len(),
                Err(_) => 0,
            };
            row.push(u64_to_string(count as u64));
        }
        rows.push(row);
        i = i + 1;
    }
    let style = match &opts.format {
        Some(f) => f.clone(),
        None => "blank".to_owned(),
    };
    Rendering::Table(TableData { preface: None, header, rows, style })
}

/// Lists the named groups, or all of them; unknown names are collected
/// as failures after the listing is built.
pub fn perform_list(c: &Context, opts: GroupListOpts) -> (r: Result<(bool, Vec<Rendering>), RrhError>)
{
    let mut errs: Vec<RrhError> = Vec::new();
    let mut groups: Vec<Group> = Vec::new();
    if opts.args.len() > 0 {
        let n = opts.args.len();
        let mut i: usize = 0;
        while i < n
            invariant
                n == opts.args.len(),
                i <= n,
            decreases n - i,
        {
            match c.db.find_group(opts.args[i].as_str()) {
                Some(g) => groups.push(g),
                None => errs.push(RrhError::GroupNotFound(opts.args[i].clone())),
            }
            i = i + 1;
        }
    } else {
        match c.db.all_groups() {
            Ok(gs) => {
                groups = gs;
            },
            Err(e) => {
                return Err(e);
            },
        }
    }
    let mut p_opts = opts.p_opts;
    p_opts.update_entries();
    p_opts.update_format(c.config.get_env("print_list_style"));
    let table = print_group(c, &groups, &p_opts);
    if errs.len() > 0 {
        return Err(RrhError::Arrays(errs));
    }
    let mut out: Vec<Rendering> = Vec::new();
    out.push(table);
    Ok((false, out))
}

/// For each listed repository, the groups it belongs to, each set under a
/// preface naming the repository.
pub fn perform_of(c: &Context, opts: GroupOfOpts) -> (r: Result<(bool, Vec<Rendering>), RrhError>)
{
    let mut p_opts = opts.p_opts;
    p_opts.update_entries();
    p_opts.update_format(c.config.get_env("print_list_style"));
    let mut out: Vec<Rendering> = Vec::new();
    let n = opts.names.len();
    let mut i: usize = 0;
    while i < n
        invariant
            n == opts.names.len(),
            i <= n,
        decreases n - i,
    {
        match c.db.find_groups_of(opts.names[i].as_str()) {
            Ok(gs) => {
                let mut preface = "\"".to_owned();
                preface.append(opts.names[i].as_str());
                preface.append("\"'s ");
                preface.append(format_humanize(gs.len(), "group", "groups").as_str());
                preface.append(":");
                match print_group(c, &gs, &p_opts) {
                    Rendering::Table(t) => {
                        out.push(
                            Rendering::Table(
                                TableData {
                                    preface: Some(preface),
                                    header: t.header,
                                    rows: t.rows,
                                    style: t.style,
                                },
                            ),
                        );
                    },
                    other => {
                        out.push(other);
                    },
                }
            },
            Err(e) => {
                return Err(e);
            },
        }
        i = i + 1;
    }
    Ok((false, out))
}

/// Whether every listed group can be deleted: present, listed once, and
/// — without the force flag — free of relations.
pub open spec fn removable_groups(sv: crate::db::StoreV, args: Seq<String>, force: bool) -> bool {
    (forall|k: int| 0 <= k < args.len() ==> has_group(sv.groups, (#[trigger] args[k])@)) && (
    forall|k: int, l: int| 0 <= k < l < args.len() ==> args[k]@ != args[l]@) && (force || forall|
        k: int,
    |
        0 <= k < args.len() ==> crate::db::rels_of_group(
            sv.rels,
            (#[trigger] args[k])@,
            sv.rels.len() as int,
        ).len() == 0)
}

/// Deletes the listed groups, cascading to their relations; without the
/// force flag a group that still has relations is kept and reported.
/// Deletion is owed whenever every listed group is removable.
#[verifier::loop_isolation(false)]
pub fn perform_remove(c: &mut Context, opts: GroupRemoveOpts) -> (r: Result<bool, RrhError>)
    requires
        wf(old(c).db@),
        closed(old(c).db@),
    ensures
        wf(final(c).db@),
        closed(final(c).db@),
        final(c).config == old(c).config,
        final(c).db@.repos == old(c).db@.repos,
        r matches Ok(flag) ==> flag == !opts.dry_run && forall|k: int|
            0 <= k < opts.args@.len() ==> !has_group(
                final(c).db@.groups,
                (#[trigger] opts.args@[k])@,
            ),
        r is Err ==> r->Err_0 matches RrhError::Arrays(_),
        removable_groups(old(c).db@, opts.args@, opts.force) ==> r is Ok,
        // deletion only: nothing appears, relations only disappear, and
        // only the listed names go
        forall|x: Seq<char>|
            #[trigger] has_group(final(c).db@.groups, x) ==> has_group(old(c).db@.groups, x),
        forall|a: Seq<char>, b: Seq<char>|
            #[trigger] has_rel(final(c).db@.rels, a, b) ==> has_rel(old(c).db@.rels, a, b),
        forall|x: Seq<char>|
            has_group(old(c).db@.groups, x) && (forall|k: int|
                0 <= k < opts.args@.len() ==> (#[trigger] opts.args@[k])@ != x)
                ==> #[trigger] has_group(final(c).db@.groups, x),
        // the non-empty guard: without force, relations are untouched, a
        // group that still has relations survives, and one listed is a
        // reported failure
        !opts.force ==> final(c).db@.rels == old(c).db@.rels,
        !opts.force ==> forall|x: Seq<char>|
            has_group(old(c).db@.groups, x) && crate::db::rels_of_group(
                old(c).db@.rels,
                x,
                old(c).db@.rels.len() as int,
            ).len() > 0 ==> #[trigger] has_group(final(c).db@.groups, x),
        (!opts.force && exists|k: int|
            0 <= k < opts.args@.len() && crate::db::rels_of_group(
                old(c).db@.rels,
                (#[trigger] opts.args@[k])@,
                old(c).db@.rels.len() as int,
            ).len() > 0) ==> r is Err,
{
    let ghost sv0 = old(c).db@;
    let mut errs: Vec<RrhError> = Vec::new();
    let n = opts.args.len();
    let mut i: usize = 0;
    while i < n
        invariant
            n == opts.args.len(),
            i <= n,
            wf(c.db@),
            closed(c.db@),
            c.config == old(c).config,
            c.db@.repos == sv0.repos,
            errs@.len() == 0 ==> forall|k: int|
                0 <= k < i ==> !has_group(c.db@.groups, (#[trigger] opts.args@[k])@),
            forall|x: Seq<char>|
                #[trigger] has_group(c.db@.groups, x) ==> has_group(sv0.groups, x),
            forall|a: Seq<char>, b: Seq<char>|
                #[trigger] has_rel(c.db@.rels, a, b) ==> has_rel(sv0.rels, a, b),
            forall|x: Seq<char>|
                has_group(sv0.groups, x) && (forall|k: int|
                    0 <= k < i ==> (#[trigger] opts.args@[k])@ != x) ==> #[trigger] has_group(
                    c.db@.groups,
                    x,
                ),
            !opts.force ==> c.db@.rels == sv0.rels,
            !opts.force ==> forall|x: Seq<char>|
                has_group(sv0.groups, x) && crate::db::rels_of_group(
                    sv0.rels,
                    x,
                    sv0.rels.len() as int,
                ).len() > 0 ==> #[trigger] has_group(c.db@.groups, x),
            (!opts.force && exists|k: int|
                0 <= k < i && crate::db::rels_of_group(
                    sv0.rels,
                    (#[trigger] opts.args@[k])@,
                    sv0.rels.len() as int,
                ).len() > 0) ==> errs@.len() > 0,
            removable_groups(sv0, opts.args@, opts.force) ==> errs@.len() == 0 && forall|k: int|
                i <= k < n ==> has_group(c.db@.groups, (#[trigger] opts.args@[k])@),
        decreases n - i,
    {
        let ghost pre = c.db@;
        let mut blocked = false;
        if !opts.force {
            let rels = c.db.find_relation_with_group(opts.args[i].as_str());
            if rels.len() > 0 {
                errs.push(RrhError::GroupNotEmpty(opts.args[i].clone()));
                blocked = true;
            }
        }
        if !blocked {
            match c.db.delete_group(opts.args[i].clone()) {
                Ok(()) => {
                    proof {
                        lemma_group_idx(pre.groups, opts.args@[i as int]@, pre.groups.len() as int);
                        let gi = group_idx(
                            pre.groups,
                            opts.args@[i as int]@,
                            pre.groups.len() as int,
                        )->Some_0;
                        crate::db::lemma_delete_group_membership(
                            pre.groups,
                            opts.args@[i as int]@,
                            gi,
                        );
                        crate::db::lemma_drop_group_membership(pre.rels, opts.args@[i as int]@);
                        if !opts.force {
                            // the guard passed, so the cascade drops nothing
                            crate::db::lemma_rels_of_group_elts(
                                pre.rels,
                                opts.args@[i as int]@,
                                pre.rels.len() as int,
                            );
                            assert forall|k: int|
                                0 <= k < pre.rels.len() implies (#[trigger] pre.rels[k]).group
                                != opts.args@[i as int]@ by {
                                if pre.rels[k].group == opts.args@[i as int]@ {
                                    assert(crate::db::rels_of_group(
                                        pre.rels,
                                        opts.args@[i as int]@,
                                        pre.rels.len() as int,
                                    ).contains(pre.rels[k]));
                                }
                            }
                            crate::db::lemma_rels_drop_group_noop(
                                pre.rels,
                                opts.args@[i as int]@,
                                pre.rels.len() as int,
                            );
                            assert(pre.rels.take(pre.rels.len() as int) =~= pre.rels);
                        }
                    }
                },
                Err(e) => {
                    errs.push(e);
                },
            }
        }
        proof {
            if !opts.force && crate::db::rels_of_group(
                sv0.rels,
                opts.args@[i as int]@,
                sv0.rels.len() as int,
            ).len() > 0 {
                // the stored relations were unchanged, so the guard saw them
                crate::db::lemma_rels_of_group_elts(
                    sv0.rels,
                    opts.args@[i as int]@,
                    sv0.rels.len() as int,
                );
                assert(errs@.len() > 0);
            }
        }
        i = i + 1;
    }
    if errs.len() > 0 {
        Err(RrhError::Arrays(errs))
    } else {
        Ok(!opts.dry_run)
    }
}

impl GroupUpdateOpts {
    /// Overlays only the supplied fields onto the current group.
    pub fn build_new_group(&self, group: &Group) -> (g: Group)
        ensures
            g@.name == (match self.rename_to {
                Some(n) => n@,
                None => group@.name,
            }),
            g@.note == (match self.note {
                Some(n) => n@,
                None => group@.note,
            }),
            g@.abbrev == (match self.abbrev {
                Some(a) => Some(a),
                None => group@.abbrev,
            }),
    {
        let mut new_group = group.clone();
        match &self.rename_to {
            Some(rename_to) => {
                new_group.name = rename_to.clone();
            },
            None => {},
        }
        match &self.note {
            Some(note) => {
                new_group.note = note.clone();
            },
            None => {},
        }
        match &self.abbrev {
            Some(abbrev) => {
                new_group.abbrev = Some(*abbrev);
            },
            None => {},
        }
        new_group
    }
}

/// The group value after the update's overlay.
pub open spec fn overlaid_group(old_g: GroupV, opts: GroupUpdateOpts) -> GroupV {
    GroupV {
        name: match opts.rename_to {
            Some(n) => n@,
            None => old_g.name,
        },
        note: match opts.note {
            Some(n) => n@,
            None => old_g.note,
        },
        abbrev: match opts.abbrev {
            Some(a) => Some(a),
            None => old_g.abbrev,
        },
    }
}

/// The rename-safe group update: overlays the supplied fields and lets
/// the store re-point every relation from the old name to the new one, so
/// that no relation is left naming the old group. A rename onto a third
/// group's name is refused.
pub fn perform_update(c: &mut Context, opts: GroupUpdateOpts) -> (r: Result<bool, RrhError>)
    requires
        wf(old(c).db@),
        closed(old(c).db@),
    ensures
        wf(final(c).db@),
        closed(final(c).db@),
        final(c).config == old(c).config,
        ({
            let sv = old(c).db@;
            let oldn = opts.name@;
            let ng = overlaid_group(find_group_v(sv.groups, oldn)->Some_0, opts);
            match r {
                Ok(flag) => {
                    &&& has_group(sv.groups, oldn)
                    &&& flag == !opts.dry_run
                    &&& final(c).db@ == spec_update_group(sv, oldn, ng)
                    &&& (ng.name != oldn ==> forall|k: int|
                        0 <= k < final(c).db@.rels.len() ==> (#[trigger] final(c).db@.rels[k]).group != oldn)
                },
                Err(e) => match e {
                    RrhError::GroupNotFound(n) => !has_group(sv.groups, oldn) && final(c).db@ == sv
                        && n@ == oldn,
                    RrhError::ToNameExist(n) => final(c).db@ == sv && n@ == ng.name && ng.name
                        != oldn && has_group(sv.groups, oldn) && has_group(sv.groups, ng.name),
                    _ => false,
                },
            }
        }),
{
    let group = match c.db.find_group(opts.name.as_str()) {
        Some(g) => g,
        None => {
            return Err(RrhError::GroupNotFound(opts.name));
        },
    };
    let new_group = opts.build_new_group(&group);
    let same_name = str_eq(new_group.name.as_str(), opts.name.as_str());
    if !same_name {
        if c.db.find_group(new_group.name.as_str()).is_some() {
            return Err(RrhError::ToNameExist(new_group.name));
        }
    }
    let dry_run = opts.dry_run;
    match c.db.update_group(opts.name, new_group) {
        Ok(()) => Ok(!dry_run),
        Err(e) => Err(e),
    }
}

/// The word a shell goes by.
pub fn shell_to_string(shell: ShellName) -> (r: String)
    ensures
        shell == ShellName::Bash ==> r@ == "bash"@,
        shell == ShellName::Zsh ==> r@ == "zsh"@,
        shell == ShellName::Fish ==> r@ == "fish"@,
        shell == ShellName::Elvish ==> r@ == "elvish"@,
        shell == ShellName::Powershell ==> r@ == "powershell"@,
{
    match shell {
        ShellName::Bash => "bash".to_owned(),
        ShellName::Zsh => "zsh".to_owned(),
        ShellName::Fish => "fish".to_owned(),
        ShellName::Elvish => "elvish".to_owned(),
        ShellName::Powershell => "powershell".to_owned(),
    }
}

} // verus!
