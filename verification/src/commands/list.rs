//! The listing features: finding and ordering repositories, building the
//! rows of every report, and validating the configured table style. What
//! is computed here is plain text; drawing the table borders is the
//! caller's concern.
use vstd::prelude::*;
use vstd::multiset::Multiset;
use vstd::seq_lib::group_to_multiset_ensures;

use crate::cli::{
    FindOpts, RecentOpts, RepositoryEntry, RepositoryListOpts, RepositoryPrintingOpts, RrhError,
};
use crate::config::{Config, Context, EnvValue};
use crate::db::groups_of;
use crate::entities::{Group, GroupV, RepoV, Repository, RepositoryWithGroups};
use crate::utils::{contains_seq, lower_of, str_contains, str_eq, to_lowercase};
use vstd::string::StringExecFns;

verus! {

/// One block of report output: a table to draw, items to lay out in
/// terminal columns, or plain lines.
pub enum Rendering {
    Table(TableData),
    Columns(Vec<String>),
    Lines(Vec<String>),
}

/// The text of one table: an optional preface line, an optional header
/// row, the data rows, and the style name to draw it with.
pub struct TableData {
    pub preface: Option<String>,
    pub header: Option<Vec<String>>,
    pub rows: Vec<Vec<String>>,
    pub style: String,
}

/// Whether an entry list asks for `e`.
pub fn is_print_target(entries: &Vec<RepositoryEntry>, e: RepositoryEntry) -> (r: bool)
    ensures
        r == exists|i: int| 0 <= i < entries@.len() && entries@[i] == e,
{
    let n = entries.len();
    let mut i: usize = 0;
    while i < n
        invariant
            n == entries.len(),
            i <= n,
            forall|j: int| 0 <= j < i ==> entries@[j] != e,
        decreases n - i,
    {
        if entries[i] == e {
            return true;
        }
        i = i + 1;
    }
    false
}

/// Whether a style word is one of the supported table layouts.
pub open spec fn valid_style(s: Seq<char>) -> bool {
    s == "psql"@ || s == "ascii"@ || s == "ascii_rounded"@ || s == "empty"@ || s == "blank"@ || s
        == "markdown"@ || s == "sharp"@ || s == "rounded"@ || s == "modern_rounded"@ || s
        == "re_structured_text"@ || s == "dots"@ || s == "modern"@ || s == "extended"@ || s
        == "csv"@
}

/// Lowers a style word and falls back to `blank` for an unknown one.
pub fn normalize_format(f: &str) -> (r: String)
    ensures
        r@ == (if valid_style(lower_of(f@)) {
            lower_of(f@)
        } else {
            "blank"@
        }),
{
    let l = to_lowercase(f);
    if str_eq(l.as_str(), "psql") || str_eq(l.as_str(), "ascii") || str_eq(
        l.as_str(),
        "ascii_rounded",
    ) || str_eq(l.as_str(), "empty") || str_eq(l.as_str(), "blank") || str_eq(
        l.as_str(),
        "markdown",
    ) || str_eq(l.as_str(), "sharp") || str_eq(l.as_str(), "rounded") || str_eq(
        l.as_str(),
        "modern_rounded",
    ) || str_eq(l.as_str(), "re_structured_text") || str_eq(l.as_str(), "dots") || str_eq(
        l.as_str(),
        "modern",
    ) || str_eq(l.as_str(), "extended") || str_eq(l.as_str(), "csv") {
        l
    } else {
        "blank".to_owned()
    }
}

impl RepositoryPrintingOpts {
    /// An `All` entry expands to every column; an empty list defaults to
    /// the identifier alone.
    pub fn update_entries(&mut self)
        ensures
            final(self).entries@.len() > 0,
            final(self).no_headers == old(self).no_headers,
            final(self).format == old(self).format,
    {
        if is_print_target(&self.entries, RepositoryEntry::All) {
            self.entries = vec![
                RepositoryEntry::Id,
                RepositoryEntry::Groups,
                RepositoryEntry::Path,
                RepositoryEntry::Description,
                RepositoryEntry::LastAccess,
            ];
        } else if self.entries.len() == 0 {
            self.entries = vec![RepositoryEntry::Id];
        }
    }

    /// Settles the table style: the explicit word wins, then the
    /// configured one, and anything unknown falls back to `blank`.
    pub fn update_format(&mut self, format: Option<EnvValue>)
        ensures
            final(self).format is Some,
            final(self).entries == old(self).entries,
            final(self).no_headers == old(self).no_headers,
            (final(self).format matches Some(f) ==> (valid_style(f@) || f@ == "blank"@)),
    {
        match &self.format {
            Some(f) => {
                self.format = Some(normalize_format(f.as_str()));
            },
            None => {
                match format {
                    Some(EnvValue::Var(f)) => {
                        self.format = Some(normalize_format(f.as_str()));
                    },
                    _ => {
                        self.format = Some("blank".to_owned());
                    },
                }
            },
        }
    }
}

/// The group names joined with a comma and a space, in order.
pub open spec fn names_joined(gs: Seq<GroupV>, n: int) -> Seq<char>
    decreases n,
{
    if n <= 0 {
        Seq::empty()
    } else if n == 1 {
        gs[0].name
    } else {
        names_joined(gs, n - 1) + ", "@ + gs[n - 1].name
    }
}

/// Joins the group names with a comma and a space.
pub fn join_group_names(groups: &Vec<Group>) -> (r: String)
    ensures
        r@ == names_joined(groups.deep_view(), groups.deep_view().len() as int),
{
    let n = groups.len();
    let mut out = String::new();
    let mut i: usize = 0;
    while i < n
        invariant
            n == groups.len(),
            i <= n,
            out@ == names_joined(groups.deep_view(), i as int),
        decreases n - i,
    {
        if i > 0 {
            out.append(", ");
        }
        out.append(groups[i].name.as_str());
        proof {
            assert(out@ =~= names_joined(groups.deep_view(), i + 1 as int));
        }
        i = i + 1;
    }
    out
}

/// The cells of one joined row, in entry order: identifier, group names,
/// path, description, last access.
pub fn map_to_vec_repo_group(
    entries: &Vec<RepositoryEntry>,
    r: &RepositoryWithGroups,
    c: &Config,
) -> (out: Vec<String>)
    ensures
        (exists|i: int| 0 <= i < entries@.len() && entries@[i] == RepositoryEntry::Id) ==> out@.len()
            > 0 && out@[0]@ == r.repo.id@,
{
    let mut out: Vec<String> = Vec::new();
    if is_print_target(entries, RepositoryEntry::Id) {
        out.push(r.repo.id.clone());
    }
    if is_print_target(entries, RepositoryEntry::Groups) {
        out.push(join_group_names(&r.groups));
    }
    if is_print_target(entries, RepositoryEntry::Path) {
        out.push(r.repo.path.clone());
    }
    if is_print_target(entries, RepositoryEntry::Description) {
        match &r.repo.description {
            Some(d) => out.push(d.clone()),
            None => out.push(String::new()),
        }
    }
    if is_print_target(entries, RepositoryEntry::LastAccess) {
        out.push(r.repo.last_access_string(c));
    }
    out
}

/// The cells of one plain row, with the group column fixed to the listed
/// group's name.
pub fn map_to_vec(entries: &Vec<RepositoryEntry>, r: &Repository, g: &str, c: &Config) -> (out: Vec<
    String,
>)
    ensures
        (exists|i: int| 0 <= i < entries@.len() && entries@[i] == RepositoryEntry::Id) ==> out@.len()
            > 0 && out@[0]@ == r.id@,
{
    let mut out: Vec<String> = Vec::new();
    if is_print_target(entries, RepositoryEntry::Id) {
        out.push(r.id.clone());
    }
    if is_print_target(entries, RepositoryEntry::Groups) {
        out.push(g.to_owned());
    }
    if is_print_target(entries, RepositoryEntry::Path) {
        out.push(r.path.clone());
    }
    if is_print_target(entries, RepositoryEntry::Description) {
        match &r.description {
            Some(d) => out.push(d.clone()),
            None => out.push(String::new()),
        }
    }
    if is_print_target(entries, RepositoryEntry::LastAccess) {
        out.push(r.last_access_string(c));
    }
    out
}

/// The header cells for the requested entries.
pub fn build_table_builder(entries: &Vec<RepositoryEntry>, no_header: bool) -> (r: Option<Vec<String>>)
    ensures
        r is Some <==> !no_header,
{
    if no_header {
        return None;
    }
    let mut header: Vec<String> = Vec::new();
    if is_print_target(entries, RepositoryEntry::Id) {
        header.push("ID".to_owned());
    }
    if is_print_target(entries, RepositoryEntry::Groups) {
        header.push("Groups".to_owned());
    }
    if is_print_target(entries, RepositoryEntry::Path) {
        header.push("Path".to_owned());
    }
    if is_print_target(entries, RepositoryEntry::Description) {
        header.push("Description".to_owned());
    }
    if is_print_target(entries, RepositoryEntry::LastAccess) {
        header.push("Last Access".to_owned());
    }
    Some(header)
}

/// Ordering on optional stamps: an unset stamp sorts first.
pub open spec fn access_le(a: Option<u64>, b: Option<u64>) -> bool {
    match (a, b) {
        (None, _) => true,
        (Some(_), None) => false,
        (Some(x), Some(y)) => x <= y,
    }
}

/// Whether a repository list is ordered by last access.
pub open spec fn sorted_by_access(rs: Seq<RepoV>) -> bool {
    forall|i: int, j: int| 0 <= i < j < rs.len() ==> access_le(rs[i].last_access, rs[j].last_access)
}

/// Compares two optional stamps.
fn access_le_exec(a: &Option<u64>, b: &Option<u64>) -> (r: bool)
    ensures
        r == access_le(*a, *b),
{
    match (a, b) {
        (None, _) => true,
        (Some(_), None) => false,
        (Some(x), Some(y)) => *x <= *y,
    }
}

/// Orders repositories by last access, oldest first, by repeatedly moving
/// a least element over; the collection is preserved.
pub fn sort_by_access(v: Vec<Repository>) -> (r: Vec<Repository>)
    ensures
        sorted_by_access(r.deep_view()),
        r.deep_view().to_multiset() == v.deep_view().to_multiset(),
        r@.len() == v@.len(),
{
    broadcast use group_to_multiset_ensures;

    let mut rest = v;
    let mut out: Vec<Repository> = Vec::new();
    let ghost all = rest.deep_view().to_multiset();
    proof {
        assert(out.deep_view() =~= Seq::<RepoV>::empty());
        assert(Seq::<RepoV>::empty().to_multiset() =~= Multiset::<RepoV>::empty());
        assert(Multiset::<RepoV>::empty().add(all) =~= all);
        rest.deep_view().to_multiset_ensures();
    }
    while rest.len() > 0
        invariant
            out.deep_view().to_multiset().add(rest.deep_view().to_multiset()) == all,
            out.deep_view().len() + rest.deep_view().len() == all.len(),
            sorted_by_access(out.deep_view()),
            forall|i: int, j: int|
                0 <= i < out.deep_view().len() && 0 <= j < rest.deep_view().len() ==> access_le(
                    out.deep_view()[i].last_access,
                    rest.deep_view()[j].last_access,
                ),
        decreases rest.len(),
    {
        let n = rest.len();
        let mut m: usize = 0;
        let mut k: usize = 1;
        while k < n
            invariant
                n == rest.len(),
                m < k <= n,
                forall|j: int|
                    0 <= j < k ==> access_le(
                        rest.deep_view()[m as int].last_access,
                        rest.deep_view()[j].last_access,
                    ),
            decreases n - k,
        {
            if !access_le_exec(&rest[m].last_access, &rest[k].last_access) {
                m = k;
                proof {
                    assert forall|j: int| 0 <= j < k + 1 implies access_le(
                        rest.deep_view()[m as int].last_access,
                        rest.deep_view()[j].last_access,
                    ) by {}
                }
            }
            k = k + 1;
        }
        let ghost pre_out = out.deep_view();
        let ghost pre_rest = rest.deep_view();
        let picked = rest.remove(m);
        out.push(picked);
        proof {
            assert(out.deep_view() =~= pre_out.push(pre_rest[m as int]));
            assert(rest.deep_view() =~= pre_rest.remove(m as int));
            pre_out.to_multiset_ensures();
            pre_rest.to_multiset_ensures();
            out.deep_view().to_multiset_ensures();
            rest.deep_view().to_multiset_ensures();
            assert(pre_out.push(pre_rest[m as int]).to_multiset() =~= pre_out.to_multiset().insert(
                pre_rest[m as int],
            ));
            assert(pre_rest.remove(m as int).to_multiset() =~= pre_rest.to_multiset().remove(
                pre_rest[m as int],
            ));
            assert(out.deep_view().to_multiset() == pre_out.to_multiset().insert(
                pre_rest[m as int],
            ));
            assert(rest.deep_view().to_multiset() == pre_rest.to_multiset().remove(
                pre_rest[m as int],
            ));
            assert(pre_rest.to_multiset().count(pre_rest[m as int]) > 0);
            assert(out.deep_view().to_multiset().add(rest.deep_view().to_multiset())
                =~= pre_out.to_multiset().add(pre_rest.to_multiset()));
            assert forall|i: int, j: int|
                0 <= i < out.deep_view().len() && 0 <= j < rest.deep_view().len() implies access_le(
                out.deep_view()[i].last_access,
                rest.deep_view()[j].last_access,
            ) by {
                if i < pre_out.len() {
                    if j < m {
                        assert(rest.deep_view()[j] == pre_rest[j]);
                    } else {
                        assert(rest.deep_view()[j] == pre_rest[j + 1]);
                    }
                } else {
                    if j < m {
                        assert(rest.deep_view()[j] == pre_rest[j]);
                    } else {
                        assert(rest.deep_view()[j] == pre_rest[j + 1]);
                    }
                }
            }
        }
    }
    proof {
        assert(rest.deep_view() =~= Seq::<RepoV>::empty());
        assert(Seq::<RepoV>::empty().to_multiset() =~= Multiset::<RepoV>::empty());
        assert(out.deep_view().to_multiset() =~= all);
        out.deep_view().to_multiset_ensures();
    }
    out
}

/// Whether a repository matches one keyword in its identifier, path or
/// description.
pub open spec fn matches_keyword(rv: RepoV, w: Seq<char>) -> bool {
    contains_seq(rv.id, w) || contains_seq(rv.path, w) || (match rv.description {
        Some(d) => contains_seq(d, w),
        None => contains_seq(Seq::empty(), w),
    })
}

/// Whether a repository is selected by the keyword list: all keywords
/// under the and-flag, any keyword otherwise.
pub open spec fn is_target(rv: RepoV, and: bool, kws: Seq<String>) -> bool {
    if and {
        forall|k: int| 0 <= k < kws.len() ==> #[trigger] matches_keyword(rv, kws[k]@)
    } else {
        exists|k: int| 0 <= k < kws.len() && #[trigger] matches_keyword(rv, kws[k]@)
    }
}

/// Tests one repository against the keyword list.
#[verifier::loop_isolation(false)]
pub fn is_target_repository(r: &Repository, c: &FindOpts) -> (res: bool)
    ensures
        res == is_target(r@, c.and, c.keywords@),
{
    let n = c.keywords.len();
    if c.and {
        let mut i: usize = 0;
        while i < n
            invariant
                n == c.keywords.len(),
                i <= n,
                forall|k: int| 0 <= k < i ==> #[trigger] matches_keyword(r@, c.keywords@[k]@),
            decreases n - i,
        {
            if !matches_one(r, c.keywords[i].as_str()) {
                proof {
                    assert(!matches_keyword(r@, c.keywords@[i as int]@));
                }
                return false;
            }
            i = i + 1;
        }
        true
    } else {
        let mut i: usize = 0;
        while i < n
            invariant
                n == c.keywords.len(),
                i <= n,
                forall|k: int| 0 <= k < i ==> !(#[trigger] matches_keyword(r@, c.keywords@[k]@)),
            decreases n - i,
        {
            if matches_one(r, c.keywords[i].as_str()) {
                proof {
                    assert(matches_keyword(r@, c.keywords@[i as int]@));
                }
                return true;
            }
            i = i + 1;
        }
        false
    }
}

/// Tests one repository against one keyword.
fn matches_one(r: &Repository, w: &str) -> (res: bool)
    ensures
        res == matches_keyword(r@, w@),
{
    if str_contains(r.id.as_str(), w) {
        return true;
    }
    if str_contains(r.path.as_str(), w) {
        return true;
    }
    match &r.description {
        Some(d) => str_contains(d.as_str(), w),
        None => {
            proof {
                reveal_strlit("");
                assert(""@ =~= Seq::<char>::empty());
            }
            str_contains("", w)
        },
    }
}

/// The joined view of one repository, through the store's relations.
pub fn build_repo_with_group(r: &Repository, context: &Context) -> (out: RepositoryWithGroups)
    ensures
        out.repo == *r,
        out.groups.deep_view() == groups_of(
            context.db@.groups,
            context.db@.rels,
            r.id@,
            context.db@.rels.len() as int,
        ),
{
    let groups = match context.db.find_groups_of(r.id.as_str()) {
        Ok(gs) => gs,
        Err(_) => Vec::new(),
    };
    RepositoryWithGroups { repo: r.clone(), groups }
}

/// Every stored repository that the keyword list selects, joined with its
/// groups, in store order.
pub fn find_impl(context: &Context, c: &FindOpts) -> (r: Result<Vec<RepositoryWithGroups>, RrhError>)
    ensures
        r is Ok,
        forall|i: int|
            0 <= i < r->Ok_0@.len() ==> is_target(
                (#[trigger] r->Ok_0@[i]).repo@,
                c.and,
                c.keywords@,
            ),
{
    let repos = match context.db.all_repositories() {
        Ok(rs) => rs,
        Err(e) => {
            return Err(e);
        },
    };
    let mut out: Vec<RepositoryWithGroups> = Vec::new();
    let n = repos.len();
    let mut i: usize = 0;
    while i < n
        invariant
            n == repos.len(),
            i <= n,
            forall|k: int|
                0 <= k < out@.len() ==> is_target(
                    (#[trigger] out@[k]).repo@,
                    c.and,
                    c.keywords@,
                ),
        decreases n - i,
    {
        if is_target_repository(&repos[i], c) {
            out.push(build_repo_with_group(&repos[i], context));
        }
        i = i + 1;
    }
    Ok(out)
}

/// Finds the repositories selected by the keywords and renders them.
pub fn perform_find(context: &Context, c: FindOpts) -> (r: Result<(bool, Vec<Rendering>), RrhError>)
{
    let mut c = c;
    let found = match find_impl(context, &c) {
        Ok(repos) => repos,
        Err(e) => {
            return Err(e);
        },
    };
    c.p_opts.update_entries();
    c.p_opts.update_format(context.config.value("print_list_style"));
    print_table_repo_group(found, &c.p_opts, &context.config)
}

/// Renders the least recently accessed repositories, oldest first.
pub fn perform_recent(context: &Context, c: RecentOpts) -> (r: Result<(bool, Vec<Rendering>), RrhError>)
{
    let mut c = c;
    let repos = match context.db.all_repositories() {
        Ok(rs) => rs,
        Err(e) => {
            return Err(e);
        },
    };
    let sorted = sort_by_access(repos);
    let count = match c.number {
        Some(k) => k,
        None => 5,
    };
    let mut picked: Vec<RepositoryWithGroups> = Vec::new();
    let mut i: usize = 0;
    while i < sorted.len() && i < count
        invariant
            i <= sorted.len(),
        decreases sorted.len() - i,
    {
        picked.push(build_repo_with_group(&sorted[i], context));
        i = i + 1;
    }
    c.p_opts.update_entries();
    c.p_opts.update_format(context.config.value("print_list_style"));
    print_table_repo_group(picked, &c.p_opts, &context.config)
}

/// Renders an explicit collection of joined views as one table.
pub fn print_list(
    repos: Vec<RepositoryWithGroups>,
    config: &mut Config,
    p_opts: &mut RepositoryPrintingOpts,
) -> (r: Result<(bool, Vec<Rendering>), RrhError>)
    ensures
        *final(config) == *old(config),
{
    p_opts.update_format(config.value("print_list_style"));
    print_table_repo_group(repos, p_opts, config)
}

/// Builds the table for a collection of joined views; one row per
/// repository.
pub fn print_table_repo_group(
    repos: Vec<RepositoryWithGroups>,
    opts: &RepositoryPrintingOpts,
    config: &Config,
) -> (r: Result<(bool, Vec<Rendering>), RrhError>)
    ensures
        r is Ok,
        r->Ok_0.0 == false,
{
    let header = build_table_builder(&opts.entries, opts.no_headers);
    let mut rows: Vec<Vec<String>> = Vec::new();
    let n = repos.len();
    let mut i: usize = 0;
    while i < n
        invariant
            n == repos.len(),
            i <= n,
            rows@.len() == i,
        decreases n - i,
    {
        rows.push(map_to_vec_repo_group(&opts.entries, &repos[i], config));
        i = i + 1;
    }
    let style = match &opts.format {
        Some(f) => f.clone(),
        None => "blank".to_owned(),
    };
    let mut out: Vec<Rendering> = Vec::new();
    out.push(Rendering::Table(TableData { preface: None, header, rows, style }));
    Ok((false, out))
}

/// The one-line count block used for an abbreviated group.
fn print_abbrev(result: &Vec<Repository>, opts: &RepositoryPrintingOpts, group_name: &str) -> (r:
    Rendering)
{
    let mut row: Vec<String> = Vec::new();
    row.push("Group".to_owned());
    row.push(group_name.to_owned());
    row.push(
        crate::utils::format_humanize(result.len(), "repository", "repositories"),
    );
    let mut rows: Vec<Vec<String>> = Vec::new();
    rows.push(row);
    let style = match &opts.format {
        Some(f) => f.clone(),
        None => "blank".to_owned(),
    };
    Rendering::Table(TableData { preface: None, header: None, rows, style })
}

/// The full table of one group's repositories.
fn print_table(
    result: &Vec<Repository>,
    opts: &RepositoryPrintingOpts,
    g: &str,
    config: &Config,
) -> (r: Rendering)
{
    let header = build_table_builder(&opts.entries, opts.no_headers);
    let mut rows: Vec<Vec<String>> = Vec::new();
    let n = result.len();
    let mut i: usize = 0;
    while i < n
        invariant
            n == result.len(),
            i <= n,
            rows@.len() == i,
        decreases n - i,
    {
        rows.push(map_to_vec(&opts.entries, &result[i], g, config));
        i = i + 1;
    }
    let style = match &opts.format {
        Some(f) => f.clone(),
        None => "blank".to_owned(),
    };
    Rendering::Table(TableData { preface: None, header, rows, style })
}

/// One cell per repository, laid out by the caller in terminal columns.
fn print_items_in_columns(
    entry: &RepositoryEntry,
    repos: &Vec<Repository>,
    c: &Config,
) -> (r: Rendering)
{
    let mut items: Vec<String> = Vec::new();
    let n = repos.len();
    let mut i: usize = 0;
    while i < n
        invariant
            n == repos.len(),
            i <= n,
        decreases n - i,
    {
        items.push((*entry).to_string(&repos[i], c));
        i = i + 1;
    }
    Rendering::Columns(items)
}

/// Renders a partition of repositories by group: a single-entry,
/// single-group listing collapses to columns; an abbreviated group
/// collapses to a count line.
fn print_result(
    result: Vec<(String, Vec<Repository>)>,
    opts: &RepositoryPrintingOpts,
    context: &Context,
) -> (r: Result<(bool, Vec<Rendering>), RrhError>)
    requires
        opts.entries@.len() > 0,
{
    if opts.entries.len() == 1 && result.len() == 1 {
        let rendering = print_items_in_columns(&opts.entries[0], &result[0].1, &context.config);
        let mut out: Vec<Rendering> = Vec::new();
        out.push(rendering);
        return Ok((true, out));
    }
    let mut out: Vec<Rendering> = Vec::new();
    let n = result.len();
    let mut i: usize = 0;
    while i < n
        invariant
            n == result.len(),
            i <= n,
        decreases n - i,
    {
        match context.db.find_group(result[i].0.as_str()) {
            None => {
                i = n;
            },
            Some(group) => {
                if group.is_abbrev() && n > 1 {
                    out.push(print_abbrev(&result[i].1, opts, result[i].0.as_str()));
                } else {
                    out.push(print_table(&result[i].1, opts, result[i].0.as_str(), &context.config));
                }
                i = i + 1;
            },
        }
    }
    Ok((true, out))
}

/// Lists repositories: the whole partition by group, or the listed
/// groups' members.
pub fn perform_list(context: &Context, c: RepositoryListOpts) -> (r: Result<
    (bool, Vec<Rendering>),
    RrhError,
>)
{
    let mut c = c;
    let mut result: Vec<(String, Vec<Repository>)> = Vec::new();
    if c.groups.len() == 0 {
        match context.db.group_repositories() {
            Ok(rs) => {
                result = rs;
            },
            Err(e) => {
                return Err(e);
            },
        }
    } else {
        let n = c.groups.len();
        let mut i: usize = 0;
        while i < n
            invariant
                n == c.groups.len(),
                i <= n,
            decreases n - i,
        {
            match context.db.find_repositories_of(c.groups[i].as_str()) {
                Ok(rs) => {
                    result.push((c.groups[i].clone(), rs));
                },
                Err(e) => {
                    return Err(e);
                },
            }
            i = i + 1;
        }
    }
    c.print_opts.update_entries();
    c.print_opts.update_format(context.config.value("print_list_style"));
    print_result(result, &c.print_opts, context)
}

} // verus!
