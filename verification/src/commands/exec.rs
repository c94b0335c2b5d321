//! Selecting the repositories a command or an open request targets, and
//! turning a remote URL into the project's web addresses. Running the
//! command and opening the browser are the caller's concern; this module
//! decides what to run and where.
use vstd::prelude::*;
use vstd::string::StringExecFns;

use crate::cli::{ExecOpts, OpenOpts, OpenTarget, RrhError};
use crate::config::Context;
use crate::db::{has_group, has_repo, repos_of};
use crate::entities::Repository;

verus! {

/// A command line split into the program word and its arguments.
pub struct Cmd {
    pub cmd: String,
    pub args: Vec<String>,
}

impl Cmd {
    /// Splits the first word off as the program.
    pub fn new(args: Vec<String>) -> (r: Cmd)
        requires
            args@.len() > 0,
        ensures
            r.cmd == args@[0],
            r.args@ == args@.skip(1),
    {
        let cmd = args[0].clone();
        let mut rest: Vec<String> = Vec::new();
        let n = args.len();
        let mut i: usize = 1;
        while i < n
            invariant
                1 <= i <= n,
                n == args.len(),
                rest@ == args@.subrange(1, i as int),
            decreases n - i,
        {
            rest.push(args[i].clone());
            proof {
                assert(rest@ =~= args@.subrange(1, i + 1 as int));
            }
            i = i + 1;
        }
        proof {
            assert(args@.subrange(1, n as int) =~= args@.skip(1));
        }
        Cmd { cmd, args: rest }
    }
}

/// The members of the named groups among the first `n`, concatenated in
/// order.
pub open spec fn group_members_concat(
    sv: crate::db::StoreV,
    names: Seq<String>,
    n: int,
) -> Seq<crate::entities::RepoV>
    decreases n,
{
    if n <= 0 {
        Seq::empty()
    } else {
        group_members_concat(sv, names, n - 1) + repos_of(
            sv.repos,
            sv.rels,
            names[n - 1]@,
            sv.rels.len() as int,
        )
    }
}

/// The repositories stored under the first `n` named identifiers, in
/// order, skipping unknown ones.
pub open spec fn named_repos(
    sv: crate::db::StoreV,
    ids: Seq<String>,
    n: int,
) -> Seq<crate::entities::RepoV>
    decreases n,
{
    if n <= 0 {
        Seq::empty()
    } else {
        let p = named_repos(sv, ids, n - 1);
        match crate::db::find_repo(sv.repos, ids[n - 1]@) {
            Some(rv) => p.push(rv),
            None => p,
        }
    }
}

/// The repositories selected by group names and repository identifiers,
/// in that order: the groups' members first, then the named ones; an
/// unknown identifier is a collected failure, an unknown group simply
/// has no members.
#[verifier::loop_isolation(false)]
pub fn find_target_repositories(
    context: &Context,
    groups: &Vec<String>,
    repositories: &Vec<String>,
) -> (r: Result<Vec<Repository>, RrhError>)
    ensures
        r is Ok <==> (forall|k: int|
            0 <= k < repositories@.len() ==> has_repo(
                context.db@.repos,
                (#[trigger] repositories@[k])@,
            )),
        r matches Ok(v) ==> v.deep_view() == group_members_concat(
            context.db@,
            groups@,
            groups@.len() as int,
        ) + named_repos(context.db@, repositories@, repositories@.len() as int),
        r is Err ==> r->Err_0 matches RrhError::Arrays(_),
{
    let mut result: Vec<Repository> = Vec::new();
    let mut errs: Vec<RrhError> = Vec::new();
    let gn = groups.len();
    let mut i: usize = 0;
    while i < gn
        invariant
            gn == groups.len(),
            i <= gn,
            errs@.len() == 0,
            result.deep_view() == group_members_concat(context.db@, groups@, i as int),
        decreases gn - i,
    {
        match context.db.find_repositories_of(groups[i].as_str()) {
            Ok(rs) => {
                let ghost found = rs.deep_view();
                let mut rs = rs;
                result.append(&mut rs);
                proof {
                    assert(result.deep_view() =~= group_members_concat(
                        context.db@,
                        groups@,
                        i as int,
                    ) + found);
                    assert(result.deep_view() =~= group_members_concat(
                        context.db@,
                        groups@,
                        i + 1 as int,
                    ));
                }
            },
            Err(e) => {
                errs.push(e);
            },
        }
        i = i + 1;
    }
    let ghost from_groups = result.deep_view();
    let rn = repositories.len();
    let mut j: usize = 0;
    while j < rn
        invariant
            rn == repositories.len(),
            j <= rn,
            errs@.len() == 0 ==> result.deep_view() == from_groups + named_repos(
                context.db@,
                repositories@,
                j as int,
            ),
            errs@.len() == 0 <==> (forall|k: int|
                0 <= k < j ==> has_repo(context.db@.repos, (#[trigger] repositories@[k])@)),
        decreases rn - j,
    {
        match context.db.find_repository(repositories[j].as_str()) {
            Some(rep) => {
                let ghost rv = rep@;
                let ghost pre_dv = result.deep_view();
                result.push(rep);
                proof {
                    assert(result.deep_view() =~= pre_dv.push(rv));
                    crate::db::lemma_repo_idx(
                        context.db@.repos,
                        repositories@[j as int]@,
                        context.db@.repos.len() as int,
                    );
                    assert(crate::db::find_repo(context.db@.repos, repositories@[j as int]@)
                        == Some(rv));
                    if errs@.len() == 0 {
                        assert(result.deep_view() =~= from_groups + named_repos(
                            context.db@,
                            repositories@,
                            j + 1 as int,
                        ));
                    }
                }
            },
            None => {
                errs.push(RrhError::RepositoryNotFound(repositories[j].clone()));
            },
        }
        j = j + 1;
    }
    if errs.len() != 0 {
        Err(RrhError::Arrays(errs))
    } else {
        Ok(result)
    }
}

/// Decides what to execute where: the command line must be non-empty,
/// and the targets come from the listed groups and identifiers. An empty
/// target list means the working directory.
pub fn perform_exec(context: &Context, c: ExecOpts) -> (r: Result<
    (Cmd, Vec<Repository>, bool),
    RrhError,
>)
    ensures
        c.arguments@.len() == 0 ==> (r matches Err(RrhError::Arguments(_))),
        r matches Ok(p) ==> c.arguments@.len() > 0 && p.0.cmd == c.arguments@[0] && p.0.args@
            == c.arguments@.skip(1) && p.2 == c.no_header && p.1.deep_view()
            == group_members_concat(context.db@, c.group_names@, c.group_names@.len() as int)
            + named_repos(context.db@, c.repository_ids@, c.repository_ids@.len() as int),
        (c.arguments@.len() > 0 && forall|k: int|
            0 <= k < c.repository_ids@.len() ==> has_repo(
                context.db@.repos,
                (#[trigger] c.repository_ids@[k])@,
            )) ==> r is Ok,
{
    if c.arguments.len() == 0 {
        return Err(RrhError::Arguments("(exec) no commands are given".to_owned()));
    }
    match find_target_repositories(context, &c.group_names, &c.repository_ids) {
        Ok(repos) => {
            let command = Cmd::new(c.arguments);
            Ok((command, repos, c.no_header))
        },
        Err(e) => Err(e),
    }
}

/// The members of those listed names that are groups, concatenated in
/// order.
pub open spec fn open_members(
    sv: crate::db::StoreV,
    args: Seq<String>,
    n: int,
) -> Seq<crate::entities::RepoV>
    decreases n,
{
    if n <= 0 {
        Seq::empty()
    } else {
        open_members(sv, args, n - 1) + (if has_group(sv.groups, args[n - 1]@) {
            repos_of(sv.repos, sv.rels, args[n - 1]@, sv.rels.len() as int)
        } else {
            Seq::empty()
        })
    }
}

/// The repositories an open request names, directly or through their
/// groups: the named groups' members first, then the named repositories;
/// unknown names select nothing.
#[verifier::loop_isolation(false)]
pub fn find_open_targets(context: &Context, repos_or_groups: &Vec<String>) -> (r: Result<
    Vec<Repository>,
    RrhError,
>)
    ensures
        r is Ok,
        r->Ok_0.deep_view() == open_members(
            context.db@,
            repos_or_groups@,
            repos_or_groups@.len() as int,
        ) + named_repos(context.db@, repos_or_groups@, repos_or_groups@.len() as int),
{
    let mut result: Vec<Repository> = Vec::new();
    let n = repos_or_groups.len();
    let mut i: usize = 0;
    while i < n
        invariant
            n == repos_or_groups.len(),
            i <= n,
            result.deep_view() == open_members(context.db@, repos_or_groups@, i as int),
        decreases n - i,
    {
        match context.db.find_group(repos_or_groups[i].as_str()) {
            Some(g) => {
                proof {
                    crate::db::lemma_group_idx(
                        context.db@.groups,
                        repos_or_groups@[i as int]@,
                        context.db@.groups.len() as int,
                    );
                    assert(g@.name == repos_or_groups@[i as int]@);
                }
                match context.db.find_repositories_of(g.name.as_str()) {
                    Ok(rs) => {
                        let ghost found = rs.deep_view();
                        let mut rs = rs;
                        result.append(&mut rs);
                        proof {
                            assert(result.deep_view() =~= open_members(
                                context.db@,
                                repos_or_groups@,
                                i + 1 as int,
                            ));
                        }
                    },
                    Err(e) => {
                        return Err(e);
                    },
                }
            },
            None => {
                proof {
                    assert(result.deep_view() =~= open_members(
                        context.db@,
                        repos_or_groups@,
                        i + 1 as int,
                    ));
                }
            },
        }
        i = i + 1;
    }
    let ghost from_groups = result.deep_view();
    let mut j: usize = 0;
    while j < n
        invariant
            n == repos_or_groups.len(),
            j <= n,
            result.deep_view() == from_groups + named_repos(
                context.db@,
                repos_or_groups@,
                j as int,
            ),
        decreases n - j,
    {
        match context.db.find_repository(repos_or_groups[j].as_str()) {
            Some(rep) => {
                let ghost rv = rep@;
                let ghost pre_dv = result.deep_view();
                result.push(rep);
                proof {
                    assert(result.deep_view() =~= pre_dv.push(rv));
                    crate::db::lemma_repo_idx(
                        context.db@.repos,
                        repos_or_groups@[j as int]@,
                        context.db@.repos.len() as int,
                    );
                    assert(crate::db::find_repo(
                        context.db@.repos,
                        repos_or_groups@[j as int]@,
                    ) == Some(rv));
                    assert(result.deep_view() =~= from_groups + named_repos(
                        context.db@,
                        repos_or_groups@,
                        j + 1 as int,
                    ));
                }
            },
            None => {
                proof {
                    assert(result.deep_view() =~= from_groups + named_repos(
                        context.db@,
                        repos_or_groups@,
                        j + 1 as int,
                    ));
                }
            },
        }
        j = j + 1;
    }
    Ok(result)
}

/// Decides what to open: the named repositories and group members, with
/// the requested target kind; an empty selection is refused.
pub fn perform_open(context: &Context, c: OpenOpts) -> (r: Result<
    (OpenTarget, Vec<Repository>),
    RrhError,
>)
    ensures
        r matches Ok(p) ==> p.0 == c.target && p.1@.len() > 0 && p.1.deep_view() == open_members(
            context.db@,
            c.args@,
            c.args@.len() as int,
        ) + named_repos(context.db@, c.args@, c.args@.len() as int),
        r is Ok <==> (open_members(context.db@, c.args@, c.args@.len() as int) + named_repos(
            context.db@,
            c.args@,
            c.args@.len() as int,
        )).len() > 0,
{
    match find_open_targets(context, &c.args) {
        Ok(repos) => {
            if repos.len() == 0 {
                Err(
                    RrhError::Arguments(
                        "(open) any repositories and groups are not found".to_owned(),
                    ),
                )
            } else {
                Ok((c.target, repos))
            }
        },
        Err(e) => Err(e),
    }
}

/// What a parsed remote URL tells this catalog: the host, the owning
/// account, and the repository's name.
pub struct GitUrlInfo {
    pub host: Option<String>,
    pub owner: String,
    pub name: String,
}

/// Whether a character may open a URL scheme.
pub open spec fn is_scheme_start(c: char) -> bool {
    ('a' <= c && c <= 'z') || ('A' <= c && c <= 'Z')
}

/// Whether a character may continue a URL scheme.
pub open spec fn is_scheme_char(c: char) -> bool {
    is_scheme_start(c) || ('0' <= c && c <= '9') || c == '+' || c == '-' || c == '.'
}

/// The position right after the run of scheme characters starting at `i`.
pub open spec fn scheme_run_end(s: Seq<char>, i: int) -> int
    decreases s.len() - i,
{
    if 0 <= i < s.len() && is_scheme_char(s[i]) {
        scheme_run_end(s, i + 1)
    } else {
        i
    }
}

/// Whether the text opens with an explicit scheme that names ssh: a
/// letter, then scheme characters, then `://`, with `ssh` somewhere in
/// the scheme word.
pub open spec fn has_ssh_scheme(s: Seq<char>) -> bool {
    s.len() > 0 && is_scheme_start(s[0]) && {
        let k = scheme_run_end(s, 0);
        k + 3 <= s.len() && s.subrange(k, k + 3) == "://"@ && crate::utils::contains_seq(
            s.subrange(0, k),
            "ssh"@,
        )
    }
}

/// Tests the text for an explicit ssh-naming scheme.
pub fn has_ssh_scheme_exec(url: &str) -> (r: bool)
    ensures
        r == has_ssh_scheme(url@),
{
    let n = url.unicode_len();
    if n == 0 {
        return false;
    }
    let c0 = url.get_char(0);
    if !(('a' <= c0 && c0 <= 'z') || ('A' <= c0 && c0 <= 'Z')) {
        return false;
    }
    let mut k: usize = 0;
    while k < n && is_scheme_char_exec(url.get_char(k))
        invariant
            k <= n,
            n == url@.len(),
            scheme_run_end(url@, 0) == scheme_run_end(url@, k as int),
        decreases n - k,
    {
        k = k + 1;
    }
    proof {
        assert(scheme_run_end(url@, k as int) == k as int);
    }
    if n - k < 3 {
        return false;
    }
    let sep = url.substring_char(k, k + 3);
    if !crate::utils::str_eq(sep, "://") {
        return false;
    }
    let word = url.substring_char(0, k);
    crate::utils::str_contains(word, "ssh")
}

/// Tests one character for scheme membership.
fn is_scheme_char_exec(c: char) -> (r: bool)
    ensures
        r == is_scheme_char(c),
{
    ('a' <= c && c <= 'z') || ('A' <= c && c <= 'Z') || ('0' <= c && c <= '9') || c == '+' || c
        == '-' || c == '.'
}

/// What parsing a git remote URL yields: the outcome depends on the URL's
/// characters alone.
pub uninterp spec fn git_url_parts(s: Seq<char>) -> Option<GitUrlInfo>;

/// Relies on `git_url_parse::GitUrl::parse` and its generic provider
/// parsing (`GenericProvider::from_git_url`): the host, owner and
/// repository name of a remote URL, a function of the URL alone. An
/// explicit ssh-naming scheme is left out: the parser's ssh adjustment
/// slices one character off the parsed path, which is empty when the
/// remainder holds no path; without such a scheme the ssh shape can only
/// arise from a path that opens with a colon, so the slice always lands
/// on a character boundary.
#[verifier::external_body]
fn parse_git_url(url: &str) -> (r: Result<GitUrlInfo, RrhError>)
    requires
        !has_ssh_scheme(url@),
    ensures
        match r {
            Ok(info) => git_url_parts(url@) == Some(info),
            Err(e) => git_url_parts(url@) is None && (e matches RrhError::Fatal(_)),
        },
{
    let parsed = match git_url_parse::GitUrl::parse(url) {
        Ok(u) => u,
        Err(e) => {
            return Err(RrhError::Fatal(format!("{:?}", e)));
        },
    };
    let host = parsed.host().map(|h| h.to_string());
    let provider: Result<git_url_parse::types::provider::GenericProvider, _> =
        parsed.provider_info();
    match provider {
        Ok(p) => Ok(GitUrlInfo { host, owner: p.owner().to_string(), name: p.repo().to_string() }),
        Err(e) => Err(RrhError::Fatal(format!("{:?}", e))),
    }
}

/// The project page address of a repository's host account.
pub open spec fn webpage_of(info: GitUrlInfo) -> Seq<char> {
    "https://"@ + info.owner@ + ".github.io/"@ + info.name@
}

/// The repository's address on its host.
pub open spec fn project_of(info: GitUrlInfo) -> Seq<char> {
    "https://"@ + info.host->Some_0@ + "/"@ + info.owner@ + "/"@ + info.name@
}

/// The owner's project web page for a parsed remote.
pub fn to_project_webpage(gu: &GitUrlInfo) -> (r: String)
    ensures
        r@ == webpage_of(*gu),
{
    let mut out = "https://".to_owned();
    out.append(gu.owner.as_str());
    out.append(".github.io/");
    out.append(gu.name.as_str());
    out
}

/// The repository page on its host; the host must be known.
pub fn to_project_url(gu: &GitUrlInfo) -> (r: String)
    requires
        gu.host is Some,
    ensures
        r@ == project_of(*gu),
{
    let mut out = "https://".to_owned();
    match &gu.host {
        Some(h) => {
            out.append(h.as_str());
        },
        None => {},
    }
    out.append("/");
    out.append(gu.owner.as_str());
    out.append("/");
    out.append(gu.name.as_str());
    out
}

/// The two addresses an open request can ask for.
pub enum UrlStyle {
    Project,
    Webpage,
}

/// Parses a remote URL and renders the requested address; a remote whose
/// host is unknown has no project page, and one with an explicit
/// ssh-naming scheme is refused.
pub fn convert_url_to_project_url(url: &str, style: UrlStyle) -> (r: Result<String, RrhError>)
    ensures
        match r {
            Ok(s) => !has_ssh_scheme(url@) && (git_url_parts(url@) matches Some(info) && s@
                == (match style {
                UrlStyle::Project => project_of(info),
                UrlStyle::Webpage => webpage_of(info),
            })),
            Err(_) => has_ssh_scheme(url@) || git_url_parts(url@) is None || (git_url_parts(url@)
                matches Some(info) && (style matches UrlStyle::Project) && info.host is None),
        },
{
    if has_ssh_scheme_exec(url) {
        return Err(RrhError::Fatal("a remote with an ssh scheme is not supported".to_owned()));
    }
    let info = match parse_git_url(url) {
        Ok(i) => i,
        Err(e) => {
            return Err(e);
        },
    };
    match style {
        UrlStyle::Webpage => Ok(to_project_webpage(&info)),
        UrlStyle::Project => {
            if info.host.is_some() {
                Ok(to_project_url(&info))
            } else {
                Err(RrhError::Fatal("the remote names no host".to_owned()))
            }
        },
    }
}

} // verus!
