//! Registering repositories: turning a probed path into a repository
//! record and handing it to the store together with its group names.
use vstd::prelude::*;
use vstd::string::StrSliceExecFns;
use vstd::string::StringExecFns;

use crate::cli::{AddOpts, CloneOpts, PathProbe, RepositoryOption, RrhError};
use crate::config::Context;
use crate::db::jsondb::JsonDB;
use crate::db::{closed, has_group, has_repo, wf};
use crate::entities::{clone_opt_string, Repository};
use crate::utils::{clone_string_vec, str_ends_with};

verus! {

/// Index of the last separator among the first `n` characters.
pub open spec fn last_slash(p: Seq<char>, n: int) -> Option<int>
    decreases n,
{
    if n <= 0 {
        None
    } else if p[n - 1] == '/' {
        Some(n - 1)
    } else {
        last_slash(p, n - 1)
    }
}

/// The characters after the last separator; the whole text when none.
pub open spec fn last_segment(p: Seq<char>) -> Seq<char> {
    match last_slash(p, p.len() as int) {
        Some(i) => p.subrange(i + 1, p.len() as int),
        None => p,
    }
}

/// The last path segment of `path`, used as the default identifier; an
/// empty segment is no identifier.
pub fn find_id(path: &str, repository_id: Option<String>) -> (r: Result<String, RrhError>)
    ensures
        repository_id matches Some(given) ==> (r matches Ok(id) && id@ == given@),
        repository_id is None ==> (match r {
            Ok(id) => id@ == last_segment(path@) && last_segment(path@).len() > 0,
            Err(e) => last_segment(path@).len() == 0 && (
            e matches RrhError::RepositoryPathNotFound(p) && p@ == path@),
        }),
{
    match repository_id {
        Some(id) => Ok(id),
        None => {
            let n = path.unicode_len();
            let mut i: usize = n;
            let mut cut: usize = 0;
            let mut found = false;
            while i > 0
                invariant
                    n == path@.len(),
                    i <= n,
                    found ==> cut < n && last_slash(path@, n as int) == Some(cut as int),
                    !found ==> last_slash(path@, n as int) == last_slash(path@, i as int),
                decreases i,
            {
                if !found && path.get_char(i - 1) == '/' {
                    proof {
                        assert(last_slash(path@, i as int) == Some(i - 1 as int));
                    }
                    cut = i - 1;
                    found = true;
                    i = 0;
                } else {
                    i = i - 1;
                }
            }
            let seg = if found {
                path.substring_char(cut + 1, n)
            } else {
                path.substring_char(0, n)
            };
            proof {
                if !found {
                    assert(last_slash(path@, 0) is None);
                    assert(path@.subrange(0, n as int) =~= path@);
                }
            }
            if seg.unicode_len() == 0 {
                Err(RrhError::RepositoryPathNotFound(path.to_owned()))
            } else {
                Ok(seg.to_owned())
            }
        },
    }
}

/// Builds a repository record from one probed path: the path must exist
/// and canonicalize, and the identifier defaults to the last segment of
/// the canonical path.
pub fn build_repository_from_path(probe: &PathProbe, c: &RepositoryOption) -> (r: Result<
    Repository,
    RrhError,
>)
    ensures
        !probe.exists ==> (r matches Err(RrhError::RepositoryPathNotFound(p)) && p@
            == probe.given@),
        probe.exists && probe.canonical is None ==> (r matches Err(RrhError::IO(_))),
        r matches Ok(rep) ==> probe.exists && probe.canonical is Some && rep@.path
            == probe.canonical->Some_0@ && rep@.last_access == probe.last_access
            && rep@.description == c.description.deep_view() && rep@.id == (match c.repository_id {
            Some(given) => given@,
            None => last_segment(probe.canonical->Some_0@),
        }),
        path_builds(*probe, *c) ==> r is Ok,
{
    if !probe.exists {
        return Err(RrhError::RepositoryPathNotFound(probe.given.clone()));
    }
    let path = match &probe.canonical {
        Some(p) => p.clone(),
        None => {
            return Err(RrhError::IO("the path cannot be canonicalized".to_owned()));
        },
    };
    let id = match find_id(path.as_str(), clone_opt_string(&c.repository_id)) {
        Ok(id) => id,
        Err(e) => {
            return Err(e);
        },
    };
    Ok(Repository::new(id, path, clone_opt_string(&c.description), probe.last_access))
}

/// Hands a built repository to the store under the given group names.
pub fn register_repository(db: &mut JsonDB, r: Repository, groups: Vec<String>) -> (res: Result<
    (),
    RrhError,
>)
    requires
        wf(old(db)@),
        closed(old(db)@),
    ensures
        wf(final(db)@),
        closed(final(db)@),
        match res {
            Ok(()) => !crate::db::has_repo(old(db)@.repos, r@.id) && final(db)@
                == crate::db::spec_register(old(db)@, r@, groups.deep_view()),
            Err(e) => crate::db::has_repo(old(db)@.repos, r@.id) && final(db)@ == old(db)@ && (
            e matches RrhError::RepositoryExists(n) && n@ == r@.id),
        },
{
    db.register(r, groups)
}

/// Whether a probe yields a repository record: the path exists,
/// canonicalizes, and an identifier can be derived.
pub open spec fn path_builds(probe: PathProbe, ro: RepositoryOption) -> bool {
    probe.exists && probe.canonical is Some && (ro.repository_id is Some || last_segment(
        probe.canonical->Some_0@,
    ).len() > 0)
}

/// The identifier a probe registers under.
pub open spec fn added_id(probe: PathProbe, ro: RepositoryOption) -> Seq<char> {
    match ro.repository_id {
        Some(given) => given@,
        None => last_segment(match probe.canonical {
            Some(canon) => canon@,
            None => Seq::empty(),
        }),
    }
}

/// Whether every probed path registers: each builds, each derived
/// identifier is fresh, and no two paths derive the same identifier.
pub open spec fn addable(sv: crate::db::StoreV, opts: AddOpts) -> bool {
    &&& (forall|k: int|
        0 <= k < opts.paths@.len() ==> path_builds(#[trigger] opts.paths@[k], opts.repo))
    &&& (forall|k: int|
        0 <= k < opts.paths@.len() ==> !crate::db::has_repo(
            sv.repos,
            added_id(#[trigger] opts.paths@[k], opts.repo),
        ))
    &&& (forall|k: int, l: int|
        0 <= k < l < opts.paths@.len() ==> added_id(opts.paths@[k], opts.repo) != added_id(
            opts.paths@[l],
            opts.repo,
        ))
}

/// Registers one repository per probed path; per-path failures are
/// collected and the rest are registered all the same. Registration is
/// owed whenever every path builds a record under a fresh, unshared
/// identifier; on success every derived identifier is stored.
#[verifier::loop_isolation(false)]
pub fn perform_add(c: &mut Context, opts: AddOpts) -> (r: Result<bool, RrhError>)
    requires
        wf(old(c).db@),
        closed(old(c).db@),
    ensures
        wf(final(c).db@),
        closed(final(c).db@),
        final(c).config == old(c).config,
        r matches Ok(flag) ==> flag == !opts.dry_run && forall|k: int|
            0 <= k < opts.paths@.len() ==> crate::db::has_repo(
                final(c).db@.repos,
                added_id(#[trigger] opts.paths@[k], opts.repo),
            ),
        r is Err ==> r->Err_0 matches RrhError::Arrays(_),
        addable(old(c).db@, opts) ==> r is Ok,
        // registration only: nothing stored disappears
        forall|x: Seq<char>|
            has_repo(old(c).db@.repos, x) ==> #[trigger] has_repo(final(c).db@.repos, x),
        forall|x: Seq<char>|
            has_group(old(c).db@.groups, x) ==> #[trigger] has_group(final(c).db@.groups, x),
{
    let ghost sv0 = old(c).db@;
    let mut errs: Vec<RrhError> = Vec::new();
    let n = opts.paths.len();
    let mut i: usize = 0;
    while i < n
        invariant
            n == opts.paths.len(),
            i <= n,
            wf(c.db@),
            closed(c.db@),
            c.config == old(c).config,
            forall|x: Seq<char>|
                has_repo(sv0.repos, x) ==> #[trigger] has_repo(c.db@.repos, x),
            forall|x: Seq<char>|
                has_group(sv0.groups, x) ==> #[trigger] has_group(c.db@.groups, x),
            errs@.len() == 0 ==> forall|k: int|
                0 <= k < i ==> crate::db::has_repo(
                    c.db@.repos,
                    added_id(#[trigger] opts.paths@[k], opts.repo),
                ),
            addable(sv0, opts) ==> errs@.len() == 0 && forall|k: int|
                i <= k < n ==> !crate::db::has_repo(
                    c.db@.repos,
                    added_id(#[trigger] opts.paths@[k], opts.repo),
                ),
        decreases n - i,
    {
        let ghost pre = c.db@;
        match build_repository_from_path(&opts.paths[i], &opts.repo) {
            Err(e) => {
                errs.push(e);
            },
            Ok(rep) => {
                let ghost rv = rep@;
                proof {
                    assert(rv.id == added_id(opts.paths@[i as int], opts.repo));
                }
                let names = clone_string_vec(&opts.repo.group_names);
                let ghost names_dv = names.deep_view();
                proof {
                    assert(names_dv =~= opts.repo.group_names.deep_view());
                }
                match register_repository(&mut c.db, rep, names) {
                    Ok(()) => {
                        proof {
                            crate::db::lemma_add_missing_groups_elts(
                                pre.groups,
                                names_dv,
                                names_dv.len() as int,
                            );
                            crate::db::lemma_push_repo_membership(pre.repos, rv);
                            assert forall|x: Seq<char>|
                                has_group(sv0.groups, x) implies #[trigger] has_group(
                                c.db@.groups,
                                x,
                            ) by {
                                assert(has_group(pre.groups, x));
                            }
                        }
                    },
                    Err(e) => {
                        errs.push(e);
                    },
                }
            },
        }
        i = i + 1;
    }
    if errs.len() == 0 {
        Ok(!opts.dry_run)
    } else {
        Err(RrhError::Arrays(errs))
    }
}

impl CloneOpts {
    /// Where the clone will land: the explicit destination, or the URL's
    /// last segment with a `.git` suffix stripped, under the working
    /// directory.
    pub fn repo_path(&self) -> (r: String)
        ensures
            self.dest_dir is Some ==> r@ == self.dest_dir->Some_0@,
    {
        match &self.dest_dir {
            Some(d) => d.clone(),
            None => {
                let n = self.repo_url.as_str().unicode_len();
                let mut i: usize = n;
                let mut cut: usize = 0;
                let mut found = false;
                while i > 0
                    invariant
                        n == self.repo_url@.len(),
                        i <= n,
                        found ==> cut < n,
                    decreases i,
                {
                    if !found && self.repo_url.as_str().get_char(i - 1) == '/' {
                        cut = i - 1;
                        found = true;
                        i = 0;
                    } else {
                        i = i - 1;
                    }
                }
                let name = if found {
                    self.repo_url.as_str().substring_char(cut + 1, n)
                } else {
                    self.repo_url.as_str().substring_char(0, n)
                };
                let base = if str_ends_with(name, ".git") {
                    let m = name.unicode_len();
                    proof {
                        reveal_strlit(".git");
                    }
                    name.substring_char(0, m - 4)
                } else {
                    name
                };
                let mut out = "./".to_owned();
                out.append(base);
                out
            },
        }
    }
}

} // verus!
