//! Error type shared by every operation of the catalog, and the plain
//! option records that the command workflows take.
use vstd::prelude::*;

verus! {

/// Every failure the catalog can report. Multi-target operations collect
/// their per-item failures into `Arrays` instead of stopping at the first.
#[derive(Debug, PartialEq, Eq)]
pub enum RrhError {
    GroupNotFound(String),
    RepositoryNotFound(String),
    RelationNotFound(String, String),
    RepositoryExists(String),
    GroupExists(String),
    GroupNotEmpty(String),
    RepositoryPathNotFound(String),
    RepositoryAndGroupExists(String),
    RepositoryAndGroupNotFound(String),
    ToNameExist(String),
    ConfigNotFound(String),
    CliOptsInvalid(String, String),
    Arguments(String),
    Arrays(Vec<RrhError>),
    IO(String),
    Parse(String),
    Fatal(String),
    Unknown,
}

/// What a caller learned about one path from the filesystem: whether it
/// exists, its canonical form, and its last-access stamp in seconds since
/// the Unix epoch.
pub struct PathProbe {
    pub given: String,
    pub exists: bool,
    pub canonical: Option<String>,
    pub last_access: Option<u64>,
}

/// Repository fields shared by the registering commands.
pub struct RepositoryOption {
    pub repository_id: Option<String>,
    pub group_names: Vec<String>,
    pub description: Option<String>,
}

pub struct AddOpts {
    pub repo: RepositoryOption,
    pub paths: Vec<PathProbe>,
    pub dry_run: bool,
}

pub struct CloneOpts {
    pub dest_dir: Option<String>,
    pub repo_url: String,
}

pub struct AliasOpts {
    pub update: bool,
    pub remove: bool,
    pub alias: Option<String>,
    pub arguments: Vec<String>,
}

pub struct ConfigOpts {
    pub name: Option<String>,
    pub value: Option<String>,
    pub remove: bool,
    pub dry_run: bool,
}

pub struct ExecOpts {
    pub group_names: Vec<String>,
    pub repository_ids: Vec<String>,
    pub no_header: bool,
    pub arguments: Vec<String>,
}

pub struct ExportOpts {
    pub dest: Option<String>,
    pub dest_exists: bool,
    pub overwrite: bool,
    pub no_replace_home: bool,
    pub format: Option<String>,
}

pub struct FindOpts {
    pub and: bool,
    pub keywords: Vec<String>,
    pub p_opts: RepositoryPrintingOpts,
}

pub enum GroupSubCommand {
    Add(GroupAddOpts),
    List(GroupListOpts),
    Of(GroupOfOpts),
    Remove(GroupRemoveOpts),
    Update(GroupUpdateOpts),
}

pub struct GroupOpts {
    pub subcmd: GroupSubCommand,
}

pub struct GroupAddOpts {
    pub abbrev: bool,
    pub note: Option<String>,
    pub names: Vec<String>,
    pub dry_run: bool,
}

pub struct GroupListOpts {
    pub args: Vec<String>,
    pub p_opts: GroupPrintingOpts,
}

pub struct GroupOfOpts {
    pub names: Vec<String>,
    pub p_opts: GroupPrintingOpts,
}

pub struct GroupRemoveOpts {
    pub force: bool,
    pub args: Vec<String>,
    pub dry_run: bool,
}

pub struct GroupUpdateOpts {
    pub abbrev: Option<bool>,
    pub note: Option<String>,
    pub rename_to: Option<String>,
    pub name: String,
    pub dry_run: bool,
}

#[derive(PartialEq, Eq, Structural, Clone, Copy, Debug)]
pub enum GroupEntry {
    Name,
    Abbrev,
    Note,
    Count,
    All,
}

pub struct GroupPrintingOpts {
    pub entries: Vec<GroupEntry>,
    pub no_header: bool,
    pub format: Option<String>,
}

pub struct OpenOpts {
    pub target: OpenTarget,
    pub args: Vec<String>,
}

#[derive(PartialEq, Eq, Structural, Clone, Copy, Debug)]
pub enum OpenTarget {
    Folder,
    Webpage,
    Project,
}

pub struct PruneOpts {
    pub inquiry: bool,
    pub dry_run: bool,
}

pub struct RenameOpts {
    pub repository: bool,
    pub group: bool,
    pub from: String,
    pub to_name: String,
    pub dry_run: bool,
}

pub struct RemoveOpts {
    pub targets: Vec<String>,
    pub force: bool,
    pub dry_run: bool,
}

pub enum RepositorySubCommand {
    Add(AddOpts),
    Info(RepositoryInfoOpts),
    List(RepositoryListOpts),
    Remove(RepositoryRemoveOpts),
    Update(RepositoryUpdateOpts),
}

pub struct RepositoryOpts {
    pub subcmd: RepositorySubCommand,
}

#[derive(PartialEq, Eq, Structural, Clone, Copy, Debug)]
pub enum RepositoryEntry {
    Id,
    Path,
    Groups,
    Description,
    LastAccess,
    All,
}

pub struct RepositoryPrintingOpts {
    pub no_headers: bool,
    pub entries: Vec<RepositoryEntry>,
    pub format: Option<String>,
}

pub struct RepositoryInfoOpts {
    pub print_opts: RepositoryPrintingOpts,
    pub ids: Vec<String>,
}

pub struct RepositoryListOpts {
    pub print_opts: RepositoryPrintingOpts,
    pub groups: Vec<String>,
}

pub struct RepositoryRemoveOpts {
    pub ids: Vec<String>,
    pub dry_run: bool,
}

pub struct RepositoryUpdateOpts {
    pub description: Option<String>,
    pub path: Option<String>,
    pub id: Option<String>,
    pub groups: Vec<String>,
    pub new_groups: Vec<String>,
    pub repository_id: String,
    pub dry_run: bool,
    pub probed_last_access: Option<u64>,
    pub now: u64,
}

pub struct RecentOpts {
    pub number: Option<usize>,
    pub p_opts: RepositoryPrintingOpts,
}

#[derive(PartialEq, Eq, Structural, Clone, Copy, Debug)]
pub enum ShellName {
    Bash,
    Zsh,
    Fish,
    Elvish,
    Powershell,
}

} // verus!
