//! Names and defaults shared across the repository engine.
use vstd::prelude::*;

verus! {

/// Hidden directory under the repository root that holds all engine state.
pub const OXEN_HIDDEN_DIR: &'static str = ".oxen";
/// Config file for the repository.
pub const REPO_CONFIG_FILENAME: &'static str = "config.toml";
/// HEAD file holds onto where the head commit is (commit id or branch name).
pub const HEAD_FILE: &'static str = "HEAD";
/// refs/ is a key-value store of branch names to commit ids.
pub const REFS_DIR: &'static str = "refs";
/// history/ dir holds one entry index per commit id.
pub const HISTORY_DIR: &'static str = "history";
/// commits/ is a key-value store of commit ids to commit records.
pub const COMMITS_DB: &'static str = "commits";
/// Name of the schema store inside a commit's history directory.
pub const SCHEMAS_DIR: &'static str = "schemas";
/// Prefix for the commit entry files.
pub const FILES_DIR: &'static str = "files";
/// Prefix for the commit entry dirs.
pub const DIRS_DIR: &'static str = "dirs";
/// versions/ stores every version of every entry, keyed by entry id.
pub const VERSIONS_DIR: &'static str = "versions";
/// merge/ is where merge bookkeeping lives.
pub const MERGE_DIR: &'static str = "merge";
/// Marker for the incoming commit during a merge.
pub const MERGE_HEAD_FILE: &'static str = "MERGE_HEAD";
/// Marker for the destination commit before a merge.
pub const ORIG_HEAD_FILE: &'static str = "ORIG_HEAD";
/// staged/ is the transient key-value store of the staging area.
pub const STAGED_DIR: &'static str = "staged";

/// Branch created at init and pointed to by the first commit.
pub const DEFAULT_BRANCH_NAME: &'static str = "main";
/// Default remote name.
pub const DEFAULT_REMOTE_NAME: &'static str = "origin";
/// Default namespace.
pub const DEFAULT_NAMESPACE: &'static str = "ox";

/// Average chunk size for data transfer.
pub const AVG_CHUNK_SIZE: u64 = 1024 * 1024 * 4;
/// Number of retries for network requests.
pub const NUM_HTTP_RETRIES: u64 = 6;
/// Pagination defaults.
pub const DEFAULT_PAGE_SIZE: usize = 10;
pub const DEFAULT_PAGE_NUM: usize = 1;

} // verus!
