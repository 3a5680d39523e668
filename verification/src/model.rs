//! The data model of the repository engine: commits, branches, entries,
//! staged state, and the surrounding repository descriptors. Each type has a
//! mathematical view used by the contracts.
use vstd::prelude::*;

verus! {

/// A snapshot of the working tree: immutable once written.
#[derive(Clone, Debug)]
pub struct Commit {
    /// Random 128-bit identifier, hex-encoded.
    pub id: String,
    /// Absent only for the initial commit.
    pub parent_id: Option<String>,
    pub message: String,
    pub author: String,
    /// Creation time, rendered as RFC 3339 text.
    pub date: String,
}

/// Mathematical view of a [`Commit`].
pub ghost struct CommitV {
    pub id: Seq<char>,
    pub parent_id: Option<Seq<char>>,
    pub message: Seq<char>,
    pub author: Seq<char>,
    pub date: Seq<char>,
}

impl View for Commit {
    type V = CommitV;

    open spec fn view(&self) -> CommitV {
        CommitV {
            id: self.id@,
            parent_id: match self.parent_id {
                Some(p) => Some(p@),
                None => None,
            },
            message: self.message@,
            author: self.author@,
            date: self.date@,
        }
    }
}

/// The data of a commit before its identifier is drawn.
#[derive(Clone, Debug)]
pub struct NewCommit {
    pub parent_id: Option<String>,
    pub message: String,
    pub author: String,
    pub date: String,
}

/// A named mutable pointer into the commit graph.
#[derive(Clone, Debug)]
pub struct Branch {
    pub name: String,
    pub commit_id: String,
    /// Whether the branch name equals the current HEAD reference.
    pub is_head: bool,
}

/// Mathematical view of a [`Branch`].
pub ghost struct BranchV {
    pub name: Seq<char>,
    pub commit_id: Seq<char>,
    pub is_head: bool,
}

impl View for Branch {
    type V = BranchV;

    open spec fn view(&self) -> BranchV {
        BranchV { name: self.name@, commit_id: self.commit_id@, is_head: self.is_head }
    }
}

/// Metadata of one path inside one commit's index.
#[derive(Clone, Debug)]
pub struct CommitEntry {
    /// Stable per-path identifier; constant across edits of the same path.
    pub id: String,
    /// Path relative to the repository root, `/`-separated.
    pub path: String,
    /// 128-bit content hash, hex-encoded.
    pub hash: String,
    /// The commit this version of the file originates from.
    pub commit_id: String,
    pub extension: String,
    pub num_bytes: u64,
    pub last_modified_seconds: i64,
    pub last_modified_nanoseconds: u32,
}

/// Mathematical view of a [`CommitEntry`].
pub ghost struct CommitEntryV {
    pub id: Seq<char>,
    pub path: Seq<char>,
    pub hash: Seq<char>,
    pub commit_id: Seq<char>,
    pub extension: Seq<char>,
    pub num_bytes: u64,
    pub last_modified_seconds: i64,
    pub last_modified_nanoseconds: u32,
}

impl CommitEntry {
    /// A copy holding the same fields.
    pub fn clone_entry(&self) -> (r: CommitEntry)
        ensures
            r@ == self@,
    {
        CommitEntry {
            id: self.id.clone(),
            path: self.path.clone(),
            hash: self.hash.clone(),
            commit_id: self.commit_id.clone(),
            extension: self.extension.clone(),
            num_bytes: self.num_bytes,
            last_modified_seconds: self.last_modified_seconds,
            last_modified_nanoseconds: self.last_modified_nanoseconds,
        }
    }
}

impl View for CommitEntry {
    type V = CommitEntryV;

    open spec fn view(&self) -> CommitEntryV {
        CommitEntryV {
            id: self.id@,
            path: self.path@,
            hash: self.hash@,
            commit_id: self.commit_id@,
            extension: self.extension@,
            num_bytes: self.num_bytes,
            last_modified_seconds: self.last_modified_seconds,
            last_modified_nanoseconds: self.last_modified_nanoseconds,
        }
    }
}

/// A file waiting in the staging area; the map key holds its path.
#[derive(Clone, Debug)]
pub struct StagedEntry {
    /// Content hash of the file at stage time, hex-encoded.
    pub hash: String,
    pub extension: String,
    pub num_bytes: u64,
    pub last_modified_seconds: i64,
    pub last_modified_nanoseconds: u32,
}

/// Mathematical view of a [`StagedEntry`].
pub ghost struct StagedEntryV {
    pub hash: Seq<char>,
    pub extension: Seq<char>,
    pub num_bytes: u64,
    pub last_modified_seconds: i64,
    pub last_modified_nanoseconds: u32,
}

impl StagedEntry {
    /// A copy holding the same fields.
    pub fn clone_staged(&self) -> (r: StagedEntry)
        ensures
            r@ == self@,
    {
        StagedEntry {
            hash: self.hash.clone(),
            extension: self.extension.clone(),
            num_bytes: self.num_bytes,
            last_modified_seconds: self.last_modified_seconds,
            last_modified_nanoseconds: self.last_modified_nanoseconds,
        }
    }
}

impl View for StagedEntry {
    type V = StagedEntryV;

    open spec fn view(&self) -> StagedEntryV {
        StagedEntryV {
            hash: self.hash@,
            extension: self.extension@,
            num_bytes: self.num_bytes,
            last_modified_seconds: self.last_modified_seconds,
            last_modified_nanoseconds: self.last_modified_nanoseconds,
        }
    }
}

/// The pending diff between the working tree and HEAD.
#[derive(Clone, Debug)]
pub struct StagedData {
    /// Staged files by path.
    pub added_files: Vec<(String, StagedEntry)>,
    /// Staged directories by path, with their file counts.
    pub added_dirs: Vec<(String, u64)>,
    /// Tracked files whose working-tree content differs from HEAD.
    pub modified_files: Vec<String>,
    /// Tracked files marked for removal from the next commit.
    pub removed_files: Vec<String>,
    /// Working-tree files never tracked and not staged.
    pub untracked_files: Vec<String>,
    /// Working-tree directories never tracked, with their file counts.
    pub untracked_dirs: Vec<(String, u64)>,
}

impl StagedData {
    /// An empty diff.
    pub fn new() -> (r: StagedData)
        ensures
            r.added_files@.len() == 0,
            r.added_dirs@.len() == 0,
            r.modified_files@.len() == 0,
            r.removed_files@.len() == 0,
            r.untracked_files@.len() == 0,
            r.untracked_dirs@.len() == 0,
    {
        StagedData {
            added_files: Vec::new(),
            added_dirs: Vec::new(),
            modified_files: Vec::new(),
            removed_files: Vec::new(),
            untracked_files: Vec::new(),
            untracked_dirs: Vec::new(),
        }
    }

    /// The set of staged paths.
    pub open spec fn staged_paths(&self) -> Set<Seq<char>> {
        Set::new(
            |p: Seq<char>|
                exists|i: int|
                    0 <= i < self.added_files@.len() && #[trigger] self.added_files@[i].0@ == p,
        )
    }

    /// The set of paths marked removed.
    pub open spec fn removed_paths(&self) -> Set<Seq<char>> {
        Set::new(
            |p: Seq<char>|
                exists|i: int|
                    0 <= i < self.removed_files@.len() && #[trigger] self.removed_files@[i]@ == p,
        )
    }
}

/// One blob the embedding program must copy into the object store: the
/// working-tree source and the version path to place it at.
#[derive(Clone, Debug)]
pub struct BlobCopy {
    /// Path of the staged file, relative to the repository root.
    pub src: String,
    /// Target blob path, relative to the repository root.
    pub dst: String,
}

/// Per-directory aggregate inside a commit's entry index.
#[derive(Clone, Debug)]
pub struct DirStat {
    pub file_count: u64,
    pub data_size: u64,
}

/// A tabular schema tracked alongside a commit.
#[derive(Clone, Debug)]
pub struct Schema {
    pub name: Option<String>,
    pub hash: String,
}

/// A repository on the local disk, rooted at `path`.
#[derive(Clone, Debug)]
pub struct LocalRepository {
    pub path: String,
}

/// A named remote endpoint.
#[derive(Clone, Debug)]
pub struct Remote {
    pub name: String,
    pub url: String,
}

/// A repository hosted behind a remote.
#[derive(Clone, Debug)]
pub struct RemoteRepository {
    pub namespace: String,
    pub name: String,
    pub remote: Remote,
}

} // verus!
