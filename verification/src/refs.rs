//! The reference store: branch names mapped to commit ids, plus the HEAD
//! reference. [`RefWriter`] is the current interface; [`Referencer`] is the
//! earlier one kept alongside it, with its slightly stricter behaviour.
//!
//! Both types hold the store in memory; reading the backing files and writing
//! them back is the embedding program's concern.
use vstd::prelude::*;
use crate::chars::str_eq;
use crate::constants::DEFAULT_BRANCH_NAME;
use crate::error::OxenError;
use crate::model::Branch;
use crate::strmap::StrMap;

verus! {

/// Writer over the reference store.
pub struct RefWriter {
    refs_db: StrMap,
    head: String,
}

impl RefWriter {
    /// Well-formedness of the underlying store.
    pub closed spec fn wf(&self) -> bool {
        self.refs_db.wf()
    }

    /// The branch map: name to commit id.
    pub closed spec fn refs(&self) -> Map<Seq<char>, Seq<char>> {
        self.refs_db@
    }

    /// The content of the HEAD reference: a branch name, or a bare commit id
    /// when detached.
    pub closed spec fn head_ref(&self) -> Seq<char> {
        self.head@
    }

    /// The commit id HEAD resolves to: through the branch map when HEAD
    /// names a branch, else HEAD's own content.
    pub open spec fn spec_head_commit_id(&self) -> Seq<char> {
        if self.refs().contains_key(self.head_ref()) {
            self.refs()[self.head_ref()]
        } else {
            self.head_ref()
        }
    }

    /// A writer over a loaded reference store. The HEAD content defaults to
    /// the default branch name when the repository has none yet.
    pub fn new(refs_db: StrMap, head: Option<String>) -> (r: RefWriter)
        requires
            refs_db.wf(),
        ensures
            r.wf(),
            r.refs() == refs_db@,
            r.head_ref() == match head {
                Some(h) => h@,
                None => DEFAULT_BRANCH_NAME@,
            },
    {
        let h = match head {
            Some(h) => h,
            None => DEFAULT_BRANCH_NAME.to_owned(),
        };
        RefWriter { refs_db, head: h }
    }

    /// Point HEAD at `name`, with no existence check.
    pub fn set_head(&mut self, name: &str)
        requires
            old(self).wf(),
        ensures
            final(self).wf(),
            final(self).head_ref() == name@,
            final(self).refs() == old(self).refs(),
    {
        self.head = name.to_owned();
    }

    /// Create a branch; fails if the name is already taken, leaving the
    /// store unchanged.
    pub fn create_branch(&mut self, name: &str, commit_id: &str) -> (r: Result<Branch, OxenError>)
        requires
            old(self).wf(),
        ensures
            final(self).wf(),
            final(self).head_ref() == old(self).head_ref(),
            r is Err <==> old(self).refs().contains_key(name@),
            r matches Err(e) ==> e is AlreadyExists && final(self).refs() == old(self).refs(),
            r matches Ok(b) ==> {
                &&& final(self).refs() == old(self).refs().insert(name@, commit_id@)
                &&& b.name@ == name@
                &&& b.commit_id@ == commit_id@
                &&& b.is_head == false
            },
    {
        if self.has_branch(name) {
            Err(OxenError::AlreadyExists(name.to_owned()))
        } else {
            self.refs_db.insert(name.to_owned(), commit_id.to_owned());
            Ok(
                Branch {
                    name: name.to_owned(),
                    commit_id: commit_id.to_owned(),
                    is_head: false,
                },
            )
        }
    }

    /// Delete a branch; fails if the name is unknown, leaving the store
    /// unchanged.
    pub fn delete_branch(&mut self, name: &str) -> (r: Result<(), OxenError>)
        requires
            old(self).wf(),
        ensures
            final(self).wf(),
            final(self).head_ref() == old(self).head_ref(),
            r is Err <==> !old(self).refs().contains_key(name@),
            r matches Err(e) ==> e is NotFound && final(self).refs() == old(self).refs(),
            r is Ok ==> final(self).refs() == old(self).refs().remove(name@),
    {
        if !self.has_branch(name) {
            Err(OxenError::NotFound(name.to_owned()))
        } else {
            self.refs_db.remove(name);
            Ok(())
        }
    }

    /// Point the branch `name` at `commit_id`, creating it if needed.
    pub fn set_branch_commit_id(&mut self, name: &str, commit_id: &str) -> (r: Result<
        (),
        OxenError,
    >)
        requires
            old(self).wf(),
        ensures
            final(self).wf(),
            r is Ok,
            final(self).head_ref() == old(self).head_ref(),
            final(self).refs() == old(self).refs().insert(name@, commit_id@),
    {
        self.refs_db.insert(name.to_owned(), commit_id.to_owned());
        Ok(())
    }

    /// Move HEAD to `commit_id`: through the current branch when HEAD names
    /// one, else by detaching HEAD onto the bare id.
    pub fn set_head_commit_id(&mut self, commit_id: &str) -> (r: Result<(), OxenError>)
        requires
            old(self).wf(),
        ensures
            final(self).wf(),
            r is Ok,
            old(self).refs().contains_key(old(self).head_ref()) ==> {
                &&& final(self).refs() == old(self).refs().insert(old(self).head_ref(), commit_id@)
                &&& final(self).head_ref() == old(self).head_ref()
            },
            !old(self).refs().contains_key(old(self).head_ref()) ==> {
                &&& final(self).refs() == old(self).refs()
                &&& final(self).head_ref() == commit_id@
            },
    {
        let head_val = self.read_head_ref()?;
        if self.has_branch(head_val.as_str()) {
            self.set_head_branch_commit_id(commit_id)?;
        } else {
            self.set_head(commit_id);
        }
        Ok(())
    }

    /// Point the branch HEAD names at `commit_id`.
    pub fn set_head_branch_commit_id(&mut self, commit_id: &str) -> (r: Result<(), OxenError>)
        requires
            old(self).wf(),
        ensures
            final(self).wf(),
            r is Ok,
            final(self).head_ref() == old(self).head_ref(),
            final(self).refs() == old(self).refs().insert(old(self).head_ref(), commit_id@),
    {
        let head_ref = self.read_head_ref()?;
        self.set_branch_commit_id(head_ref.as_str(), commit_id)?;
        Ok(())
    }

    /// All branches, each exactly once, with `is_head` set on the one HEAD
    /// names.
    pub fn list_branches(&self) -> (r: Result<Vec<Branch>, OxenError>)
        requires
            self.wf(),
        ensures
            r matches Ok(v) ==> {
                &&& v@.len() == self.refs().dom().len()
                &&& forall|i: int|
                    0 <= i < v@.len() ==> self.refs().contains_pair(
                        (#[trigger] v@[i]).name@,
                        v@[i].commit_id@,
                    )
                &&& forall|i: int|
                    0 <= i < v@.len() ==> (#[trigger] v@[i]).is_head == (v@[i].name@
                        == self.head_ref())
                &&& forall|k: Seq<char>|
                    self.refs().contains_key(k) ==> exists|i: int|
                        0 <= i < v@.len() && (#[trigger] v@[i]).name@ == k
                &&& forall|i: int, j: int|
                    0 <= i < j < v@.len() ==> (#[trigger] v@[i]).name@ != (#[trigger] v@[j]).name@
            },
            r is Ok,
    {
        let pairs = self.refs_db.pairs();
        let mut out: Vec<Branch> = Vec::new();
        let n = pairs.len();
        let mut i: usize = 0;
        while i < n
            invariant
                i <= n,
                self.wf(),
                n == pairs@.len(),
                out@.len() == i,
                forall|m: int|
                    0 <= m < i ==> (#[trigger] out@[m]).name@ == pairs@[m].0@ && out@[m].commit_id@
                        == pairs@[m].1@ && out@[m].is_head == (pairs@[m].0@ == self.head_ref()),
            decreases n - i,
        {
            let name = pairs[i].0.clone();
            let commit_id = pairs[i].1.clone();
            let is_head = str_eq(name.as_str(), self.head.as_str());
            out.push(Branch { name, commit_id, is_head });
            i = i + 1;
        }
        proof {
            assert forall|k: Seq<char>| self.refs().contains_key(k) implies exists|m: int|
                0 <= m < out@.len() && (#[trigger] out@[m]).name@ == k by {
                let m = choose|m: int| 0 <= m < pairs@.len() && (#[trigger] pairs@[m]).0@ == k;
                assert(out@[m].name@ == k);
            }
        }
        Ok(out)
    }

    /// The branch HEAD names, or `None` when HEAD is detached.
    pub fn get_current_branch(&self) -> (r: Result<Option<Branch>, OxenError>)
        requires
            self.wf(),
        ensures
            r matches Ok(o) ==> match o {
                Some(b) => {
                    &&& self.refs().contains_key(self.head_ref())
                    &&& b.name@ == self.head_ref()
                    &&& b.commit_id@ == self.refs()[self.head_ref()]
                    &&& b.is_head == true
                },
                None => !self.refs().contains_key(self.head_ref()),
            },
            r is Ok,
    {
        let ref_name = self.read_head_ref()?;
        match self.refs_db.get(ref_name.as_str()) {
            Some(id) => Ok(
                Some(Branch { name: ref_name, commit_id: id, is_head: true }),
            ),
            None => Ok(None),
        }
    }

    /// Does a branch with this name exist?
    pub fn has_branch(&self, name: &str) -> (r: bool)
        requires
            self.wf(),
        ensures
            r == self.refs().contains_key(name@),
    {
        self.refs_db.contains_key(name)
    }

    /// The branch of that name, `is_head` set when its tip is the HEAD
    /// commit.
    pub fn get_branch_by_name(&self, name: &str) -> (r: Result<Option<Branch>, OxenError>)
        requires
            self.wf(),
        ensures
            r matches Ok(o) ==> match o {
                Some(b) => {
                    &&& self.refs().contains_key(name@)
                    &&& b.name@ == name@
                    &&& b.commit_id@ == self.refs()[name@]
                    &&& b.is_head == (self.refs()[name@] == self.spec_head_commit_id())
                },
                None => !self.refs().contains_key(name@),
            },
            r is Ok,
    {
        let head_commit_id = self.head_commit_id()?;
        match self.get_commit_id_for_branch(name)? {
            Some(commit_id) => {
                let is_head = str_eq(commit_id.as_str(), head_commit_id.as_str());
                Ok(Some(Branch { name: name.to_owned(), commit_id, is_head }))
            },
            None => Ok(None),
        }
    }

    /// The commit id a branch points at, if the branch exists.
    pub fn get_commit_id_for_branch(&self, name: &str) -> (r: Result<Option<String>, OxenError>)
        requires
            self.wf(),
        ensures
            r matches Ok(o) ==> match o {
                Some(id) => self.refs().contains_key(name@) && id@ == self.refs()[name@],
                None => !self.refs().contains_key(name@),
            },
            r is Ok,
    {
        Ok(self.refs_db.get(name))
    }

    /// The commit id HEAD resolves to.
    pub fn head_commit_id(&self) -> (r: Result<String, OxenError>)
        requires
            self.wf(),
        ensures
            r matches Ok(id) ==> id@ == self.spec_head_commit_id(),
            r is Ok,
    {
        let head_ref = self.read_head_ref()?;
        match self.get_commit_id_for_branch(head_ref.as_str())? {
            Some(commit_id) => Ok(commit_id),
            None => Ok(head_ref),
        }
    }

    /// The raw content of the HEAD reference.
    pub fn read_head_ref(&self) -> (r: Result<String, OxenError>)
        requires
            self.wf(),
        ensures
            r matches Ok(h) ==> h@ == self.head_ref(),
            r is Ok,
    {
        Ok(self.head.clone())
    }

    /// The stored pairs, for writing the store back out.
    pub fn refs_pairs(&self) -> (r: Vec<(String, String)>)
        requires
            self.wf(),
        ensures
            forall|i: int|
                0 <= i < r@.len() ==> self.refs().contains_pair(
                    (#[trigger] r@[i]).0@,
                    r@[i].1@,
                ),
            forall|k: Seq<char>|
                self.refs().contains_key(k) ==> exists|i: int|
                    0 <= i < r@.len() && (#[trigger] r@[i]).0@ == k,
    {
        self.refs_db.pairs()
    }
}

/// The earlier interface over the same store, kept with its stricter
/// behaviour: HEAD may only be set to an existing branch, and lookups of
/// missing refs are errors.
pub struct Referencer {
    refs_db: StrMap,
    head: String,
}

impl Referencer {
    /// The refs store directory of the repository rooted at `path`.
    pub fn refs_dir(path: &str) -> (r: String)
        ensures
            r@ == crate::paths::spec_join(
                crate::paths::spec_oxen_hidden_dir(path@),
                crate::constants::REFS_DIR@,
            ),
    {
        let hidden = crate::paths::oxen_hidden_dir(path);
        crate::paths::join_path(hidden.as_str(), crate::constants::REFS_DIR)
    }

    /// The HEAD file of the repository rooted at `path`.
    pub fn head_file(path: &str) -> (r: String)
        ensures
            r@ == crate::paths::spec_join(
                crate::paths::spec_oxen_hidden_dir(path@),
                crate::constants::HEAD_FILE@,
            ),
    {
        let hidden = crate::paths::oxen_hidden_dir(path);
        crate::paths::join_path(hidden.as_str(), crate::constants::HEAD_FILE)
    }

    /// Well-formedness of the underlying store.
    pub closed spec fn wf(&self) -> bool {
        self.refs_db.wf()
    }

    /// The branch map: name to commit id.
    pub closed spec fn refs(&self) -> Map<Seq<char>, Seq<char>> {
        self.refs_db@
    }

    /// The content of the HEAD reference.
    pub closed spec fn head_ref(&self) -> Seq<char> {
        self.head@
    }

    /// A referencer over a loaded store; HEAD defaults to the default branch
    /// name when the repository has none yet.
    pub fn new(refs_db: StrMap, head: Option<String>) -> (r: Referencer)
        requires
            refs_db.wf(),
        ensures
            r.wf(),
            r.refs() == refs_db@,
            r.head_ref() == match head {
                Some(h) => h@,
                None => DEFAULT_BRANCH_NAME@,
            },
    {
        let h = match head {
            Some(h) => h,
            None => DEFAULT_BRANCH_NAME.to_owned(),
        };
        Referencer { refs_db, head: h }
    }

    /// A referencer for read-only callers; shared readers never write the
    /// store back, so it carries the same state as [`Referencer::new`].
    pub fn new_read_only(refs_db: StrMap, head: Option<String>) -> (r: Referencer)
        requires
            refs_db.wf(),
        ensures
            r.wf(),
            r.refs() == refs_db@,
            r.head_ref() == match head {
                Some(h) => h@,
                None => DEFAULT_BRANCH_NAME@,
            },
    {
        Referencer::new(refs_db, head)
    }

    /// Point HEAD at `name`, with no existence check: at init HEAD may
    /// name a branch that is only created by the first commit.
    pub fn set_head(&mut self, name: &str) -> (r: Result<(), OxenError>)
        requires
            old(self).wf(),
        ensures
            final(self).wf(),
            final(self).refs() == old(self).refs(),
            r is Ok,
            final(self).head_ref() == name@,
    {
        self.head = name.to_owned();
        Ok(())
    }

    /// Create a branch; fails if the name is already taken.
    pub fn create_branch(&mut self, name: &str, commit_id: &str) -> (r: Result<(), OxenError>)
        requires
            old(self).wf(),
        ensures
            final(self).wf(),
            final(self).head_ref() == old(self).head_ref(),
            r is Err <==> old(self).refs().contains_key(name@),
            r matches Err(e) ==> e is AlreadyExists && final(self).refs() == old(self).refs(),
            r is Ok ==> final(self).refs() == old(self).refs().insert(name@, commit_id@),
    {
        if self.has_branch(name) {
            Err(OxenError::AlreadyExists(name.to_owned()))
        } else {
            self.refs_db.insert(name.to_owned(), commit_id.to_owned());
            Ok(())
        }
    }

    /// Point the branch `name` at `commit_id`, creating it if needed.
    pub fn set_branch_commit_id(&mut self, name: &str, commit_id: &str) -> (r: Result<
        (),
        OxenError,
    >)
        requires
            old(self).wf(),
        ensures
            final(self).wf(),
            r is Ok,
            final(self).head_ref() == old(self).head_ref(),
            final(self).refs() == old(self).refs().insert(name@, commit_id@),
    {
        self.refs_db.insert(name.to_owned(), commit_id.to_owned());
        Ok(())
    }

    /// Point the branch HEAD names at `commit_id`.
    pub fn set_head_commit_id(&mut self, commit_id: &str) -> (r: Result<(), OxenError>)
        requires
            old(self).wf(),
        ensures
            final(self).wf(),
            r is Ok,
            final(self).head_ref() == old(self).head_ref(),
            final(self).refs() == old(self).refs().insert(old(self).head_ref(), commit_id@),
    {
        let head_ref = self.read_head_ref()?;
        self.set_branch_commit_id(head_ref.as_str(), commit_id)?;
        Ok(())
    }

    /// All branches, each exactly once, with `is_head` set on the one HEAD
    /// names.
    pub fn list_branches(&self) -> (r: Result<Vec<Branch>, OxenError>)
        requires
            self.wf(),
        ensures
            r matches Ok(v) ==> {
                &&& v@.len() == self.refs().dom().len()
                &&& forall|i: int|
                    0 <= i < v@.len() ==> self.refs().contains_pair(
                        (#[trigger] v@[i]).name@,
                        v@[i].commit_id@,
                    )
                &&& forall|i: int|
                    0 <= i < v@.len() ==> (#[trigger] v@[i]).is_head == (v@[i].name@
                        == self.head_ref())
                &&& forall|k: Seq<char>|
                    self.refs().contains_key(k) ==> exists|i: int|
                        0 <= i < v@.len() && (#[trigger] v@[i]).name@ == k
                &&& forall|i: int, j: int|
                    0 <= i < j < v@.len() ==> (#[trigger] v@[i]).name@ != (#[trigger] v@[j]).name@
            },
            r is Ok,
    {
        let pairs = self.refs_db.pairs();
        let mut out: Vec<Branch> = Vec::new();
        let n = pairs.len();
        let mut i: usize = 0;
        while i < n
            invariant
                i <= n,
                self.wf(),
                n == pairs@.len(),
                out@.len() == i,
                forall|m: int|
                    0 <= m < i ==> (#[trigger] out@[m]).name@ == pairs@[m].0@ && out@[m].commit_id@
                        == pairs@[m].1@ && out@[m].is_head == (pairs@[m].0@ == self.head_ref()),
            decreases n - i,
        {
            let name = pairs[i].0.clone();
            let commit_id = pairs[i].1.clone();
            let is_head = str_eq(name.as_str(), self.head.as_str());
            out.push(Branch { name, commit_id, is_head });
            i = i + 1;
        }
        proof {
            assert forall|k: Seq<char>| self.refs().contains_key(k) implies exists|m: int|
                0 <= m < out@.len() && (#[trigger] out@[m]).name@ == k by {
                let m = choose|m: int| 0 <= m < pairs@.len() && (#[trigger] pairs@[m]).0@ == k;
                assert(out@[m].name@ == k);
            }
        }
        Ok(out)
    }

    /// The branch HEAD names; fails when HEAD does not name a branch.
    pub fn get_current_branch(&self) -> (r: Result<Branch, OxenError>)
        requires
            self.wf(),
        ensures
            r is Ok <==> self.refs().contains_key(self.head_ref()),
            r matches Ok(b) ==> {
                &&& b.name@ == self.head_ref()
                &&& b.commit_id@ == self.refs()[self.head_ref()]
                &&& b.is_head == true
            },
            r matches Err(e) ==> e is NotFound,
    {
        let ref_name = self.read_head_ref()?;
        let id = self.get_commit_id(ref_name.as_str())?;
        Ok(Branch { name: ref_name, commit_id: id, is_head: true })
    }

    /// Does a branch with this name exist?
    pub fn has_branch(&self, name: &str) -> (r: bool)
        requires
            self.wf(),
        ensures
            r == self.refs().contains_key(name@),
    {
        self.refs_db.contains_key(name)
    }

    /// The commit id a branch points at; fails when the ref is unknown.
    pub fn get_commit_id(&self, name: &str) -> (r: Result<String, OxenError>)
        requires
            self.wf(),
        ensures
            r is Ok <==> self.refs().contains_key(name@),
            r matches Ok(id) ==> id@ == self.refs()[name@],
            r matches Err(e) ==> e is NotFound,
    {
        match self.refs_db.get(name) {
            Some(v) => Ok(v),
            None => Err(OxenError::NotFound(name.to_owned())),
        }
    }

    /// The commit id HEAD points at, through the branch map only.
    pub fn head_commit_id(&self) -> (r: Result<String, OxenError>)
        requires
            self.wf(),
        ensures
            r is Ok <==> self.refs().contains_key(self.head_ref()),
            r matches Ok(id) ==> id@ == self.refs()[self.head_ref()],
            r matches Err(e) ==> e is NotFound,
    {
        let head_ref = self.read_head_ref()?;
        self.get_commit_id(head_ref.as_str())
    }

    /// The raw content of the HEAD reference.
    pub fn read_head_ref(&self) -> (r: Result<String, OxenError>)
        requires
            self.wf(),
        ensures
            r matches Ok(h) ==> h@ == self.head_ref(),
            r is Ok,
    {
        Ok(self.head.clone())
    }

    /// The stored pairs, for writing the store back out.
    pub fn refs_pairs(&self) -> (r: Vec<(String, String)>)
        requires
            self.wf(),
        ensures
            forall|i: int|
                0 <= i < r@.len() ==> self.refs().contains_pair(
                    (#[trigger] r@[i]).0@,
                    r@[i].1@,
                ),
            forall|k: Seq<char>|
                self.refs().contains_key(k) ==> exists|i: int|
                    0 <= i < r@.len() && (#[trigger] r@[i]).0@ == k,
    {
        self.refs_db.pairs()
    }
}

} // verus!
