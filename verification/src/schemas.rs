//! Listing the schemas tracked alongside a commit.
use vstd::prelude::*;
use crate::chars::str_eq;
use crate::commits::CommitDb;
use crate::entries::EntryIndex;
use crate::error::OxenError;
use crate::model::LocalRepository;
use crate::model::Schema;
use crate::refs::RefWriter;

verus! {

/// The commit id a `branch or commit id` argument names: through the branch
/// map when it is a branch name, else taken as a bare commit id.
pub open spec fn spec_resolve(refs: &RefWriter, id: Seq<char>) -> Seq<char> {
    if refs.refs().contains_key(id) {
        refs.refs()[id]
    } else {
        id
    }
}

/// The commit id `list` reads schemas for: the resolved argument when one
/// is given, else the commit HEAD resolves to.
pub open spec fn spec_list_commit_id(refs: &RefWriter, commit_id: Option<&str>) -> Seq<char> {
    match commit_id {
        Some(cid) => spec_resolve(refs, cid@),
        None => refs.spec_head_commit_id(),
    }
}

/// The schemas tracked by one commit of the repository. The commit may be
/// named by branch name or commit id; without one, HEAD's commit is used.
/// Fails when the named commit is not recorded or has no entry index among
/// `indexes`.
pub fn list(
    repo: &LocalRepository,
    commit_id: Option<&str>,
    commits: &CommitDb,
    refs: &RefWriter,
    indexes: &Vec<(String, EntryIndex)>,
) -> (r: Result<Vec<Schema>, OxenError>)
    requires
        commits.wf(),
        refs.wf(),
        forall|i: int| 0 <= i < indexes@.len() ==> (#[trigger] indexes@[i]).1.wf(),
        forall|i: int, j: int|
            0 <= i < j < indexes@.len() ==> (#[trigger] indexes@[i]).0@ != (
            #[trigger] indexes@[j]).0@,
    ensures
        r is Ok ==> ({
            let cid = spec_list_commit_id(refs, commit_id);
            &&& commits.commit_at(cid) is Some
            &&& exists|i: int| 0 <= i < indexes@.len() && (#[trigger] indexes@[i]).0@ == cid
        }),
        !commits.store().contains_key(spec_list_commit_id(refs, commit_id)) ==> (r matches Err(e)
            && e is NotFound),
        ({
            let cid = spec_list_commit_id(refs, commit_id);
            commits.commit_at(cid) is Some && (exists|i: int|
                0 <= i < indexes@.len() && (#[trigger] indexes@[i]).0@ == cid
                    && indexes@[i].1.wf_schemas()) ==> r is Ok
        }),
        r matches Ok(v) ==> (exists|i: int|
            ({
                let idx = (#[trigger] indexes@[i]).1;
                &&& 0 <= i < indexes@.len()
                &&& indexes@[i].0@ == spec_list_commit_id(refs, commit_id)
                &&& v@.len() == idx.schemas().dom().len()
                &&& forall|m: int|
                    0 <= m < v@.len() ==> exists|k: Seq<char>|
                        idx.schemas().contains_key(k) && crate::codec::schema_of_json(
                            #[trigger] idx.schemas()[k],
                        ) == Some(
                            (
                                match (#[trigger] v@[m]).name {
                                    Some(n) => Some(n@),
                                    None => None,
                                },
                                v@[m].hash@,
                            ),
                        )
            })),
{
    let ghost repo_path = repo.path@;
    let resolved: String = match commit_id {
        Some(cid) => {
            match refs.get_commit_id_for_branch(cid)? {
                Some(tip) => tip,
                None => cid.to_owned(),
            }
        },
        None => refs.head_commit_id()?,
    };
    match commits.get_commit_by_id(resolved.as_str())? {
        Some(commit) => {
            let n = indexes.len();
            let mut i: usize = 0;
            while i < n
                invariant
                    i <= n,
                    n == indexes@.len(),
                    resolved@ == spec_list_commit_id(refs, commit_id),
                    commits.commit_at(resolved@) is Some,
                    forall|m: int| 0 <= m < n ==> (#[trigger] indexes@[m]).1.wf(),
                    forall|a: int, b: int|
                        0 <= a < b < n ==> (#[trigger] indexes@[a]).0@ != (
                        #[trigger] indexes@[b]).0@,
                    forall|m: int| 0 <= m < i ==> (#[trigger] indexes@[m]).0@ != resolved@,
                decreases n - i,
            {
                if str_eq(indexes[i].0.as_str(), resolved.as_str()) {
                    let out = indexes[i].1.list_schemas();
                    proof {
                        if exists|w: int|
                            0 <= w < indexes@.len() && (#[trigger] indexes@[w]).0@ == resolved@
                                && indexes@[w].1.wf_schemas() {
                            let w = choose|w: int|
                                0 <= w < indexes@.len() && (#[trigger] indexes@[w]).0@ == resolved@
                                    && indexes@[w].1.wf_schemas();
                            assert(w == i);
                        }
                    }
                    return out;
                }
                i = i + 1;
            }
            Err(OxenError::NotFound(resolved))
        },
        None => Err(OxenError::NotFound(resolved)),
    }
}

} // verus!
