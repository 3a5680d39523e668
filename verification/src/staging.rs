//! The staging area: the pending diff between the working tree and HEAD.
//! The working tree enters as a value: the paths present on disk with their
//! content hashes, gathered by the embedding program.
use vstd::prelude::*;
use crate::chars::str_eq;
use crate::entries::EntryIndex;
use crate::error::OxenError;
use crate::model::StagedData;
use crate::model::StagedEntry;

verus! {

/// Is `p` one of the tree's paths?
pub open spec fn spec_tree_has(tree: Seq<(String, String)>, p: Seq<char>) -> bool {
    exists|i: int| 0 <= i < tree.len() && (#[trigger] tree[i]).0@ == p
}

/// Does the tree hold `p` with a hash other than `h`?
pub open spec fn spec_tree_differs(tree: Seq<(String, String)>, p: Seq<char>, h: Seq<char>) -> bool {
    exists|i: int| 0 <= i < tree.len() && (#[trigger] tree[i]).0@ == p && tree[i].1@ != h
}

/// Is `p` one of the staged paths?
pub open spec fn spec_staged_has(staged: Seq<(String, StagedEntry)>, p: Seq<char>) -> bool {
    exists|i: int| 0 <= i < staged.len() && (#[trigger] staged[i]).0@ == p
}

/// Find `p` in the tree.
pub fn tree_lookup(tree: &Vec<(String, String)>, p: &str) -> (r: Option<String>)
    ensures
        r is Some <==> spec_tree_has(tree@, p@),
        r matches Some(h) ==> exists|i: int|
            0 <= i < tree@.len() && (#[trigger] tree@[i]).0@ == p@ && tree@[i].1@ == h@,
{
    let n = tree.len();
    let mut i: usize = 0;
    while i < n
        invariant
            i <= n,
            n == tree@.len(),
            forall|m: int| 0 <= m < i ==> (#[trigger] tree@[m]).0@ != p@,
        decreases n - i,
    {
        if str_eq(tree[i].0.as_str(), p) {
            return Some(tree[i].1.clone());
        }
        i = i + 1;
    }
    None
}

/// Is `p` staged?
fn staged_find(staged: &Vec<(String, StagedEntry)>, p: &str) -> (r: bool)
    ensures
        r == spec_staged_has(staged@, p@),
{
    let n = staged.len();
    let mut i: usize = 0;
    while i < n
        invariant
            i <= n,
            n == staged@.len(),
            forall|m: int| 0 <= m < i ==> (#[trigger] staged@[m]).0@ != p@,
        decreases n - i,
    {
        if str_eq(staged[i].0.as_str(), p) {
            return true;
        }
        i = i + 1;
    }
    false
}

/// Compose the working-set diff: the staged files as given, tracked files
/// whose working-tree content differs from HEAD as modified, tracked files
/// missing from the tree as removed, and present files neither tracked nor
/// staged as untracked. The tree's paths must be distinct; staged paths
/// win over every other classification.
pub fn status(
    head: &EntryIndex,
    staged: &Vec<(String, StagedEntry)>,
    tree: &Vec<(String, String)>,
) -> (r: Result<StagedData, OxenError>)
    requires
        head.wf(),
        forall|i: int, j: int|
            0 <= i < j < tree@.len() ==> (#[trigger] tree@[i]).0@ != (#[trigger] tree@[j]).0@,
    ensures
        head.wf_entries() ==> r is Ok,
        r matches Err(e) ==> e is Corruption,
        r matches Ok(sd) ==> ({
            &&& sd.added_files@.len() == staged@.len()
            &&& forall|i: int|
                0 <= i < staged@.len() ==> (#[trigger] sd.added_files@[i]).0@ == staged@[i].0@
                    && sd.added_files@[i].1@ == staged@[i].1@
            &&& forall|i: int|
                0 <= i < sd.modified_files@.len() ==> ({
                    let q = (#[trigger] sd.modified_files@[i])@;
                    &&& head.entry_at(q) matches Some(e)
                    &&& spec_tree_differs(tree@, q, head.entry_at(q)->Some_0.hash)
                    &&& !spec_staged_has(staged@, q)
                })
            &&& forall|i: int|
                0 <= i < sd.removed_files@.len() ==> ({
                    let q = (#[trigger] sd.removed_files@[i])@;
                    &&& head.files().contains_key(q)
                    &&& !spec_tree_has(tree@, q)
                    &&& !spec_staged_has(staged@, q)
                })
            &&& forall|i: int|
                0 <= i < sd.untracked_files@.len() ==> ({
                    let q = (#[trigger] sd.untracked_files@[i])@;
                    &&& spec_tree_has(tree@, q)
                    &&& !head.files().contains_key(q)
                    &&& !spec_staged_has(staged@, q)
                })
            &&& forall|i: int|
                0 <= i < tree@.len() ==> ({
                    let q = (#[trigger] tree@[i]).0@;
                    (!head.files().contains_key(q) && !spec_staged_has(staged@, q)) ==> exists|
                        m: int,
                    |
                        0 <= m < sd.untracked_files@.len() && (#[trigger] sd.untracked_files@[m])@
                            == q
                })
            &&& (head.wf_entries() ==> forall|q: Seq<char>|
                head.files().contains_key(q) && !spec_tree_has(tree@, q) && !spec_staged_has(
                    staged@,
                    q,
                ) ==> exists|m: int|
                    0 <= m < sd.removed_files@.len() && (#[trigger] sd.removed_files@[m])@ == q)
            &&& (head.wf_entries() ==> forall|q: Seq<char>|
                ((#[trigger] head.entry_at(q)) matches Some(e) && spec_tree_differs(
                    tree@,
                    q,
                    e.hash,
                ) && !spec_staged_has(staged@, q)) ==> exists|m: int|
                    0 <= m < sd.modified_files@.len() && (#[trigger] sd.modified_files@[m])@ == q)
        }),
{
    let mut sd = StagedData::new();
    let mut k: usize = 0;
    let sn = staged.len();
    while k < sn
        invariant
            k <= sn,
            sn == staged@.len(),
            sd.added_files@.len() == k,
            sd.modified_files@.len() == 0,
            sd.removed_files@.len() == 0,
            sd.untracked_files@.len() == 0,
            sd.added_dirs@.len() == 0,
            sd.untracked_dirs@.len() == 0,
            forall|i: int|
                0 <= i < k ==> (#[trigger] sd.added_files@[i]).0@ == staged@[i].0@
                    && sd.added_files@[i].1@ == staged@[i].1@,
        decreases sn - k,
    {
        let p = staged[k].0.clone();
        let e = staged[k].1.clone_staged();
        sd.added_files.push((p, e));
        k = k + 1;
    }
    // Tracked files: modified when the tree's hash differs, removed when
    // the tree lacks the path.
    let head_entries = head.list_entries()?;
    let hn = head_entries.len();
    let mut i: usize = 0;
    while i < hn
        invariant
            i <= hn,
            head.wf(),
            forall|ti: int, tj: int|
                0 <= ti < tj < tree@.len() ==> (#[trigger] tree@[ti]).0@ != (
                #[trigger] tree@[tj]).0@,
            hn == head_entries@.len(),
            hn == head.file_order().len(),
            sd.added_files@.len() == staged@.len(),
            forall|m: int|
                0 <= m < staged@.len() ==> (#[trigger] sd.added_files@[m]).0@ == staged@[m].0@
                    && sd.added_files@[m].1@ == staged@[m].1@,
            sd.untracked_files@.len() == 0,
            sd.added_dirs@.len() == 0,
            sd.untracked_dirs@.len() == 0,
            forall|m: int|
                0 <= m < hn ==> head.files().contains_key(#[trigger] head.file_order()[m])
                    && crate::codec::entry_of_json(head.files()[head.file_order()[m]]) == Some(
                    head_entries@[m]@,
                ),
            head.wf_entries() ==> forall|m: int|
                0 <= m < hn ==> (#[trigger] head_entries@[m])@.path == head.file_order()[m],
            forall|m: int|
                0 <= m < sd.modified_files@.len() ==> ({
                    let q = (#[trigger] sd.modified_files@[m])@;
                    &&& head.entry_at(q) matches Some(e)
                    &&& spec_tree_differs(tree@, q, head.entry_at(q)->Some_0.hash)
                    &&& !spec_staged_has(staged@, q)
                }),
            forall|m: int|
                0 <= m < sd.removed_files@.len() ==> ({
                    let q = (#[trigger] sd.removed_files@[m])@;
                    &&& head.files().contains_key(q)
                    &&& !spec_tree_has(tree@, q)
                    &&& !spec_staged_has(staged@, q)
                }),
            head.wf_entries() ==> forall|m: int|
                0 <= m < i ==> ({
                    let q = (#[trigger] head.file_order()[m]);
                    &&& (!spec_tree_has(tree@, q) && !spec_staged_has(staged@, q) ==> exists|
                        w: int,
                    |
                        0 <= w < sd.removed_files@.len() && (#[trigger] sd.removed_files@[w])@
                            == q)
                    &&& ((head.entry_at(q) matches Some(e) && spec_tree_differs(tree@, q, e.hash)
                        && !spec_staged_has(staged@, q)) ==> exists|w: int|
                        0 <= w < sd.modified_files@.len() && (#[trigger] sd.modified_files@[w])@
                            == q)
                }),
        decreases hn - i,
    {
        let ghost sd0 = sd;
        let e = &head_entries[i];
        if !head.wf_entries_check(e) {
            return Err(OxenError::Corruption(e.path.clone()));
        }
        let is_staged = staged_find(staged, e.path.as_str());
        if !is_staged {
            match tree_lookup(tree, e.path.as_str()) {
                Some(h) => {
                    if !str_eq(h.as_str(), e.hash.as_str()) {
                        sd.modified_files.push(e.path.clone());
                    }
                },
                None => {
                    sd.removed_files.push(e.path.clone());
                },
            }
        }
        proof {
            if head.wf_entries() {
                assert(head_entries@[i as int]@.path == head.file_order()[i as int]);
                assert forall|m: int| 0 <= m < i + 1 implies ({
                    let q = (#[trigger] head.file_order()[m]);
                    &&& (!spec_tree_has(tree@, q) && !spec_staged_has(staged@, q) ==> exists|
                        w: int,
                    |
                        0 <= w < sd.removed_files@.len() && (#[trigger] sd.removed_files@[w])@
                            == q)
                    &&& ((head.entry_at(q) matches Some(e) && spec_tree_differs(tree@, q, e.hash)
                        && !spec_staged_has(staged@, q)) ==> exists|w: int|
                        0 <= w < sd.modified_files@.len() && (#[trigger] sd.modified_files@[w])@
                            == q)
                }) by {
                    let q = head.file_order()[m];
                    if m < i {
                        if !spec_tree_has(tree@, q) && !spec_staged_has(staged@, q) {
                            let w = choose|w: int|
                                0 <= w < sd0.removed_files@.len() && (
                                #[trigger] sd0.removed_files@[w])@ == q;
                            assert(sd.removed_files@[w]@ == q);
                        }
                        if head.entry_at(q) matches Some(en) && spec_tree_differs(
                            tree@,
                            q,
                            en.hash,
                        ) && !spec_staged_has(staged@, q) {
                            let w = choose|w: int|
                                0 <= w < sd0.modified_files@.len() && (
                                #[trigger] sd0.modified_files@[w])@ == q;
                            assert(sd.modified_files@[w]@ == q);
                        }
                    } else {
                        assert(q == head_entries@[i as int]@.path);
                        if !spec_tree_has(tree@, q) && !spec_staged_has(staged@, q) {
                            assert(sd.removed_files@[sd.removed_files@.len() - 1]@ == q);
                        }
                        if head.entry_at(q) matches Some(en) && spec_tree_differs(
                            tree@,
                            q,
                            en.hash,
                        ) && !spec_staged_has(staged@, q) {
                            assert(head.entry_at(q)->Some_0 == head_entries@[i as int]@);
                            let tj = choose|tj: int|
                                0 <= tj < tree@.len() && (#[trigger] tree@[tj]).0@ == q
                                    && tree@[tj].1@ != head.entry_at(q)->Some_0.hash;
                            assert(spec_tree_has(tree@, q));
                            assert(sd.modified_files@[sd.modified_files@.len() - 1]@ == q);
                        }
                    }
                }
            }
        }
        i = i + 1;
    }
    proof {
        if head.wf_entries() {
            head.lemma_file_order();
            assert forall|q: Seq<char>|
                head.files().contains_key(q) && !spec_tree_has(tree@, q) && !spec_staged_has(
                    staged@,
                    q,
                ) implies exists|w: int|
                0 <= w < sd.removed_files@.len() && (#[trigger] sd.removed_files@[w])@ == q by {
                let m = choose|m: int|
                    0 <= m < head.file_order().len() && #[trigger] head.file_order()[m] == q;
            }
            assert forall|q: Seq<char>|
                ((#[trigger] head.entry_at(q)) matches Some(e) && spec_tree_differs(
                    tree@,
                    q,
                    e.hash,
                ) && !spec_staged_has(staged@, q)) implies exists|w: int|
                0 <= w < sd.modified_files@.len() && (#[trigger] sd.modified_files@[w])@ == q by {
                assert(head.files().contains_key(q));
                let m = choose|m: int|
                    0 <= m < head.file_order().len() && #[trigger] head.file_order()[m] == q;
            }
        }
    }
    // Untracked: present on disk, neither tracked nor staged.
    let tn = tree.len();
    let mut t: usize = 0;
    while t < tn
        invariant
            t <= tn,
            head.wf(),
            forall|ti: int, tj: int|
                0 <= ti < tj < tree@.len() ==> (#[trigger] tree@[ti]).0@ != (
                #[trigger] tree@[tj]).0@,
            tn == tree@.len(),
            sd.added_files@.len() == staged@.len(),
            forall|m: int|
                0 <= m < staged@.len() ==> (#[trigger] sd.added_files@[m]).0@ == staged@[m].0@
                    && sd.added_files@[m].1@ == staged@[m].1@,
            sd.added_dirs@.len() == 0,
            sd.untracked_dirs@.len() == 0,
            forall|m: int|
                0 <= m < sd.modified_files@.len() ==> ({
                    let q = (#[trigger] sd.modified_files@[m])@;
                    &&& head.entry_at(q) matches Some(e)
                    &&& spec_tree_differs(tree@, q, head.entry_at(q)->Some_0.hash)
                    &&& !spec_staged_has(staged@, q)
                }),
            forall|m: int|
                0 <= m < sd.removed_files@.len() ==> ({
                    let q = (#[trigger] sd.removed_files@[m])@;
                    &&& head.files().contains_key(q)
                    &&& !spec_tree_has(tree@, q)
                    &&& !spec_staged_has(staged@, q)
                }),
            head.wf_entries() ==> forall|q: Seq<char>|
                head.files().contains_key(q) && !spec_tree_has(tree@, q) && !spec_staged_has(
                    staged@,
                    q,
                ) ==> exists|w: int|
                    0 <= w < sd.removed_files@.len() && (#[trigger] sd.removed_files@[w])@ == q,
            head.wf_entries() ==> forall|q: Seq<char>|
                ((#[trigger] head.entry_at(q)) matches Some(e) && spec_tree_differs(
                    tree@,
                    q,
                    e.hash,
                ) && !spec_staged_has(staged@, q)) ==> exists|w: int|
                    0 <= w < sd.modified_files@.len() && (#[trigger] sd.modified_files@[w])@ == q,
            forall|m: int|
                0 <= m < sd.untracked_files@.len() ==> ({
                    let q = (#[trigger] sd.untracked_files@[m])@;
                    &&& spec_tree_has(tree@, q)
                    &&& !head.files().contains_key(q)
                    &&& !spec_staged_has(staged@, q)
                }),
            forall|m: int|
                0 <= m < t ==> ({
                    let q = (#[trigger] tree@[m]).0@;
                    (!head.files().contains_key(q) && !spec_staged_has(staged@, q)) ==> exists|
                        w: int,
                    |
                        0 <= w < sd.untracked_files@.len() && (#[trigger] sd.untracked_files@[w])@
                            == q
                }),
        decreases tn - t,
    {
        let ghost sd0 = sd;
        let p = &tree[t].0;
        let in_head = head.has_file(p.as_str());
        proof {
            assert(sd.removed_files@ == sd0.removed_files@);
            assert(sd.modified_files@ == sd0.modified_files@);
        }
        let is_staged = staged_find(staged, p.as_str());
        if !in_head && !is_staged {
            sd.untracked_files.push(p.clone());
            proof {
                assert(tree@[t as int].0@ == sd.untracked_files@[sd.untracked_files@.len() - 1]@);
            }
        }
        proof {
            assert forall|m: int| 0 <= m < t + 1 implies ({
                let q = (#[trigger] tree@[m]).0@;
                (!head.files().contains_key(q) && !spec_staged_has(staged@, q)) ==> exists|w: int|
                    0 <= w < sd.untracked_files@.len() && (#[trigger] sd.untracked_files@[w])@
                        == q
            }) by {
                let q = tree@[m].0@;
                if m < t {
                    if !head.files().contains_key(q) && !spec_staged_has(staged@, q) {
                        let w = choose|w: int|
                            0 <= w < sd0.untracked_files@.len() && (
                            #[trigger] sd0.untracked_files@[w])@ == q;
                        assert(sd.untracked_files@[w]@ == q);
                    }
                } else {
                    if !head.files().contains_key(q) && !spec_staged_has(staged@, q) {
                        assert(sd.untracked_files@[sd.untracked_files@.len() - 1]@ == q);
                    }
                }
            }
            assert(sd.removed_files@ == sd0.removed_files@);
            assert(sd.modified_files@ == sd0.modified_files@);
            if head.wf_entries() {
                assert forall|q: Seq<char>|
                    head.files().contains_key(q) && !spec_tree_has(tree@, q) && !spec_staged_has(
                        staged@,
                        q,
                    ) implies exists|w: int|
                    0 <= w < sd.removed_files@.len() && (#[trigger] sd.removed_files@[w])@
                        == q by {
                    let w = choose|w: int|
                        0 <= w < sd0.removed_files@.len() && (#[trigger] sd0.removed_files@[w])@
                            == q;
                    assert(sd.removed_files@[w]@ == q);
                }
                assert forall|q: Seq<char>|
                    ((#[trigger] head.entry_at(q)) matches Some(e) && spec_tree_differs(
                        tree@,
                        q,
                        e.hash,
                    ) && !spec_staged_has(staged@, q)) implies exists|w: int|
                    0 <= w < sd.modified_files@.len() && (#[trigger] sd.modified_files@[w])@
                        == q by {
                    let w = choose|w: int|
                        0 <= w < sd0.modified_files@.len() && (#[trigger] sd0.modified_files@[w])@
                            == q;
                    assert(sd.modified_files@[w]@ == q);
                }
            }
        }
        t = t + 1;
    }
    Ok(sd)
}

/// After a commit of a staged diff, the working set is clean for every
/// path that was staged: a fresh status over the new commit's index, an
/// empty staging area, and a working tree whose content at those paths is
/// what was staged reports none of them as added, modified or removed.
pub proof fn lemma_commit_then_status_clean(
    index: EntryIndex,
    sd: StagedData,
    prior: Seq<(String, StagedEntry)>,
    tree: Seq<(String, String)>,
)
    requires
        sd.added_files@.len() == 0,
        forall|i: int|
            0 <= i < sd.modified_files@.len() ==> ({
                let q = (#[trigger] sd.modified_files@[i])@;
                &&& index.entry_at(q) matches Some(e)
                &&& spec_tree_differs(tree, q, index.entry_at(q)->Some_0.hash)
            }),
        forall|i: int|
            0 <= i < sd.removed_files@.len() ==> !spec_tree_has(
                tree,
                (#[trigger] sd.removed_files@[i])@,
            ),
        forall|i: int, j: int|
            0 <= i < j < tree.len() ==> (#[trigger] tree[i]).0@ != (#[trigger] tree[j]).0@,
        forall|m: int|
            0 <= m < prior.len() ==> ({
                let q = (#[trigger] prior[m]).0@;
                &&& index.entry_at(q) matches Some(e)
                &&& index.entry_at(q)->Some_0.hash == prior[m].1@.hash
                &&& exists|i: int|
                    0 <= i < tree.len() && (#[trigger] tree[i]).0@ == q && tree[i].1@
                        == prior[m].1@.hash
            }),
    ensures
        forall|m: int, w: int|
            0 <= m < prior.len() && 0 <= w < sd.added_files@.len()
                ==> (#[trigger] sd.added_files@[w]).0@ != (#[trigger] prior[m]).0@,
        forall|m: int, w: int|
            0 <= m < prior.len() && 0 <= w < sd.modified_files@.len()
                ==> (#[trigger] sd.modified_files@[w])@ != (#[trigger] prior[m]).0@,
        forall|m: int, w: int|
            0 <= m < prior.len() && 0 <= w < sd.removed_files@.len()
                ==> (#[trigger] sd.removed_files@[w])@ != (#[trigger] prior[m]).0@,
{
    assert forall|m: int, w: int|
        0 <= m < prior.len() && 0 <= w < sd.modified_files@.len() implies (
    #[trigger] sd.modified_files@[w])@ != (#[trigger] prior[m]).0@ by {
        let q = prior[m].0@;
        if sd.modified_files@[w]@ == q {
            let i = choose|i: int|
                0 <= i < tree.len() && (#[trigger] tree[i]).0@ == q && tree[i].1@
                    == prior[m].1@.hash;
            let j = choose|j: int|
                0 <= j < tree.len() && (#[trigger] tree[j]).0@ == q && tree[j].1@
                    != index.entry_at(q)->Some_0.hash;
            assert(i == j);
        }
    }
    assert forall|m: int, w: int|
        0 <= m < prior.len() && 0 <= w < sd.removed_files@.len() implies (
    #[trigger] sd.removed_files@[w])@ != (#[trigger] prior[m]).0@ by {
        let q = prior[m].0@;
        if sd.removed_files@[w]@ == q {
            let i = choose|i: int|
                0 <= i < tree.len() && (#[trigger] tree[i]).0@ == q && tree[i].1@
                    == prior[m].1@.hash;
        }
    }
}

} // verus!
