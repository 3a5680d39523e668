//! Working-tree reconciliation: given the paths HEAD tracks, the target
//! commit's index, and a snapshot of the working tree (paths with their
//! content hashes), compute which files to delete, which blobs to restore,
//! and which directories become empty. The embedding program executes the
//! plan; the decisions are all made here.
use vstd::prelude::*;
use crate::chars::str_eq;
use crate::commits::CommitDb;
use crate::entries::EntryIndex;
use crate::error::OxenError;
use crate::model::BlobCopy;
use crate::paths::spec_parent;
use crate::paths::spec_version_path;
use crate::staging::spec_tree_differs;
use crate::staging::spec_tree_has;

verus! {

/// The actions reconciliation asks of the embedding program.
pub struct CheckoutPlan {
    /// Working-tree files to delete.
    pub remove_files: Vec<String>,
    /// Blobs to restore: `src` the blob path, `dst` the working-tree path.
    pub restores: Vec<BlobCopy>,
    /// Directories that no longer hold tracked files, to remove.
    pub remove_dirs: Vec<String>,
}

/// Every planned deletion is a HEAD-tracked path, present on disk, that
/// the target does not know.
pub open spec fn spec_removes_sound(
    remove_files: Seq<String>,
    head_files: Seq<String>,
    target: EntryIndex,
    tree: Seq<(String, String)>,
) -> bool {
    forall|i: int|
        0 <= i < remove_files.len() ==> ({
            let q = (#[trigger] remove_files[i])@;
            &&& spec_tree_has(tree, q)
            &&& !target.files().contains_key(q)
            &&& exists|m: int| 0 <= m < head_files.len() && (#[trigger] head_files[m])@ == q
        })
}

/// Among the first `upto` HEAD-tracked paths, every on-disk path the
/// target does not know is planned for deletion.
pub open spec fn spec_removes_complete(
    remove_files: Seq<String>,
    head_files: Seq<String>,
    target: EntryIndex,
    tree: Seq<(String, String)>,
    upto: int,
) -> bool {
    forall|m: int|
        0 <= m < upto ==> ({
            let q = (#[trigger] head_files[m])@;
            (spec_tree_has(tree, q) && !target.files().contains_key(q)) ==> exists|i: int|
                0 <= i < remove_files.len() && (#[trigger] remove_files[i])@ == q
        })
}

/// Every candidate directory parents some on-disk HEAD-tracked path.
pub open spec fn spec_candidates_sound(
    candidates: Seq<String>,
    head_files: Seq<String>,
    tree: Seq<(String, String)>,
) -> bool {
    forall|m: int|
        0 <= m < candidates.len() ==> exists|w: int|
            0 <= w < head_files.len() && spec_tree_has(tree, (#[trigger] head_files[w])@)
                && spec_parent(head_files[w]@) == Some((#[trigger] candidates[m])@)
}

/// Among the first `upto` HEAD-tracked paths, the parent directory of
/// every on-disk path is a recorded candidate.
#[verifier::opaque]
pub open spec fn spec_candidates_complete(
    candidates: Seq<String>,
    head_files: Seq<String>,
    tree: Seq<(String, String)>,
    upto: int,
) -> bool {
    forall|m: int|
        0 <= m < upto ==> ({
            let q = (#[trigger] head_files[m])@;
            spec_tree_has(tree, q) ==> match spec_parent(q) {
                Some(d) => exists|w: int|
                    0 <= w < candidates.len() && (#[trigger] candidates[w])@ == d,
                None => true,
            }
        })
}

/// Every planned restore names a target entry, copies from that entry's
/// version path, and is needed: the path is missing on disk or stale.
pub open spec fn spec_restores_sound(
    restores: Seq<BlobCopy>,
    target: EntryIndex,
    tree: Seq<(String, String)>,
) -> bool {
    forall|i: int|
        0 <= i < restores.len() ==> ({
            let cp = #[trigger] restores[i];
            &&& target.entry_at(cp.dst@) matches Some(e)
            &&& cp.src@ == spec_version_path(
                target.entry_at(cp.dst@)->Some_0.id,
                target.entry_at(cp.dst@)->Some_0.commit_id,
                target.entry_at(cp.dst@)->Some_0.extension,
            )
            &&& (!spec_tree_has(tree, cp.dst@) || spec_tree_differs(
                tree,
                cp.dst@,
                target.entry_at(cp.dst@)->Some_0.hash,
            ))
        })
}

/// Every target path that is missing on disk or stale is planned for
/// restore.
pub open spec fn spec_restores_complete(
    restores: Seq<BlobCopy>,
    target: EntryIndex,
    tree: Seq<(String, String)>,
) -> bool {
    forall|q: Seq<char>|
        (#[trigger] target.files().contains_key(q) && (!spec_tree_has(tree, q)
            || spec_tree_differs(tree, q, target.entry_at(q)->Some_0.hash))) ==> exists|i: int|
            0 <= i < restores.len() && (#[trigger] restores[i]).dst@ == q
}

/// Every directory planned for removal held an on-disk tracked file and
/// parents no target entry.
pub open spec fn spec_dirs_sound(
    remove_dirs: Seq<String>,
    head_files: Seq<String>,
    target: EntryIndex,
    tree: Seq<(String, String)>,
) -> bool {
    forall|i: int|
        0 <= i < remove_dirs.len() ==> ({
            let d = (#[trigger] remove_dirs[i])@;
            &&& exists|m: int|
                0 <= m < head_files.len() && spec_tree_has(tree, (#[trigger] head_files[m])@)
                    && spec_parent(head_files[m]@) == Some(d)
            &&& forall|q: Seq<char>|
                #[trigger] target.files().contains_key(q) ==> spec_parent(q) != Some(d)
        })
}

/// Every directory that parented an on-disk HEAD-tracked path and parents
/// no target entry is planned for removal.
#[verifier::opaque]
pub open spec fn spec_dirs_complete(
    remove_dirs: Seq<String>,
    head_files: Seq<String>,
    target: EntryIndex,
    tree: Seq<(String, String)>,
) -> bool {
    forall|m: int|
        0 <= m < head_files.len() ==> ({
            let q = (#[trigger] head_files[m])@;
            spec_tree_has(tree, q) ==> match spec_parent(q) {
                Some(d) => (forall|k: Seq<char>|
                    #[trigger] target.files().contains_key(k) ==> spec_parent(k) != Some(d))
                    ==> exists|i: int|
                    0 <= i < remove_dirs.len() && (#[trigger] remove_dirs[i])@ == d,
                None => true,
            }
        })
}

/// Each of the first `upto` candidate directories either parents one of
/// the target's paths or is planned for removal.
#[verifier::opaque]
pub open spec fn spec_scanned_dirs(
    candidates: Seq<String>,
    upto: int,
    target_files: Seq<String>,
    remove_dirs: Seq<String>,
) -> bool {
    forall|m: int|
        0 <= m < upto ==> ((exists|k: int|
            0 <= k < target_files.len() && spec_parent((#[trigger] target_files[k])@) == Some(
                (#[trigger] candidates[m])@,
            )) || (exists|i: int|
            0 <= i < remove_dirs.len() && (#[trigger] remove_dirs[i])@ == candidates[m]@))
}

/// What a correct reconciliation plan says, relative to the paths HEAD
/// tracks, the target index and the tree snapshot.
pub open spec fn spec_plan_ok(
    plan: &CheckoutPlan,
    head_files: Seq<String>,
    target: EntryIndex,
    tree: Seq<(String, String)>,
) -> bool {
    &&& spec_removes_sound(plan.remove_files@, head_files, target, tree)
    &&& spec_removes_complete(
        plan.remove_files@,
        head_files,
        target,
        tree,
        head_files.len() as int,
    )
    &&& spec_restores_sound(plan.restores@, target, tree)
    &&& (target.wf_entries() ==> spec_restores_complete(plan.restores@, target, tree))
    &&& spec_dirs_sound(plan.remove_dirs@, head_files, target, tree)
    &&& spec_dirs_complete(plan.remove_dirs@, head_files, target, tree)
}

/// Compute the reconciliation plan: delete tracked files the target does
/// not know, restore target entries that are missing or stale on disk, and
/// remove directories that held tracked files but parent no target entry.
/// The delete pass is decided entirely before the restore pass.
#[verifier::rlimit(100)]
#[verifier::spinoff_prover]
pub fn plan_checkout(
    head_files: &Vec<String>,
    target: &EntryIndex,
    tree: &Vec<(String, String)>,
) -> (r: Result<CheckoutPlan, OxenError>)
    requires
        target.wf(),
        forall|ti: int, tj: int|
            0 <= ti < tj < tree@.len() ==> (#[trigger] tree@[ti]).0@ != (#[trigger] tree@[tj]).0@,
    ensures
        target.wf_entries() ==> r is Ok,
        r matches Err(e) ==> e is Corruption,
        r matches Ok(plan) ==> spec_plan_ok(&plan, head_files@, *target, tree@),
{
    let mut remove_files: Vec<String> = Vec::new();
    let mut candidates: Vec<String> = Vec::new();
    let hn = head_files.len();
    let mut i: usize = 0;
    proof {
        assert(spec_candidates_complete(candidates@, head_files@, tree@, 0)) by {
            reveal(spec_candidates_complete);
        }
    }
    while i < hn
        invariant
            i <= hn,
            target.wf(),
            hn == head_files@.len(),
            forall|ti: int, tj: int|
                0 <= ti < tj < tree@.len() ==> (#[trigger] tree@[ti]).0@ != (
                #[trigger] tree@[tj]).0@,
            spec_removes_sound(remove_files@, head_files@, *target, tree@),
            spec_removes_complete(remove_files@, head_files@, *target, tree@, i as int),
            spec_candidates_sound(candidates@, head_files@, tree@),
            spec_candidates_complete(candidates@, head_files@, tree@, i as int),
        decreases hn - i,
    {
        let ghost rf0 = remove_files@;
        let ghost cd0 = candidates@;
        let p = &head_files[i];
        let on_disk = crate::staging::tree_lookup(tree, p.as_str()).is_some();
        if on_disk {
            match crate::paths::parent_path(p.as_str()) {
                Some(d) => {
                    candidates.push(d);
                    proof {
                        assert(spec_candidates_sound(candidates@, head_files@, tree@)) by {
                            assert forall|m: int| 0 <= m < candidates@.len() implies exists|w: int|
                                0 <= w < head_files@.len() && spec_tree_has(
                                    tree@,
                                    (#[trigger] head_files@[w])@,
                                ) && spec_parent(head_files@[w]@) == Some(
                                (#[trigger] candidates@[m])@,
                            ) by {
                                if m < cd0.len() {
                                    let w = choose|w: int|
                                        0 <= w < head_files@.len() && spec_tree_has(
                                            tree@,
                                            (#[trigger] head_files@[w])@,
                                        ) && spec_parent(head_files@[w]@) == Some(cd0[m]@);
                                    assert(candidates@[m]@ == cd0[m]@);
                                } else {
                                    assert(spec_tree_has(tree@, head_files@[i as int]@));
                                    assert(spec_parent(head_files@[i as int]@) == Some(
                                        candidates@[m]@,
                                    ));
                                }
                            }
                        }
                    }
                },
                None => {},
            }
            if !target.has_file(p.as_str()) {
                remove_files.push(p.clone());
                proof {
                    assert(remove_files@[remove_files@.len() - 1]@ == head_files@[i as int]@);
                }
            }
        }
        proof {
            assert(spec_candidates_complete(candidates@, head_files@, tree@, i + 1)) by {
                reveal(spec_candidates_complete);
                assert forall|m: int| 0 <= m < i + 1 implies ({
                    let q = (#[trigger] head_files@[m])@;
                    spec_tree_has(tree@, q) ==> match spec_parent(q) {
                        Some(dd) => exists|w: int|
                            0 <= w < candidates@.len() && (#[trigger] candidates@[w])@ == dd,
                        None => true,
                    }
                }) by {
                    let q = head_files@[m]@;
                    if spec_tree_has(tree@, q) && spec_parent(q) is Some {
                        if m < i {
                            let w = choose|w: int|
                                0 <= w < cd0.len() && (#[trigger] cd0[w])@ == spec_parent(
                                    q,
                                )->Some_0;
                            assert(candidates@[w]@ == spec_parent(q)->Some_0);
                        } else {
                            assert(candidates@[candidates@.len() - 1]@ == spec_parent(q)->Some_0);
                        }
                    }
                }
            }
            assert(spec_removes_complete(
                remove_files@,
                head_files@,
                *target,
                tree@,
                i + 1,
            )) by {
                assert forall|m: int| 0 <= m < i + 1 implies ({
                    let q = (#[trigger] head_files@[m])@;
                    (spec_tree_has(tree@, q) && !target.files().contains_key(q)) ==> exists|w: int|
                        0 <= w < remove_files@.len() && (#[trigger] remove_files@[w])@ == q
                }) by {
                    let q = head_files@[m]@;
                    if m < i {
                        if spec_tree_has(tree@, q) && !target.files().contains_key(q) {
                            let w = choose|w: int| 0 <= w < rf0.len() && (#[trigger] rf0[w])@ == q;
                            assert(remove_files@[w]@ == q);
                        }
                    } else {
                        if spec_tree_has(tree@, q) && !target.files().contains_key(q) {
                            assert(remove_files@[remove_files@.len() - 1]@ == q);
                        }
                    }
                }
            }
        }
        i = i + 1;
    }
    // Restore pass: every target entry missing or stale on disk comes back
    // from the object store; directories holding target entries stay.
    let mut restores: Vec<BlobCopy> = Vec::new();
    let target_entries = target.list_entries()?;
    let tn = target_entries.len();
    let mut t: usize = 0;
    while t < tn
        invariant
            t <= tn,
            target.wf(),
            hn == head_files@.len(),
            forall|ti: int, tj: int|
                0 <= ti < tj < tree@.len() ==> (#[trigger] tree@[ti]).0@ != (
                #[trigger] tree@[tj]).0@,
            spec_removes_sound(remove_files@, head_files@, *target, tree@),
            spec_removes_complete(remove_files@, head_files@, *target, tree@, hn as int),
            spec_candidates_sound(candidates@, head_files@, tree@),
            spec_candidates_complete(candidates@, head_files@, tree@, hn as int),
            tn == target_entries@.len(),
            tn == target.file_order().len(),
            forall|m: int|
                0 <= m < tn ==> target.files().contains_key(#[trigger] target.file_order()[m])
                    && crate::codec::entry_of_json(target.files()[target.file_order()[m]]) == Some(
                    target_entries@[m]@,
                ),
            target.wf_entries() ==> forall|m: int|
                0 <= m < tn ==> (#[trigger] target_entries@[m])@.path == target.file_order()[m],
            spec_restores_sound(restores@, *target, tree@),
            target.wf_entries() ==> forall|m: int|
                0 <= m < t ==> ({
                    let q = #[trigger] target.file_order()[m];
                    (!spec_tree_has(tree@, q) || spec_tree_differs(
                        tree@,
                        q,
                        target.entry_at(q)->Some_0.hash,
                    )) ==> exists|w: int|
                        0 <= w < restores@.len() && (#[trigger] restores@[w]).dst@ == q
                }),
        decreases tn - t,
    {
        let ghost rs0 = restores@;
        let e = &target_entries[t];
        if !target.wf_entries_check(e) {
            return Err(OxenError::Corruption(e.path.clone()));
        }
        let need = match crate::staging::tree_lookup(tree, e.path.as_str()) {
            Some(h) => !str_eq(h.as_str(), e.hash.as_str()),
            None => true,
        };
        if need {
            let src = crate::paths::version_path(
                e.id.as_str(),
                e.commit_id.as_str(),
                e.extension.as_str(),
            );
            restores.push(BlobCopy { src, dst: e.path.clone() });
            proof {
                assert(restores@[restores@.len() - 1].dst@ == target_entries@[t as int]@.path);
                assert(spec_restores_sound(restores@, *target, tree@)) by {
                    assert forall|m: int| 0 <= m < restores@.len() implies ({
                        let cp = #[trigger] restores@[m];
                        &&& target.entry_at(cp.dst@) matches Some(en)
                        &&& cp.src@ == spec_version_path(
                            target.entry_at(cp.dst@)->Some_0.id,
                            target.entry_at(cp.dst@)->Some_0.commit_id,
                            target.entry_at(cp.dst@)->Some_0.extension,
                        )
                        &&& (!spec_tree_has(tree@, cp.dst@) || spec_tree_differs(
                            tree@,
                            cp.dst@,
                            target.entry_at(cp.dst@)->Some_0.hash,
                        ))
                    }) by {
                        if m < rs0.len() {
                            assert(restores@[m] == rs0[m]);
                        } else {
                            let q = target_entries@[t as int]@.path;
                            assert(target.entry_at(q) == Some(target_entries@[t as int]@));
                            if spec_tree_has(tree@, q) {
                                let tj = choose|tj: int|
                                    0 <= tj < tree@.len() && (#[trigger] tree@[tj]).0@ == q;
                                assert(tree@[tj].1@ != target.entry_at(q)->Some_0.hash);
                            }
                        }
                    }
                }
            }
        }
        proof {
            if target.wf_entries() {
                assert forall|m: int| 0 <= m < t + 1 implies ({
                    let q = #[trigger] target.file_order()[m];
                    (!spec_tree_has(tree@, q) || spec_tree_differs(
                        tree@,
                        q,
                        target.entry_at(q)->Some_0.hash,
                    )) ==> exists|w: int|
                        0 <= w < restores@.len() && (#[trigger] restores@[w]).dst@ == q
                }) by {
                    let q = target.file_order()[m];
                    if m < t {
                        if !spec_tree_has(tree@, q) || spec_tree_differs(
                            tree@,
                            q,
                            target.entry_at(q)->Some_0.hash,
                        ) {
                            let w = choose|w: int|
                                0 <= w < rs0.len() && (#[trigger] rs0[w]).dst@ == q;
                            assert(restores@[w].dst@ == q);
                        }
                    } else {
                        assert(q == target_entries@[t as int]@.path);
                        if !spec_tree_has(tree@, q) || spec_tree_differs(
                            tree@,
                            q,
                            target.entry_at(q)->Some_0.hash,
                        ) {
                            let tj = choose|tj: int|
                                0 <= tj < tree@.len() && (#[trigger] tree@[tj]).0@ == q
                                    && tree@[tj].1@ != target.entry_at(q)->Some_0.hash;
                            assert(restores@[restores@.len() - 1].dst@ == q);
                        }
                    }
                }
            }
        }
        t = t + 1;
    }
    proof {
        if target.wf_entries() {
            target.lemma_file_order();
            assert(spec_restores_complete(restores@, *target, tree@)) by {
                assert forall|q: Seq<char>|
                    (#[trigger] target.files().contains_key(q) && (!spec_tree_has(tree@, q)
                        || spec_tree_differs(
                        tree@,
                        q,
                        target.entry_at(q)->Some_0.hash,
                    ))) implies exists|w: int|
                    0 <= w < restores@.len() && (#[trigger] restores@[w]).dst@ == q by {
                    let m = choose|m: int|
                        0 <= m < target.file_order().len() && #[trigger] target.file_order()[m]
                            == q;
                }
            }
        }
    }
    // Directories that parent a target entry stay; the rest of the
    // candidates go.
    let mut remove_dirs: Vec<String> = Vec::new();
    let target_files = target.list_files();
    let cn = candidates.len();
    let mut c: usize = 0;
    proof {
        assert(spec_scanned_dirs(candidates@, 0, target_files@, remove_dirs@)) by {
            reveal(spec_scanned_dirs);
        }
    }
    while c < cn
        invariant
            c <= cn,
            target.wf(),
            hn == head_files@.len(),
            spec_removes_sound(remove_files@, head_files@, *target, tree@),
            spec_removes_complete(remove_files@, head_files@, *target, tree@, hn as int),
            spec_candidates_sound(candidates@, head_files@, tree@),
            spec_candidates_complete(candidates@, head_files@, tree@, hn as int),
            spec_restores_sound(restores@, *target, tree@),
            target.wf_entries() ==> spec_restores_complete(restores@, *target, tree@),
            cn == candidates@.len(),
            target_files@.len() == target.file_order().len(),
            forall|m: int|
                0 <= m < target_files@.len() ==> (#[trigger] target_files@[m])@
                    == target.file_order()[m],
            forall|m: int|
                0 <= m < target_files@.len() ==> target.files().contains_key(
                    (#[trigger] target_files@[m])@,
                ),
            forall|q: Seq<char>|
                target.files().contains_key(q) ==> exists|m: int|
                    0 <= m < target_files@.len() && (#[trigger] target_files@[m])@ == q,
            spec_dirs_sound(remove_dirs@, head_files@, *target, tree@),
            spec_scanned_dirs(candidates@, c as int, target_files@, remove_dirs@),
        decreases cn - c,
    {
        let ghost rd0 = remove_dirs@;
        let d = &candidates[c];
        let mut keep = false;
        let fnn = target_files.len();
        let mut f: usize = 0;
        while f < fnn
            invariant
                f <= fnn,
                fnn == target_files@.len(),
                keep ==> exists|m: int|
                    0 <= m < target_files@.len() && spec_parent((#[trigger] target_files@[m])@)
                        == Some(d@),
                !keep ==> forall|m: int|
                    0 <= m < f ==> spec_parent((#[trigger] target_files@[m])@) != Some(d@),
            decreases fnn - f,
        {
            match crate::paths::parent_path(target_files[f].as_str()) {
                Some(pd) => {
                    if str_eq(pd.as_str(), d.as_str()) {
                        keep = true;
                    }
                },
                None => {},
            }
            f = f + 1;
        }
        if !keep {
            remove_dirs.push(d.clone());
            proof {
                assert(spec_dirs_sound(remove_dirs@, head_files@, *target, tree@)) by {
                    assert forall|m: int| 0 <= m < remove_dirs@.len() implies ({
                        let dd = (#[trigger] remove_dirs@[m])@;
                        &&& exists|w: int|
                            0 <= w < head_files@.len() && spec_tree_has(
                                tree@,
                                (#[trigger] head_files@[w])@,
                            ) && spec_parent(head_files@[w]@) == Some(dd)
                        &&& forall|q: Seq<char>|
                            #[trigger] target.files().contains_key(q) ==> spec_parent(q) != Some(
                                dd,
                            )
                    }) by {
                        if m < rd0.len() {
                            assert(remove_dirs@[m] == rd0[m]);
                        } else {
                            assert(remove_dirs@[m]@ == candidates@[c as int]@);
                            assert forall|q: Seq<char>|
                                #[trigger] target.files().contains_key(q) implies spec_parent(
                                q,
                            ) != Some(candidates@[c as int]@) by {
                                let w = choose|w: int|
                                    0 <= w < target_files@.len() && (
                                    #[trigger] target_files@[w])@ == q;
                            }
                        }
                    }
                }
            }
        }
        proof {
            assert(spec_scanned_dirs(candidates@, c + 1, target_files@, remove_dirs@)) by {
                reveal(spec_scanned_dirs);
                assert forall|m: int| 0 <= m < c + 1 implies ((exists|k: int|
                    0 <= k < target_files@.len() && spec_parent((#[trigger] target_files@[k])@)
                        == Some((#[trigger] candidates@[m])@)) || (exists|i: int|
                    0 <= i < remove_dirs@.len() && (#[trigger] remove_dirs@[i])@
                        == candidates@[m]@)) by {
                    if m < c {
                        if exists|i: int| 0 <= i < rd0.len() && (#[trigger] rd0[i])@
                            == candidates@[m]@ {
                            let i = choose|i: int|
                                0 <= i < rd0.len() && (#[trigger] rd0[i])@ == candidates@[m]@;
                            assert(remove_dirs@[i]@ == candidates@[m]@);
                        }
                    } else {
                        if keep {
                        } else {
                            assert(remove_dirs@[remove_dirs@.len() - 1]@
                                == candidates@[c as int]@);
                        }
                    }
                }
            }
        }
        c = c + 1;
    }
    proof {
        assert(spec_dirs_complete(remove_dirs@, head_files@, *target, tree@)) by {
            reveal(spec_dirs_complete);
            reveal(spec_candidates_complete);
            reveal(spec_scanned_dirs);
            assert forall|m: int| 0 <= m < head_files@.len() implies ({
                let q = (#[trigger] head_files@[m])@;
                spec_tree_has(tree@, q) ==> match spec_parent(q) {
                    Some(dd) => (forall|k: Seq<char>|
                        #[trigger] target.files().contains_key(k) ==> spec_parent(k) != Some(dd))
                        ==> exists|i: int|
                        0 <= i < remove_dirs@.len() && (#[trigger] remove_dirs@[i])@ == dd,
                    None => true,
                }
            }) by {
                let q = head_files@[m]@;
                if spec_tree_has(tree@, q) && spec_parent(q) is Some {
                    let dd = spec_parent(q)->Some_0;
                    if forall|k: Seq<char>|
                        #[trigger] target.files().contains_key(k) ==> spec_parent(k) != Some(dd) {
                        let w = choose|w: int|
                            0 <= w < candidates@.len() && (#[trigger] candidates@[w])@ == dd;
                        if exists|k: int|
                            0 <= k < target_files@.len() && spec_parent(
                                (#[trigger] target_files@[k])@,
                            ) == Some(candidates@[w]@) {
                            let k = choose|k: int|
                                0 <= k < target_files@.len() && spec_parent(
                                    (#[trigger] target_files@[k])@,
                                ) == Some(candidates@[w]@);
                            assert(target.files().contains_key(target_files@[k]@));
                        }
                    }
                }
            }
        }
    }
    Ok(CheckoutPlan { remove_files, restores, remove_dirs })
}

/// Reconcile the working tree with the commit `target_commit_id`. Fails
/// when the commit is not recorded; reconciling with the commit HEAD
/// already points at is a no-op that touches nothing.
pub fn set_working_repo_to_commit_id(
    commits: &CommitDb,
    head_commit_id: &str,
    target_commit_id: &str,
    head_files: &Vec<String>,
    target: &EntryIndex,
    tree: &Vec<(String, String)>,
) -> (r: Result<CheckoutPlan, OxenError>)
    requires
        commits.wf(),
        target.wf(),
        forall|ti: int, tj: int|
            0 <= ti < tj < tree@.len() ==> (#[trigger] tree@[ti]).0@ != (#[trigger] tree@[tj]).0@,
    ensures
        !commits.store().contains_key(target_commit_id@) <==> (r matches Err(e) && e is NotFound),
        head_commit_id@ == target_commit_id@ ==> (r matches Ok(plan)
            ==> plan.remove_files@.len() == 0 && plan.restores@.len() == 0
            && plan.remove_dirs@.len() == 0),
        head_commit_id@ != target_commit_id@ ==> (r matches Ok(plan) ==> spec_plan_ok(
            &plan,
            head_files@,
            *target,
            tree@,
        )),
        commits.store().contains_key(target_commit_id@) && target.wf_entries() ==> r is Ok,
        r matches Err(e) ==> e is NotFound || e is Corruption,
{
    if !commits.commit_id_exists(target_commit_id) {
        return Err(OxenError::NotFound(target_commit_id.to_owned()));
    }
    if str_eq(head_commit_id, target_commit_id) {
        return Ok(
            CheckoutPlan {
                remove_files: Vec::new(),
                restores: Vec::new(),
                remove_dirs: Vec::new(),
            },
        );
    }
    plan_checkout(head_files, target, tree)
}

} // verus!
