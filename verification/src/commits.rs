//! The commit store: commit ids mapped to serialized commit records, with
//! the history traversal that walks parent links.
use vstd::prelude::*;
use crate::codec::commit_from_json;
use crate::codec::commit_json;
use crate::codec::commit_of_json;
use crate::codec::commit_to_json;
use crate::codec::lemma_commit_json_roundtrip;
use crate::chars::str_eq;
use crate::error::OxenError;
use crate::model::Commit;
use crate::model::CommitV;
use crate::strmap::StrMap;
use crate::entries::EntryIndex;
use crate::model::BlobCopy;
use crate::model::CommitEntry;
use crate::model::StagedData;
use crate::refs::RefWriter;

verus! {

/// Commit ids mapped to canonical commit JSON.
pub struct CommitDb {
    commits_db: StrMap,
}

impl CommitDb {
    /// Well-formedness of the underlying store.
    pub closed spec fn wf(&self) -> bool {
        self.commits_db.wf()
    }

    /// The raw store: commit id to record text.
    pub closed spec fn store(&self) -> Map<Seq<char>, Seq<char>> {
        self.commits_db@
    }

    /// The commit recorded under `id`, if one is recorded and its record
    /// reads back.
    pub open spec fn commit_at(&self, id: Seq<char>) -> Option<CommitV> {
        if self.store().contains_key(id) {
            commit_of_json(self.store()[id])
        } else {
            None
        }
    }

    /// A commit store over loaded pairs.
    pub fn new(commits_db: StrMap) -> (r: CommitDb)
        requires
            commits_db.wf(),
        ensures
            r.wf(),
            r.store() == commits_db@,
    {
        CommitDb { commits_db }
    }

    /// Record a commit under its id.
    pub fn add_commit(&mut self, commit: &Commit) -> (r: Result<(), OxenError>)
        requires
            old(self).wf(),
        ensures
            final(self).wf(),
            r is Ok,
            final(self).store() == old(self).store().insert(commit.id@, commit_json(commit@)),
            final(self).commit_at(commit.id@) == Some(commit@),
    {
        let commit_json_text = commit_to_json(commit);
        self.commits_db.insert(commit.id.clone(), commit_json_text);
        proof {
            lemma_commit_json_roundtrip(commit@);
        }
        Ok(())
    }

    /// The stored pairs, for writing the store back out.
    pub fn store_pairs(&self) -> (r: Vec<(String, String)>)
        requires
            self.wf(),
        ensures
            forall|i: int|
                0 <= i < r@.len() ==> self.store().contains_pair(
                    (#[trigger] r@[i]).0@,
                    r@[i].1@,
                ),
            forall|k: Seq<char>|
                self.store().contains_key(k) ==> exists|i: int|
                    0 <= i < r@.len() && (#[trigger] r@[i]).0@ == k,
    {
        self.commits_db.pairs()
    }

    /// Is a commit recorded under this id?
    pub fn commit_id_exists(&self, commit_id: &str) -> (r: bool)
        requires
            self.wf(),
        ensures
            r == self.store().contains_key(commit_id@),
    {
        self.commits_db.contains_key(commit_id)
    }

    /// The commit recorded under `commit_id`: `None` when the id is
    /// unknown, an error when the record does not read back.
    pub fn get_commit_by_id(&self, commit_id: &str) -> (r: Result<Option<Commit>, OxenError>)
        requires
            self.wf(),
        ensures
            !self.store().contains_key(commit_id@) ==> (r matches Ok(o) && o is None),
            self.commit_at(commit_id@) matches Some(cv) ==> (r matches Ok(o) && (o matches Some(c)
                && c@ == cv)),
            self.store().contains_key(commit_id@) && self.commit_at(commit_id@) is None ==> (r
                matches Err(e) && e is Corruption),
    {
        match self.commits_db.get(commit_id) {
            None => Ok(None),
            Some(text) => match commit_from_json(text.as_str()) {
                Some(c) => Ok(Some(c)),
                None => Err(OxenError::Corruption(commit_id.to_owned())),
            },
        }
    }

    /// The store key a chain reads at position `i`: the requested id first,
    /// then each commit's parent.
    #[verifier::opaque]
    pub open spec fn chain_keys(id: Seq<char>, ch: Seq<CommitV>) -> Seq<Seq<char>> {
        Seq::new(
            ch.len(),
            |i: int|
                if i == 0 {
                    id
                } else {
                    ch[i - 1].parent_id->Some_0
                },
        )
    }

    /// A complete ancestor chain for `id`: every link recorded, ending at a
    /// parentless root, visiting no id twice.
    #[verifier::opaque]
    pub open spec fn is_history_chain(&self, id: Seq<char>, ch: Seq<CommitV>) -> bool {
        let keys = CommitDb::chain_keys(id, ch);
        &&& ch.len() >= 1
        &&& forall|i: int| 0 <= i < ch.len() ==> self.commit_at(keys[i]) == Some(#[trigger] ch[i])
        &&& forall|i: int| 0 <= i < ch.len() - 1 ==> (#[trigger] ch[i]).parent_id is Some
        &&& ch[ch.len() - 1].parent_id is None
        &&& forall|i: int, j: int| 0 <= i < j < ch.len() ==> keys[i] != keys[j]
    }

    /// Any complete chain for `id` extends what the walker has collected:
    /// it is longer than `outv`, agrees with `outv` on the prefix, and its
    /// next key is `cur`.
    #[verifier::opaque]
    pub open spec fn chain_bound(&self, id: Seq<char>, outv: Seq<CommitV>, cur: Seq<char>) -> bool {
        forall|ch: Seq<CommitV>|
            self.is_history_chain(id, ch) ==> #[trigger] ch.len() > outv.len() && (forall|i: int|
                0 <= i < outv.len() ==> ch[i] == #[trigger] outv[i]) && CommitDb::chain_keys(
                id,
                ch,
            )[outv.len() as int] == cur
    }

    /// A parentless commit is its own complete ancestor history, and the
    /// only one: the ancestors of a root commit are exactly that commit.
    pub proof fn lemma_root_chain(&self, id: Seq<char>, c: CommitV)
        requires
            self.commit_at(id) == Some(c),
            c.parent_id is None,
        ensures
            self.is_history_chain(id, seq![c]),
            forall|ch: Seq<CommitV>| self.is_history_chain(id, ch) ==> ch =~= seq![c],
    {
        reveal(CommitDb::is_history_chain);
        reveal(CommitDb::chain_keys);
        let one = seq![c];
        assert(CommitDb::chain_keys(id, one)[0] == id);
        assert(self.is_history_chain(id, one));
        assert forall|ch: Seq<CommitV>| self.is_history_chain(id, ch) implies ch =~= one by {
            assert(CommitDb::chain_keys(id, ch)[0] == id);
            assert(self.commit_at(CommitDb::chain_keys(id, ch)[0]) == Some(ch[0]));
            assert(ch[0] == c);
            if ch.len() > 1 {
                assert(ch[0].parent_id is Some);
            }
        }
    }

    /// Recording a fresh commit extends its parent's ancestor history by
    /// exactly that commit: against the grown store, the new commit's
    /// history is the commit itself followed by the parent's chain.
    pub proof fn lemma_commit_extends_chain(
        old_db: &CommitDb,
        new_db: &CommitDb,
        cv: CommitV,
        ch: Seq<CommitV>,
    )
        requires
            new_db.store() == old_db.store().insert(cv.id, commit_json(cv)),
            !old_db.store().contains_key(cv.id),
            cv.parent_id is Some,
            old_db.is_history_chain(cv.parent_id->Some_0, ch),
        ensures
            new_db.is_history_chain(cv.id, seq![cv] + ch),
    {
        reveal(CommitDb::is_history_chain);
        reveal(CommitDb::chain_keys);
        lemma_commit_json_roundtrip(cv);
        let p = cv.parent_id->Some_0;
        let ch2 = seq![cv] + ch;
        let keys_old = CommitDb::chain_keys(p, ch);
        let keys2 = CommitDb::chain_keys(cv.id, ch2);
        assert(keys2[0] == cv.id);
        assert forall|i: int| 1 <= i < ch2.len() implies keys2[i] == keys_old[i - 1] by {
            if i == 1 {
                assert(ch2[0] == cv);
            } else {
                assert(ch2[i - 1] == ch[i - 2]);
            }
        }
        assert(new_db.commit_at(cv.id) == Some(cv));
        assert forall|i: int|
            0 <= i < ch2.len() implies new_db.commit_at(keys2[i]) == Some(#[trigger] ch2[i]) by {
            if i == 0 {
            } else {
                assert(old_db.commit_at(keys_old[i - 1]) == Some(ch[i - 1]));
                assert(old_db.store().contains_key(keys_old[i - 1]));
                assert(keys_old[i - 1] != cv.id);
                assert(new_db.store()[keys_old[i - 1]] == old_db.store()[keys_old[i - 1]]);
                assert(ch2[i] == ch[i - 1]);
            }
        }
        assert forall|i: int| 0 <= i < ch2.len() - 1 implies (#[trigger] ch2[i]).parent_id
            is Some by {
            if i > 0 {
                assert(ch2[i] == ch[i - 1]);
            }
        }
        assert(ch2[ch2.len() - 1] == ch[ch.len() - 1]);
        assert forall|i: int, j: int| 0 <= i < j < ch2.len() implies keys2[i] != keys2[j] by {
            if i == 0 {
                assert(keys2[j] == keys_old[j - 1]);
                assert(old_db.commit_at(keys_old[j - 1]) == Some(ch[j - 1]));
                assert(old_db.store().contains_key(keys_old[j - 1]));
            } else {
                assert(keys2[i] == keys_old[i - 1]);
                assert(keys2[j] == keys_old[j - 1]);
            }
        }
    }

    /// The walker's state while collecting ancestors: `outv` are the
    /// commits read so far, `seenv` the store keys they were read from, and
    /// `cur` the key to read next. Any complete chain must extend what the
    /// walker has.
    #[verifier::opaque]
    pub open spec fn walk_inv(
        &self,
        id: Seq<char>,
        outv: Seq<CommitV>,
        seenv: Seq<Seq<char>>,
        cur: Seq<char>,
    ) -> bool {
        &&& outv.len() == seenv.len()
        &&& forall|i: int|
            0 <= i < seenv.len() ==> self.store().dom().contains(#[trigger] seenv[i])
        &&& forall|i: int, j: int| 0 <= i < j < seenv.len() ==> seenv[i] != seenv[j]
        &&& forall|i: int|
            0 <= i < outv.len() ==> self.commit_at(#[trigger] seenv[i]) == Some(outv[i])
        &&& (seenv.len() > 0 ==> seenv[0] == id)
        &&& (seenv.len() == 0 ==> cur == id)
        &&& forall|i: int|
            0 <= i < outv.len() - 1 ==> (#[trigger] outv[i]).parent_id == Some(seenv[i + 1])
        &&& (outv.len() > 0 ==> outv[outv.len() - 1].parent_id == Some(cur))
        &&& forall|i: int| 0 <= i < seenv.len() ==> #[trigger] seenv[i] != cur
        &&& self.chain_bound(id, outv, cur)
    }

    /// The walker may start at the requested id with nothing read.
    pub proof fn lemma_walk_init(&self, id: Seq<char>)
        ensures
            self.walk_inv(id, Seq::<CommitV>::empty(), Seq::<Seq<char>>::empty(), id),
    {
        reveal(CommitDb::walk_inv);
        reveal(CommitDb::chain_bound);
        reveal(CommitDb::is_history_chain);
        reveal(CommitDb::chain_keys);
    }

    /// When nothing is recorded under the next key, no complete chain
    /// exists.
    pub proof fn lemma_walk_no_commit(
        &self,
        id: Seq<char>,
        outv: Seq<CommitV>,
        seenv: Seq<Seq<char>>,
        cur: Seq<char>,
    )
        requires
            self.walk_inv(id, outv, seenv, cur),
            self.commit_at(cur) is None,
        ensures
            forall|ch: Seq<CommitV>| !self.is_history_chain(id, ch),
    {
        reveal(CommitDb::walk_inv);
        reveal(CommitDb::chain_bound);
        assert forall|ch: Seq<CommitV>| !self.is_history_chain(id, ch) by {
            if self.is_history_chain(id, ch) {
                reveal(CommitDb::is_history_chain);
                let k = outv.len() as int;
                assert(CommitDb::chain_keys(id, ch)[k] == cur);
                assert(self.commit_at(CommitDb::chain_keys(id, ch)[k]) == Some(ch[k]));
            }
        }
    }

    /// The keys a chain reads are exactly the keys the walker has seen, as
    /// far as the walker has come.
    proof fn lemma_walk_keys(
        &self,
        id: Seq<char>,
        outv: Seq<CommitV>,
        seenv: Seq<Seq<char>>,
        cur: Seq<char>,
        ch: Seq<CommitV>,
        m: int,
    )
        requires
            self.walk_inv(id, outv, seenv, cur),
            self.is_history_chain(id, ch),
            0 <= m <= outv.len(),
            m < ch.len(),
        ensures
            CommitDb::chain_keys(id, ch)[m] == seenv.push(cur)[m],
    {
        reveal(CommitDb::walk_inv);
        reveal(CommitDb::chain_bound);
        reveal(CommitDb::is_history_chain);
        reveal(CommitDb::chain_keys);
        if m == 0 {
            if seenv.len() == 0 {
                assert(seenv.push(cur)[0] == cur);
            } else {
                assert(seenv.push(cur)[0] == seenv[0]);
            }
        } else {
            assert(ch[m - 1] == outv[m - 1]);
            if m - 1 < outv.len() - 1 {
                assert(outv[m - 1].parent_id == Some(seenv[m]));
                assert(seenv.push(cur)[m] == seenv[m]);
            } else {
                assert(m == outv.len());
                assert(outv[m - 1].parent_id == Some(cur));
                assert(seenv.push(cur)[m] == cur);
            }
        }
    }

    /// Reading a parentless commit completes the chain.
    #[verifier::rlimit(100)]
    #[verifier::spinoff_prover]
    pub proof fn lemma_walk_done(
        &self,
        id: Seq<char>,
        outv: Seq<CommitV>,
        seenv: Seq<Seq<char>>,
        cur: Seq<char>,
        cv: CommitV,
    )
        requires
            self.walk_inv(id, outv, seenv, cur),
            self.commit_at(cur) == Some(cv),
            cv.parent_id is None,
        ensures
            self.is_history_chain(id, outv.push(cv)),
    {
        let ch = outv.push(cv);
        let keys = CommitDb::chain_keys(id, ch);
        let sk = seenv.push(cur);
        assert forall|m: int| 0 <= m < ch.len() implies keys[m] == sk[m] by {
            reveal(CommitDb::walk_inv);
            reveal(CommitDb::chain_keys);
            if m == 0 {
                if seenv.len() == 0 {
                } else {
                }
            } else {
                assert(ch[m - 1] == outv[m - 1]);
            }
        }
        reveal(CommitDb::walk_inv);
        reveal(CommitDb::is_history_chain);
        assert forall|i: int| 0 <= i < ch.len() implies self.commit_at(keys[i]) == Some(
            #[trigger] ch[i],
        ) by {
            assert(keys[i] == sk[i]);
            if i < outv.len() {
                assert(self.commit_at(seenv[i]) == Some(outv[i]));
            }
        }
        assert(ch[ch.len() - 1].parent_id is None);
        assert forall|i: int, j: int| 0 <= i < j < ch.len() implies keys[i] != keys[j] by {
            assert(keys[i] == sk[i]);
            assert(keys[j] == sk[j]);
        }
    }

    /// A parent pointing back at a key already read means the recorded
    /// history is cyclic: no complete chain exists.
    pub proof fn lemma_walk_cycle(
        &self,
        id: Seq<char>,
        outv: Seq<CommitV>,
        seenv: Seq<Seq<char>>,
        cur: Seq<char>,
        cv: CommitV,
        p: Seq<char>,
    )
        requires
            self.walk_inv(id, outv, seenv, cur),
            self.commit_at(cur) == Some(cv),
            cv.parent_id == Some(p),
            seenv.push(cur).contains(p),
        ensures
            forall|ch: Seq<CommitV>| !self.is_history_chain(id, ch),
    {
        let sk = seenv.push(cur);
        let m = choose|m: int| 0 <= m < sk.len() && sk[m] == p;
        assert forall|ch: Seq<CommitV>| !self.is_history_chain(id, ch) by {
            if self.is_history_chain(id, ch) {
                let k = outv.len() as int;
                let keys = CommitDb::chain_keys(id, ch);
                reveal(CommitDb::walk_inv);
                reveal(CommitDb::chain_bound);
                assert(ch.len() > k);
                assert(keys[k] == cur);
                reveal(CommitDb::is_history_chain);
                assert(self.commit_at(keys[k]) == Some(ch[k]));
                assert(ch[k] == cv);
                if ch.len() == k + 1 {
                    assert(ch[ch.len() - 1].parent_id is None);
                } else {
                    reveal(CommitDb::chain_keys);
                    assert(keys[k + 1] == ch[k].parent_id->Some_0);
                    assert(keys[k + 1] == p);
                    self.lemma_walk_keys(id, outv, seenv, cur, ch, m);
                    assert(keys[m] == p);
                    assert(keys[m] != keys[k + 1]);
                }
            }
        }
    }

    /// Any complete chain extends past the commit just read.
    proof fn lemma_walk_step_chain(
        &self,
        id: Seq<char>,
        outv: Seq<CommitV>,
        seenv: Seq<Seq<char>>,
        cur: Seq<char>,
        cv: CommitV,
        p: Seq<char>,
    )
        requires
            self.walk_inv(id, outv, seenv, cur),
            self.commit_at(cur) == Some(cv),
            cv.parent_id == Some(p),
        ensures
            self.chain_bound(id, outv.push(cv), p),
    {
        let outv2 = outv.push(cv);
        assert(self.chain_bound(id, outv2, p)) by {
            reveal(CommitDb::chain_bound);
            assert forall|ch: Seq<CommitV>|
                self.is_history_chain(id, ch) implies #[trigger] ch.len() > outv2.len() && (forall|
                    i: int,
                |
                    0 <= i < outv2.len() ==> ch[i] == #[trigger] outv2[i]) && CommitDb::chain_keys(
                    id,
                    ch,
                )[outv2.len() as int] == p by {
                reveal(CommitDb::walk_inv);
                reveal(CommitDb::chain_bound);
                let k = outv.len() as int;
                let keys = CommitDb::chain_keys(id, ch);
                assert(ch.len() > k);
                assert(keys[k] == cur);
                reveal(CommitDb::is_history_chain);
                assert(self.commit_at(keys[k]) == Some(ch[k]));
                assert(ch[k] == cv);
                assert(ch.len() > k + 1) by {
                    if ch.len() == k + 1 {
                        assert(ch[ch.len() - 1].parent_id is None);
                    }
                }
                assert forall|i: int| 0 <= i < outv2.len() implies ch[i] == #[trigger] outv2[i] by {
                    if i < k {
                        assert(ch[i] == outv[i]);
                    } else {
                        assert(i == k);
                    }
                }
                reveal(CommitDb::chain_keys);
                assert(keys[k + 1] == ch[k].parent_id->Some_0);
            }
        }
    }

    /// Reading a commit whose parent is new extends the walker's state.
    pub proof fn lemma_walk_step(
        &self,
        id: Seq<char>,
        outv: Seq<CommitV>,
        seenv: Seq<Seq<char>>,
        cur: Seq<char>,
        cv: CommitV,
        p: Seq<char>,
    )
        requires
            self.walk_inv(id, outv, seenv, cur),
            self.commit_at(cur) == Some(cv),
            cv.parent_id == Some(p),
            !seenv.push(cur).contains(p),
            self.store().dom().finite(),
        ensures
            self.walk_inv(id, outv.push(cv), seenv.push(cur), p),
            seenv.push(cur).len() <= self.store().dom().len(),
    {
        let outv2 = outv.push(cv);
        let sk = seenv.push(cur);
        self.lemma_walk_step_chain(id, outv, seenv, cur, cv, p);
        reveal(CommitDb::walk_inv);
        assert(self.store().dom().contains(cur)) by {
            if !self.store().contains_key(cur) {
                assert(self.commit_at(cur) is None);
            }
        }
        assert forall|i: int| 0 <= i < sk.len() implies self.store().dom().contains(
            #[trigger] sk[i],
        ) by {
            if i < seenv.len() {
                assert(sk[i] == seenv[i]);
            } else {
                assert(sk[i] == cur);
            }
        }
        assert forall|i: int| 0 <= i < sk.len() implies #[trigger] sk[i] != p by {
            assert(sk.contains(sk[i]));
        }
        assert forall|i: int|
            0 <= i < outv2.len() - 1 implies (#[trigger] outv2[i]).parent_id == Some(
            sk[i + 1],
        ) by {
            if i < outv.len() - 1 {
                assert(outv2[i] == outv[i]);
                assert(sk[i + 1] == seenv[i + 1]);
            } else {
                assert(i == outv.len() - 1);
                assert(sk[i + 1] == cur);
            }
        }
        assert forall|i: int| 0 <= i < outv2.len() implies self.commit_at(#[trigger] sk[i])
            == Some(outv2[i]) by {
            if i < outv.len() {
                assert(sk[i] == seenv[i]);
                assert(outv2[i] == outv[i]);
            } else {
                assert(sk[i] == cur);
                assert(outv2[i] == cv);
            }
        }
        assert forall|i: int, j: int| 0 <= i < j < sk.len() implies sk[i] != sk[j] by {
            if j < seenv.len() {
            } else {
                assert(sk[j] == cur);
                assert(sk[i] == seenv[i]);
            }
        }
        assert(sk[0] == id) by {
            if seenv.len() > 0 {
                assert(sk[0] == seenv[0]);
            } else {
                assert(sk[0] == cur);
            }
        }
        assert(outv2[outv2.len() - 1] == cv);
        assert(outv2.len() == sk.len());
        lemma_distinct_seq_in_set(sk, self.store().dom());
    }

    /// The ancestors of `commit_id`, most recent first: the commit itself,
    /// then its parent, down to the root. Succeeds exactly when the recorded
    /// history under `commit_id` forms a complete acyclic chain; a cycle or
    /// a dangling or unreadable record is reported as an error.
    #[verifier::rlimit(100)]
    #[verifier::spinoff_prover]
    pub fn ancestors(&self, commit_id: &str) -> (r: Result<Vec<Commit>, OxenError>)
        requires
            self.wf(),
        ensures
            r matches Ok(v) ==> self.is_history_chain(
                commit_id@,
                Seq::new(v@.len(), |i: int| v@[i]@),
            ),
            r is Ok <==> exists|ch: Seq<CommitV>| self.is_history_chain(commit_id@, ch),
    {
        let ghost id = commit_id@;
        let mut out: Vec<Commit> = Vec::new();
        let mut seen: Vec<String> = Vec::new();
        let mut cur: String = commit_id.to_owned();
        proof {
            self.commits_db.lemma_dom_finite();
            self.lemma_walk_init(id);
            assert(Seq::new(out@.len(), |i: int| out@[i]@) =~= Seq::<CommitV>::empty());
            assert(Seq::new(seen@.len(), |i: int| seen@[i]@) =~= Seq::<Seq<char>>::empty());
        }
        loop
            invariant
                self.wf(),
                id == commit_id@,
                self.store().dom().finite(),
                out@.len() == seen@.len(),
                out@.len() <= self.store().dom().len(),
                self.walk_inv(
                    id,
                    Seq::new(out@.len(), |i: int| out@[i]@),
                    Seq::new(seen@.len(), |i: int| seen@[i]@),
                    cur@,
                ),
            decreases self.store().dom().len() - out@.len(),
        {
            let ghost outv = Seq::new(out@.len(), |i: int| out@[i]@);
            let ghost seenv = Seq::new(seen@.len(), |i: int| seen@[i]@);
            let ghost cur0 = cur@;
            let text = match self.commits_db.get(cur.as_str()) {
                Some(t) => t,
                None => {
                    proof {
                        self.lemma_walk_no_commit(id, outv, seenv, cur0);
                    }
                    if out.len() == 0 {
                        return Err(OxenError::NotFound(cur));
                    }
                    return Err(OxenError::Corruption(cur));
                },
            };
            let c = match commit_from_json(text.as_str()) {
                Some(c) => c,
                None => {
                    proof {
                        self.lemma_walk_no_commit(id, outv, seenv, cur0);
                    }
                    return Err(OxenError::Corruption(cur));
                },
            };
            let ghost cv = c@;
            proof {
                assert(self.commit_at(cur0) == Some(cv));
            }
            let parent = c.parent_id.clone();
            out.push(c);
            seen.push(cur);
            proof {
                assert(Seq::new(out@.len(), |i: int| out@[i]@) =~= outv.push(cv));
                assert(Seq::new(seen@.len(), |i: int| seen@[i]@) =~= seenv.push(cur0));
            }
            match parent {
                None => {
                    proof {
                        self.lemma_walk_done(id, outv, seenv, cur0, cv);
                    }
                    return Ok(out);
                },
                Some(p) => {
                    if contains_string(&seen, p.as_str()) {
                        proof {
                            assert(seenv.push(cur0).contains(p@)) by {
                                let m = choose|m: int|
                                    0 <= m < seen@.len() && (#[trigger] seen@[m])@ == p@;
                                assert(seenv.push(cur0)[m] == p@);
                            }
                            self.lemma_walk_cycle(id, outv, seenv, cur0, cv, p@);
                        }
                        return Err(OxenError::Corruption(p));
                    }
                    proof {
                        assert(!seenv.push(cur0).contains(p@)) by {
                            if seenv.push(cur0).contains(p@) {
                                let m = choose|m: int|
                                    0 <= m < seenv.push(cur0).len() && seenv.push(cur0)[m] == p@;
                                assert((seen@[m])@ == p@);
                            }
                        }
                        self.lemma_walk_step(id, outv, seenv, cur0, cv, p@);
                    }
                    cur = p;
                },
            }
        }
    }
}


/// A hexadecimal digit or a hyphen, the characters of a hyphenated
/// identifier.
pub open spec fn is_uuid_char(c: char) -> bool {
    ('0' <= c && c <= '9') || ('a' <= c && c <= 'f') || c == '-'
}

/// The characters of an RFC 3339 timestamp.
pub open spec fn is_rfc3339_char(c: char) -> bool {
    ('0' <= c && c <= '9') || c == '-' || c == ':' || c == 'T' || c == '.' || c == '+' || c == 'Z'
}

/// Relies on `uuid::Uuid::new_v4` and its hyphenated lower-case rendering:
/// 36 characters of hexadecimal digits and hyphens, freshly drawn from the
/// process RNG. Nothing is promised about which value comes back.
#[verifier::external_body]
fn new_uuid_string() -> (r: String)
    ensures
        r@.len() == 36,
        forall|i: int| 0 <= i < r@.len() ==> is_uuid_char(#[trigger] r@[i]),
{
    format!("{}", uuid::Uuid::new_v4())
}

/// Relies on chrono's `Utc::now` and `DateTime::to_rfc3339`: the current
/// time, rendered with digits, separators and sign characters only.
/// Nothing is promised about which instant comes back.
#[verifier::external_body]
fn now_utc_rfc3339() -> (r: String)
    ensures
        forall|i: int| 0 <= i < r@.len() ==> is_rfc3339_char(#[trigger] r@[i]),
{
    chrono::Utc::now().to_rfc3339()
}

/// The parent the next commit will record: the current branch tip when HEAD
/// names a branch, the bare id when HEAD is detached onto a recorded
/// commit, and nothing on a fresh repository.
pub open spec fn spec_parent_of_head(refs: &RefWriter, db: &CommitDb) -> Option<Seq<char>> {
    if refs.refs().contains_key(refs.head_ref()) {
        Some(refs.refs()[refs.head_ref()])
    } else if db.store().contains_key(refs.head_ref()) {
        Some(refs.head_ref())
    } else {
        None
    }
}

/// The cross-store shape of a consistent repository: every branch tip is
/// a recorded commit, and HEAD resolves — it names a branch, or a recorded
/// commit, or the store is still empty and HEAD waits on the first commit.
pub open spec fn spec_repo_consistent(refs: &RefWriter, db: &CommitDb) -> bool {
    &&& forall|b: Seq<char>|
        refs.refs().contains_key(b) ==> db.store().contains_key(#[trigger] refs.refs()[b])
    &&& (refs.refs().contains_key(refs.head_ref()) || db.store().contains_key(refs.head_ref())
        || db.store().dom() =~= Set::<Seq<char>>::empty())
}

/// A commit keeps the repository consistent: the moved ref points at the
/// newly recorded commit, every other tip stays recorded, and HEAD still
/// resolves.
pub proof fn lemma_commit_keeps_consistency(
    old_refs: &RefWriter,
    old_db: &CommitDb,
    new_refs: &RefWriter,
    new_db: &CommitDb,
    id: Seq<char>,
    record: Seq<char>,
)
    requires
        spec_repo_consistent(old_refs, old_db),
        new_db.store() == old_db.store().insert(id, record),
        (old_refs.refs().contains_key(old_refs.head_ref()) || !old_db.store().contains_key(
            old_refs.head_ref(),
        )) ==> (new_refs.refs() == old_refs.refs().insert(old_refs.head_ref(), id)
            && new_refs.head_ref() == old_refs.head_ref()),
        (!old_refs.refs().contains_key(old_refs.head_ref()) && old_db.store().contains_key(
            old_refs.head_ref(),
        )) ==> (new_refs.refs() == old_refs.refs() && new_refs.head_ref() == id),
    ensures
        spec_repo_consistent(new_refs, new_db),
{
    assert forall|b: Seq<char>| new_refs.refs().contains_key(b) implies new_db.store().contains_key(
        #[trigger] new_refs.refs()[b],
    ) by {
        if old_refs.refs().contains_key(old_refs.head_ref()) || !old_db.store().contains_key(
            old_refs.head_ref(),
        ) {
            if b == old_refs.head_ref() {
                assert(new_refs.refs()[b] == id);
            } else {
                assert(old_refs.refs().contains_key(b));
                assert(new_refs.refs()[b] == old_refs.refs()[b]);
            }
        } else {
            assert(old_refs.refs().contains_key(b));
        }
    }
}

/// Writes commits: builds the next commit's record and entry index from the
/// staged diff, records it, and moves the current ref.
pub struct CommitWriter {
    pub commits_db: CommitDb,
    pub refs: RefWriter,
    /// The configured author, recorded in every commit.
    pub author: String,
}

impl CommitWriter {
    /// The object store directory of the repository rooted at `path`.
    pub fn versions_dir(path: &str) -> (r: String)
        ensures
            r@ == crate::paths::spec_join(
                crate::paths::spec_oxen_hidden_dir(path@),
                crate::constants::VERSIONS_DIR@,
            ),
    {
        let hidden = crate::paths::oxen_hidden_dir(path);
        crate::paths::join_path(hidden.as_str(), crate::constants::VERSIONS_DIR)
    }

    /// The commit store directory of the repository rooted at `path`.
    pub fn commit_db_dir(path: &str) -> (r: String)
        ensures
            r@ == crate::paths::spec_join(
                crate::paths::spec_oxen_hidden_dir(path@),
                crate::constants::COMMITS_DB@,
            ),
    {
        let hidden = crate::paths::oxen_hidden_dir(path);
        crate::paths::join_path(hidden.as_str(), crate::constants::COMMITS_DB)
    }

    /// Well-formedness of the underlying stores.
    pub open spec fn wf(&self) -> bool {
        self.commits_db.wf() && self.refs.wf()
    }

    /// A writer over loaded stores.
    pub fn new(commits_db: CommitDb, refs: RefWriter, author: String) -> (r: CommitWriter)
        requires
            commits_db.wf(),
            refs.wf(),
        ensures
            r.wf(),
            r.commits_db == commits_db,
            r.refs == refs,
            r.author == author,
    {
        CommitWriter { commits_db, refs, author }
    }

    /// The commit record for the next commit: the given id and message, the
    /// configured author, the current time, and the parent HEAD resolves
    /// to.
    pub fn create_commit_obj(&self, id_str: &str, message: &str) -> (r: Result<Commit, OxenError>)
        requires
            self.wf(),
        ensures
            r is Ok,
            r matches Ok(c) ==> {
                &&& c.id@ == id_str@
                &&& c.message@ == message@
                &&& c.author@ == self.author@
                &&& c@.parent_id == spec_parent_of_head(&self.refs, &self.commits_db)
                &&& forall|i: int| 0 <= i < c.date@.len() ==> is_rfc3339_char(#[trigger] c.date@[i])
            },
    {
        let head = self.refs.read_head_ref()?;
        let parent_id: Option<String> = if self.refs.has_branch(head.as_str()) {
            match self.refs.get_commit_id_for_branch(head.as_str())? {
                Some(tip) => Some(tip),
                None => None,
            }
        } else if self.commits_db.commit_id_exists(head.as_str()) {
            Some(head)
        } else {
            None
        };
        let date = now_utc_rfc3339();
        Ok(
            Commit {
                id: id_str.to_owned(),
                parent_id,
                message: message.to_owned(),
                author: self.author.clone(),
                date,
            },
        )
    }

    /// Record a commit under its id.
    pub fn add_commit(&mut self, commit: &Commit) -> (r: Result<(), OxenError>)
        requires
            old(self).wf(),
        ensures
            final(self).wf(),
            r is Ok,
            final(self).refs == old(self).refs,
            final(self).author == old(self).author,
            final(self).commits_db.store() == old(self).commits_db.store().insert(
                commit.id@,
                crate::codec::commit_json(commit@),
            ),
            final(self).commits_db.commit_at(commit.id@) == Some(commit@),
    {
        self.commits_db.add_commit(commit)
    }

    /// The commit recorded under an id.
    pub fn get_commit_by_id(&self, commit_id: &str) -> (r: Result<Option<Commit>, OxenError>)
        requires
            self.wf(),
        ensures
            !self.commits_db.store().contains_key(commit_id@) ==> (r matches Ok(o) && o is None),
            self.commits_db.commit_at(commit_id@) matches Some(cv) ==> (r matches Ok(o) && (o
                matches Some(c) && c@ == cv)),
            self.commits_db.store().contains_key(commit_id@) && self.commits_db.commit_at(
                commit_id@,
            ) is None ==> (r matches Err(e) && e is Corruption),
    {
        self.commits_db.get_commit_by_id(commit_id)
    }

    /// Create the next commit from the staged diff. Carries every parent
    /// entry not marked removed into the new index, records each staged
    /// file under its stable entry id, skips the blob copy when the content
    /// hash is unchanged from the parent, recomputes the directory
    /// aggregates, appends the commit record, and moves the current ref.
    /// The returned copies name the blobs the embedding program must place
    /// into the object store, source first. Staged directories arrive with
    /// their files already enumerated in `added_files`; `added_dirs` is the
    /// walk's bookkeeping and adds nothing here.
    #[verifier::rlimit(100)]
    #[verifier::spinoff_prover]
    pub fn commit(
        &mut self,
        status: &StagedData,
        message: &str,
        parent_index: &EntryIndex,
    ) -> (r: Result<(Commit, EntryIndex, Vec<BlobCopy>), OxenError>)
        requires
            old(self).wf(),
            parent_index.wf(),
            forall|i: int, j: int|
                0 <= i < j < status.added_files@.len() ==> (#[trigger] status.added_files@[i]).0@
                    != (#[trigger] status.added_files@[j]).0@,
        ensures
            final(self).wf(),
            final(self).author == old(self).author,
            parent_index.wf_entries() ==> r is Ok,
            r matches Err(e) ==> e is Corruption && *final(self) == *old(self),
            r matches Ok(p) ==> ({
                let c = p.0;
                let index = p.1;
                let copies = p.2;
                &&& index.wf()
                &&& c.message@ == message@
                &&& c.author@ == old(self).author@
                &&& c@.parent_id == spec_parent_of_head(&old(self).refs, &old(self).commits_db)
                &&& c.id@.len() == 36
                &&& forall|i: int| 0 <= i < c.id@.len() ==> is_uuid_char(#[trigger] c.id@[i])
                &&& forall|i: int| 0 <= i < c.date@.len() ==> is_rfc3339_char(#[trigger] c.date@[i])
                &&& final(self).commits_db.store() == old(self).commits_db.store().insert(
                    c.id@,
                    crate::codec::commit_json(c@),
                )
                &&& final(self).commits_db.commit_at(c.id@) == Some(c@)
                &&& (old(self).refs.refs().contains_key(old(self).refs.head_ref())
                    || !old(self).commits_db.store().contains_key(old(self).refs.head_ref())
                    ==> {
                    &&& final(self).refs.refs() == old(self).refs.refs().insert(
                        old(self).refs.head_ref(),
                        c.id@,
                    )
                    &&& final(self).refs.head_ref() == old(self).refs.head_ref()
                })
                &&& (!old(self).refs.refs().contains_key(old(self).refs.head_ref())
                    && old(self).commits_db.store().contains_key(old(self).refs.head_ref())
                    ==> {
                    &&& final(self).refs.refs() == old(self).refs.refs()
                    &&& final(self).refs.head_ref() == c.id@
                })
                &&& forall|q: Seq<char>|
                    #[trigger] index.files().contains_key(q) <==> ((
                    parent_index.files().contains_key(q) && !status.removed_paths().contains(q))
                        || status.staged_paths().contains(q))
                &&& forall|q: Seq<char>|
                    parent_index.files().contains_key(q) && !status.removed_paths().contains(q)
                        && !status.staged_paths().contains(q)
                        ==> #[trigger] index.files()[q] == parent_index.files()[q]
                &&& (status.added_files@.len() == 0 && status.removed_files@.len() == 0
                    ==> index.files() == parent_index.files())
                &&& forall|i: int|
                    0 <= i < status.added_files@.len() ==> ({
                        let q = (#[trigger] status.added_files@[i]).0@;
                        let se = status.added_files@[i].1;
                        &&& index.entry_at(q) matches Some(e)
                        &&& index.entry_at(q)->Some_0.path == q
                        &&& index.entry_at(q)->Some_0.hash == se@.hash
                        &&& (parent_index.entry_at(q) matches Some(pe) ==> index.entry_at(
                            q,
                        )->Some_0.id == pe.id)
                        &&& (parent_index.entry_at(q) matches Some(pe) && pe.hash == se@.hash
                            ==> index.entry_at(q) == parent_index.entry_at(q))
                        &&& (!(parent_index.entry_at(q) matches Some(pe) && pe.hash == se@.hash)
                            ==> index.entry_at(q)->Some_0.commit_id == c.id@ && exists|m: int|
                            0 <= m < copies@.len() && (#[trigger] copies@[m]).src@ == q)
                    })
                &&& forall|m: int|
                    0 <= m < copies@.len() ==> ({
                        let cp = #[trigger] copies@[m];
                        &&& status.staged_paths().contains(cp.src@)
                        &&& index.entry_at(cp.src@) matches Some(e)
                        &&& index.entry_at(cp.src@)->Some_0.commit_id == c.id@
                        &&& cp.dst@ == crate::paths::spec_version_path(
                            index.entry_at(cp.src@)->Some_0.id,
                            index.entry_at(cp.src@)->Some_0.commit_id,
                            index.entry_at(cp.src@)->Some_0.extension,
                        )
                    })
                &&& (parent_index.wf_entries() ==> index.wf_entries())
                &&& (parent_index.wf_entries() ==> crate::entries::spec_dir_stats_ok(index))
            }),
    {
        let commit_id = new_uuid_string();
        let commit = self.create_commit_obj(commit_id.as_str(), message)?;
        let mut index = EntryIndex::new();
        let mut copies: Vec<BlobCopy> = Vec::new();

        // Carry over every parent entry whose path is not marked removed.
        let parent_pairs = parent_index.file_pairs();
        let pn = parent_pairs.len();
        let mut i: usize = 0;
        while i < pn
            invariant
                i <= pn,
                index.wf(),
                pn == parent_pairs@.len(),
                parent_index.wf(),
                pn == parent_index.file_order().len(),
                forall|m: int|
                    0 <= m < pn ==> (#[trigger] parent_pairs@[m]).0@
                        == parent_index.file_order()[m] && parent_index.files().contains_pair(
                        parent_pairs@[m].0@,
                        parent_pairs@[m].1@,
                    ),
                forall|k: Seq<char>|
                    parent_index.files().contains_key(k) ==> exists|m: int|
                        0 <= m < pn && (#[trigger] parent_pairs@[m]).0@ == k,
                forall|m: int, j: int|
                    0 <= m < j < pn ==> (#[trigger] parent_pairs@[m]).0@ != (
                    #[trigger] parent_pairs@[j]).0@,
                index.dirs() == Map::<Seq<char>, Seq<char>>::empty(),
                index.schemas() == Map::<Seq<char>, Seq<char>>::empty(),
                index.synced() == Map::<Seq<char>, Seq<char>>::empty(),
                forall|q: Seq<char>|
                    #[trigger] index.files().contains_key(q) <==> (exists|m: int|
                        0 <= m < i && (#[trigger] parent_pairs@[m]).0@ == q
                            && !status.removed_paths().contains(q)),
                forall|q: Seq<char>|
                    index.files().contains_key(q) ==> #[trigger] index.files()[q]
                        == parent_index.files()[q],
            decreases pn - i,
        {
            let path = &parent_pairs[i].0;
            if !crate::chars::vec_contains_str(&status.removed_files, path.as_str()) {
                proof {
                    assert(!status.removed_paths().contains(path@));
                }
                index.add_entry_record(path.as_str(), parent_pairs[i].1.as_str())?;
            } else {
                proof {
                    assert(status.removed_paths().contains(path@));
                }
            }
            proof {
                assert forall|q: Seq<char>| #[trigger] index.files().contains_key(q) implies (
                exists|m: int|
                    0 <= m < i + 1 && (#[trigger] parent_pairs@[m]).0@ == q
                        && !status.removed_paths().contains(q)) by {}
                assert forall|q: Seq<char>|
                    (exists|m: int|
                        0 <= m < i + 1 && (#[trigger] parent_pairs@[m]).0@ == q
                            && !status.removed_paths().contains(q)) implies #[trigger] index.files().contains_key(
                    q,
                ) by {
                    let m = choose|m: int|
                        0 <= m < i + 1 && (#[trigger] parent_pairs@[m]).0@ == q
                            && !status.removed_paths().contains(q);
                    if m < i {
                    } else {
                        assert(parent_pairs@[i as int].0@ == q);
                    }
                }
            }
            i = i + 1;
        }
        let ghost carried = index.files();

        // Record each staged file, inheriting the parent's entry id at the
        // same path and skipping the blob copy when the hash is unchanged.
        let an = status.added_files.len();
        let mut j: usize = 0;
        while j < an
            invariant
                j <= an,
                index.wf(),
                an == status.added_files@.len(),
                parent_index.wf(),
                self.wf(),
                forall|a: int, b: int|
                    0 <= a < b < an ==> (#[trigger] status.added_files@[a]).0@ != (
                    #[trigger] status.added_files@[b]).0@,
                commit.id@ == commit_id@,
                index.dirs() == Map::<Seq<char>, Seq<char>>::empty(),
                index.schemas() == Map::<Seq<char>, Seq<char>>::empty(),
                index.synced() == Map::<Seq<char>, Seq<char>>::empty(),
                commit_stage_inv(index, copies@, *parent_index, *status, j as int, carried, commit@),
            decreases an - j,
        {
            commit_stage_step(
                &mut index,
                &mut copies,
                parent_index,
                status,
                j,
                &commit_id,
                Ghost(carried),
                Ghost(commit@),
            )?;
            j = j + 1;
        }

        proof {
            if parent_index.wf_entries() {
                assert forall|q: Seq<char>| index.files().contains_key(q) implies ((
                #[trigger] index.entry_at(q)) matches Some(e) && e.path == q) by {
                    if status.staged_paths().contains(q) {
                        let m = choose|m: int|
                            0 <= m < status.added_files@.len()
                                && (#[trigger] status.added_files@[m]).0@ == q;
                    } else {
                        if !carried.contains_key(q) {
                            let m = choose|m: int|
                                0 <= m < status.added_files@.len()
                                    && (#[trigger] status.added_files@[m]).0@ == q;
                        }
                        assert(index.files()[q] == parent_index.files()[q]);
                        assert(parent_index.files().contains_key(q));
                        assert(parent_index.entry_at(q) matches Some(pe) && pe.path == q);
                    }
                }
            }
        }
        // Recompute the directory aggregates of the new index before any
        // record of the commit exists.
        index.rebuild_dir_stats()?;

        // Record the commit and move the current ref: through the current
        // branch when HEAD names one (creating it on the first commit), or
        // by moving HEAD alone when it is detached onto a recorded commit.
        let head_ref = self.refs.read_head_ref()?;
        let detached = !self.refs.has_branch(head_ref.as_str())
            && self.commits_db.commit_id_exists(head_ref.as_str());
        self.commits_db.add_commit(&commit)?;
        if detached {
            self.refs.set_head(commit.id.as_str());
        } else {
            self.refs.set_branch_commit_id(head_ref.as_str(), commit.id.as_str())?;
        }
        proof {
            assert forall|m: int|
                0 <= m < copies@.len() implies status.staged_paths().contains(
                (#[trigger] copies@[m]).src@,
            ) by {
                let a = choose|a: int|
                    0 <= a < an && (#[trigger] copies@[m]).src@ == (
                    #[trigger] status.added_files@[a]).0@;
                assert(status.added_files@[a].0@ == copies@[m].src@);
            }
            assert forall|q: Seq<char>|
                #[trigger] index.files().contains_key(q) <==> ((parent_index.files().contains_key(
                q,
            ) && !status.removed_paths().contains(q)) || status.staged_paths().contains(q)) by {
                if index.files().contains_key(q) {
                    if carried.contains_key(q) {
                    }
                }
                if parent_index.files().contains_key(q) && !status.removed_paths().contains(q) {
                    let m = choose|m: int|
                        0 <= m < parent_pairs@.len() && (#[trigger] parent_pairs@[m]).0@ == q;
                    assert(carried.contains_key(q));
                }
            }
            if status.added_files@.len() == 0 && status.removed_files@.len() == 0 {
                assert forall|q: Seq<char>| !status.removed_paths().contains(q) by {
                    if status.removed_paths().contains(q) {
                        let m = choose|m: int|
                            0 <= m < status.removed_files@.len()
                                && (#[trigger] status.removed_files@[m])@ == q;
                    }
                }
                assert forall|q: Seq<char>| !status.staged_paths().contains(q) by {
                    if status.staged_paths().contains(q) {
                        let m = choose|m: int|
                            0 <= m < status.added_files@.len()
                                && (#[trigger] status.added_files@[m]).0@ == q;
                    }
                }
                assert(index.files() =~= parent_index.files());
            }
        }
        Ok((commit, index, copies))
    }

    /// Reconcile the working tree with a commit named by id; the embedding
    /// program supplies the tracked paths, the target index and the tree
    /// snapshot, and executes the returned plan.
    pub fn set_working_repo_to_commit_id(
        &self,
        commit_id: &str,
        head_commit_id: &str,
        head_files: &Vec<String>,
        target: &EntryIndex,
        tree: &Vec<(String, String)>,
    ) -> (r: Result<crate::checkout::CheckoutPlan, OxenError>)
        requires
            self.wf(),
            target.wf(),
            forall|ti: int, tj: int|
                0 <= ti < tj < tree@.len() ==> (#[trigger] tree@[ti]).0@ != (
                #[trigger] tree@[tj]).0@,
        ensures
            !self.commits_db.store().contains_key(commit_id@) <==> (r matches Err(e)
                && e is NotFound),
            head_commit_id@ == commit_id@ ==> (r matches Ok(plan) ==> plan.remove_files@.len()
                == 0 && plan.restores@.len() == 0 && plan.remove_dirs@.len() == 0),
            head_commit_id@ != commit_id@ ==> (r matches Ok(plan)
                ==> crate::checkout::spec_plan_ok(&plan, head_files@, *target, tree@)),
            self.commits_db.store().contains_key(commit_id@) && target.wf_entries() ==> r is Ok,
            r matches Err(e) ==> e is NotFound || e is Corruption,
    {
        crate::checkout::set_working_repo_to_commit_id(
            &self.commits_db,
            head_commit_id,
            commit_id,
            head_files,
            target,
            tree,
        )
    }

    /// Reconcile the working tree with a branch's tip; fails when the
    /// branch does not exist.
    pub fn set_working_repo_to_branch(
        &self,
        name: &str,
        head_commit_id: &str,
        head_files: &Vec<String>,
        target: &EntryIndex,
        tree: &Vec<(String, String)>,
    ) -> (r: Result<crate::checkout::CheckoutPlan, OxenError>)
        requires
            self.wf(),
            target.wf(),
            forall|ti: int, tj: int|
                0 <= ti < tj < tree@.len() ==> (#[trigger] tree@[ti]).0@ != (
                #[trigger] tree@[tj]).0@,
        ensures
            !self.refs.refs().contains_key(name@) ==> (r matches Err(e) && e is NotFound),
            self.refs.refs().contains_key(name@) ==> ({
                let tip = self.refs.refs()[name@];
                &&& (!self.commits_db.store().contains_key(tip) <==> (r matches Err(e)
                    && e is NotFound))
                &&& (head_commit_id@ == tip ==> (r matches Ok(plan) ==> plan.remove_files@.len()
                    == 0 && plan.restores@.len() == 0 && plan.remove_dirs@.len() == 0))
                &&& (head_commit_id@ != tip ==> (r matches Ok(plan)
                    ==> crate::checkout::spec_plan_ok(&plan, head_files@, *target, tree@)))
                &&& (self.commits_db.store().contains_key(tip) && target.wf_entries()
                    ==> r is Ok)
            }),
            r matches Err(e) ==> e is NotFound || e is Corruption,
    {
        match self.refs.get_commit_id_for_branch(name)? {
            Some(commit_id) => self.set_working_repo_to_commit_id(
                commit_id.as_str(),
                head_commit_id,
                head_files,
                target,
                tree,
            ),
            None => Err(OxenError::NotFound(name.to_owned())),
        }
    }
}

/// The invariant of the staged-file pass of a commit, after the first `j`
/// staged files have been recorded: membership of the new index, carried
/// records untouched, each processed staged file recorded under its stable
/// id, and every queued copy naming a recorded version path.
pub open spec fn commit_stage_inv(
    index: EntryIndex,
    copies: Seq<crate::model::BlobCopy>,
    parent_index: EntryIndex,
    status: StagedData,
    j: int,
    carried: Map<Seq<char>, Seq<char>>,
    commitv: CommitV,
) -> bool {
    &&& forall|q: Seq<char>|
        #[trigger] index.files().contains_key(q) <==> (carried.contains_key(q) || exists|m: int|
            0 <= m < j && (#[trigger] status.added_files@[m]).0@ == q)
    &&& forall|q: Seq<char>|
        carried.contains_key(q) && !(exists|m: int|
            0 <= m < j && (#[trigger] status.added_files@[m]).0@ == q)
            ==> #[trigger] index.files()[q] == carried[q]
    &&& forall|m: int|
        0 <= m < j ==> ({
            let q = (#[trigger] status.added_files@[m]).0@;
            let se = status.added_files@[m].1;
            &&& index.entry_at(q) matches Some(e)
            &&& index.entry_at(q)->Some_0.path == q
            &&& index.entry_at(q)->Some_0.hash == se@.hash
            &&& (parent_index.entry_at(q) matches Some(pe) ==> index.entry_at(q)->Some_0.id
                == pe.id)
            &&& (parent_index.entry_at(q) matches Some(pe) && pe.hash == se@.hash
                ==> index.entry_at(q) == parent_index.entry_at(q))
            &&& (!(parent_index.entry_at(q) matches Some(pe) && pe.hash == se@.hash)
                ==> index.entry_at(q)->Some_0.commit_id == commitv.id && exists|c: int|
                0 <= c < copies.len() && (#[trigger] copies[c]).src@ == q)
        })
    &&& forall|m: int|
        0 <= m < copies.len() ==> exists|a: int|
            0 <= a < j && (#[trigger] copies[m]).src@ == (#[trigger] status.added_files@[a]).0@
    &&& forall|m: int|
        0 <= m < copies.len() ==> ({
            let cp = #[trigger] copies[m];
            &&& index.entry_at(cp.src@) matches Some(e)
            &&& index.entry_at(cp.src@)->Some_0.commit_id == commitv.id
            &&& cp.dst@ == crate::paths::spec_version_path(
                index.entry_at(cp.src@)->Some_0.id,
                index.entry_at(cp.src@)->Some_0.commit_id,
                index.entry_at(cp.src@)->Some_0.extension,
            )
        })
}

/// Record one staged file into the index being built: inherit the parent's
/// entry id at the path, keep the parent record when the hash is unchanged,
/// and otherwise queue a blob copy to the new version path.
#[verifier::rlimit(100)]
#[verifier::spinoff_prover]
fn commit_stage_step(
    index: &mut EntryIndex,
    copies: &mut Vec<crate::model::BlobCopy>,
    parent_index: &EntryIndex,
    status: &StagedData,
    j: usize,
    commit_id: &String,
    Ghost(carried): Ghost<Map<Seq<char>, Seq<char>>>,
    Ghost(commitv): Ghost<CommitV>,
) -> (r: Result<(), OxenError>)
    requires
        old(index).wf(),
        parent_index.wf(),
        j < status.added_files@.len(),
        forall|a: int, b: int|
            0 <= a < b < status.added_files@.len() ==> (#[trigger] status.added_files@[a]).0@ != (
            #[trigger] status.added_files@[b]).0@,
        commitv.id == commit_id@,
        commit_stage_inv(*old(index), old(copies)@, *parent_index, *status, j as int, carried, commitv),
    ensures
        final(index).wf(),
        final(index).dirs() == old(index).dirs(),
        final(index).schemas() == old(index).schemas(),
        final(index).synced() == old(index).synced(),
        r is Ok ==> commit_stage_inv(
            *final(index),
            final(copies)@,
            *parent_index,
            *status,
            j + 1,
            carried,
            commitv,
        ),
        r matches Err(e) ==> e is Corruption,
        parent_index.wf_entries() ==> r is Ok,
{
    let ghost index0 = *index;
    let ghost copies0 = copies@;
    let path = status.added_files[j].0.clone();
    let staged = &status.added_files[j].1;
    let ghost q = status.added_files@[j as int].0@;
    let parent_entry = parent_index.get_entry(path.as_str())?;
    let entry = match parent_entry {
        Some(pe) => {
            if !crate::chars::str_eq(pe.path.as_str(), path.as_str()) {
                // The parent record does not name the path it is stored
                // under.
                proof {
                    if parent_index.wf_entries() {
                        assert(parent_index.entry_at(q) matches Some(x) && x.path == q);
                    }
                }
                return Err(OxenError::Corruption(path));
            }
            if crate::chars::str_eq(pe.hash.as_str(), staged.hash.as_str()) {
                // Unchanged content: reuse the parent record, no copy.
                pe
            } else {
                let e = CommitEntry {
                    id: pe.id.clone(),
                    path: path.clone(),
                    hash: staged.hash.clone(),
                    commit_id: commit_id.clone(),
                    extension: staged.extension.clone(),
                    num_bytes: staged.num_bytes,
                    last_modified_seconds: staged.last_modified_seconds,
                    last_modified_nanoseconds: staged.last_modified_nanoseconds,
                };
                let dst = crate::paths::version_path(
                    e.id.as_str(),
                    e.commit_id.as_str(),
                    e.extension.as_str(),
                );
                copies.push(crate::model::BlobCopy { src: path.clone(), dst });
                e
            }
        },
        None => {
            let fresh_id = new_uuid_string();
            let e = CommitEntry {
                id: fresh_id,
                path: path.clone(),
                hash: staged.hash.clone(),
                commit_id: commit_id.clone(),
                extension: staged.extension.clone(),
                num_bytes: staged.num_bytes,
                last_modified_seconds: staged.last_modified_seconds,
                last_modified_nanoseconds: staged.last_modified_nanoseconds,
            };
            let dst = crate::paths::version_path(
                e.id.as_str(),
                e.commit_id.as_str(),
                e.extension.as_str(),
            );
            copies.push(crate::model::BlobCopy { src: path.clone(), dst });
            e
        },
    };
    let ghost ev = entry@;
    proof {
        assert(ev.path == q);
    }
    index.add_entry(&entry)?;
    proof {
        assert(index.entry_at(q) == Some(ev));
        assert forall|qq: Seq<char>|
            #[trigger] index.files().contains_key(qq) <==> (carried.contains_key(qq) || exists|
            m: int,
        |
            0 <= m < j + 1 && (#[trigger] status.added_files@[m]).0@ == qq) by {
            if index.files().contains_key(qq) {
                if qq != q {
                    assert(index0.files().contains_key(qq));
                } else {
                    assert(status.added_files@[j as int].0@ == qq);
                }
            }
            if carried.contains_key(qq) || (exists|m: int|
                0 <= m < j + 1 && (#[trigger] status.added_files@[m]).0@ == qq) {
                if qq != q {
                    assert(index0.files().contains_key(qq) || carried.contains_key(qq) || (exists|
                    m: int,
                    |
                        0 <= m < j && (#[trigger] status.added_files@[m]).0@ == qq));
                }
            }
        }
        assert forall|m: int| 0 <= m < j + 1 implies ({
            let qq = (#[trigger] status.added_files@[m]).0@;
            let se = status.added_files@[m].1;
            &&& index.entry_at(qq) matches Some(e)
            &&& index.entry_at(qq)->Some_0.path == qq
            &&& index.entry_at(qq)->Some_0.hash == se@.hash
            &&& (parent_index.entry_at(qq) matches Some(pe) ==> index.entry_at(qq)->Some_0.id
                == pe.id)
            &&& (parent_index.entry_at(qq) matches Some(pe) && pe.hash == se@.hash
                ==> index.entry_at(qq) == parent_index.entry_at(qq))
            &&& (!(parent_index.entry_at(qq) matches Some(pe) && pe.hash == se@.hash)
                ==> index.entry_at(qq)->Some_0.commit_id == commitv.id && exists|c: int|
                0 <= c < copies@.len() && (#[trigger] copies@[c]).src@ == qq)
        }) by {
            let qq = status.added_files@[m].0@;
            if m < j {
                assert(qq != q);
                assert(index.entry_at(qq) == index0.entry_at(qq));
                if !(parent_index.entry_at(qq) matches Some(pe) && pe.hash
                    == status.added_files@[m].1@.hash) {
                    let c = choose|c: int|
                        0 <= c < copies0.len() && (#[trigger] copies0[c]).src@ == qq;
                    assert(copies@[c].src@ == qq);
                }
            } else {
                if !(parent_index.entry_at(qq) matches Some(pe) && pe.hash
                    == status.added_files@[m].1@.hash) {
                    assert(copies@[copies@.len() - 1].src@ == qq);
                }
            }
        }
        assert forall|m: int| 0 <= m < copies@.len() implies exists|a: int|
            0 <= a < j + 1 && (#[trigger] copies@[m]).src@ == (
            #[trigger] status.added_files@[a]).0@ by {
            if m < copies0.len() {
                let a = choose|a: int|
                    0 <= a < j && (#[trigger] copies0[m]).src@ == (
                    #[trigger] status.added_files@[a]).0@;
                assert(copies@[m] == copies0[m]);
                assert(copies@[m].src@ == status.added_files@[a].0@);
            } else {
                assert(copies@[m].src@ == q);
                assert(copies@[m].src@ == status.added_files@[j as int].0@);
            }
        }
        assert forall|m: int| 0 <= m < copies@.len() implies ({
            let cp = #[trigger] copies@[m];
            &&& index.entry_at(cp.src@) matches Some(e)
            &&& index.entry_at(cp.src@)->Some_0.commit_id == commitv.id
            &&& cp.dst@ == crate::paths::spec_version_path(
                index.entry_at(cp.src@)->Some_0.id,
                index.entry_at(cp.src@)->Some_0.commit_id,
                index.entry_at(cp.src@)->Some_0.extension,
            )
        }) by {
            if m < copies0.len() {
                assert(copies@[m] == copies0[m]);
                let a = choose|a: int|
                    0 <= a < j && (#[trigger] copies0[m]).src@ == (
                    #[trigger] status.added_files@[a]).0@;
                assert(copies0[m].src@ != q);
                assert(index.entry_at(copies0[m].src@) == index0.entry_at(copies0[m].src@));
            } else {
                assert(copies@[m].src@ == q);
            }
        }
    }
    Ok(())
}

/// Does the vector hold a string with this text?
fn contains_string(v: &Vec<String>, s: &str) -> (r: bool)
    ensures
        r == exists|m: int| 0 <= m < v@.len() && (#[trigger] v@[m])@ == s@,
{
    let n = v.len();
    let mut i: usize = 0;
    while i < n
        invariant
            i <= n,
            n == v@.len(),
            forall|m: int| 0 <= m < i ==> (#[trigger] v@[m])@ != s@,
        decreases n - i,
    {
        if str_eq(v[i].as_str(), s) {
            return true;
        }
        i = i + 1;
    }
    false
}

/// A duplicate-free sequence drawn from a finite set is no longer than the
/// set.
pub proof fn lemma_distinct_seq_in_set(s: Seq<Seq<char>>, dom: Set<Seq<char>>)
    requires
        dom.finite(),
        forall|i: int| 0 <= i < s.len() ==> dom.contains(#[trigger] s[i]),
        forall|i: int, j: int| 0 <= i < j < s.len() ==> s[i] != s[j],
    ensures
        s.len() <= dom.len(),
    decreases s.len(),
{
    if s.len() > 0 {
        let last = s.last();
        let rest = s.drop_last();
        let dom2 = dom.remove(last);
        assert(forall|i: int| 0 <= i < rest.len() ==> rest[i] == s[i]);
        assert(forall|i: int| 0 <= i < rest.len() ==> #[trigger] rest[i] != last);
        assert(forall|i: int| 0 <= i < rest.len() ==> dom2.contains(#[trigger] rest[i]));
        lemma_distinct_seq_in_set(rest, dom2);
        assert(dom2.len() == dom.len() - 1);
    }
}

} // verus!
