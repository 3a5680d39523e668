//! The per-commit entry index: paths mapped to serialized commit entries,
//! with the parallel stores for directory aggregates, schemas, and the
//! synced-set used to answer which entries still await transfer.
use vstd::prelude::*;
use vstd::string::StrSliceExecFns;
use crate::chars::str_chars;
use crate::chars::str_eq;
use crate::codec::dir_stat_from_json;
use crate::codec::dir_stat_of_json;
use crate::codec::dir_stat_to_json;
use crate::codec::entry_from_json;
use crate::codec::entry_json;
use crate::codec::entry_of_json;
use crate::codec::entry_to_json;
use crate::codec::lemma_entry_json_roundtrip;
use crate::codec::schema_from_json;
use crate::codec::schema_of_json;
use crate::codec::schema_to_json;
use crate::error::OxenError;
use crate::model::CommitEntry;
use crate::model::CommitEntryV;
use crate::model::DirStat;
use crate::model::Schema;
use crate::strmap::StrMap;

verus! {

/// Does path `p` lie under directory `dir`? The empty directory name means
/// the whole tree.
pub open spec fn spec_in_dir(p: Seq<char>, dir: Seq<char>) -> bool {
    if dir.len() == 0 {
        true
    } else {
        crate::json::starts_with(p, dir + seq!['/'])
    }
}

/// Decide whether `p` lies under `dir`.
pub fn in_dir(p: &str, dir: &str) -> (r: bool)
    ensures
        r == spec_in_dir(p@, dir@),
{
    let dn = dir.unicode_len();
    if dn == 0 {
        return true;
    }
    let pc = str_chars(p);
    let dc = str_chars(dir);
    let ghost want = dir@ + seq!['/'];
    if pc.len() <= dn {
        proof {
            assert(!crate::json::starts_with(p@, want));
        }
        return false;
    }
    let mut i: usize = 0;
    while i < dn
        invariant
            i <= dn,
            dn == dir@.len(),
            pc@ == p@,
            dc@ == dir@,
            want == dir@ + seq!['/'],
            dn + 1 <= pc@.len(),
            forall|m: int| 0 <= m < i ==> p@[m] == dir@[m],
        decreases dn - i,
    {
        if pc[i] != dc[i] {
            proof {
                assert(p@.take(want.len() as int)[i as int] == p@[i as int]);
                assert(want[i as int] == dir@[i as int]);
                assert(!crate::json::starts_with(p@, want));
            }
            return false;
        }
        i = i + 1;
    }
    let sep = pc[dn];
    if sep != '/' {
        proof {
            assert(p@.take(want.len() as int)[dn as int] == p@[dn as int]);
            assert(want[dn as int] == '/');
            assert(!crate::json::starts_with(p@, want));
        }
        return false;
    }
    proof {
        assert forall|m: int| 0 <= m < want.len() implies p@.take(want.len() as int)[m] == want[m]
            by {
            if m < dn {
                assert(want[m] == dir@[m]);
            } else {
                assert(want[m] == '/');
            }
        }
        assert(p@.take(want.len() as int) =~= want);
    }
    true
}

/// The entry index of one commit.
pub struct EntryIndex {
    files: StrMap,
    dirs: StrMap,
    schemas: StrMap,
    synced: StrMap,
}

impl EntryIndex {
    /// Well-formedness of the underlying stores.
    pub closed spec fn wf(&self) -> bool {
        &&& self.files.wf()
        &&& self.dirs.wf()
        &&& self.schemas.wf()
        &&& self.synced.wf()
    }

    /// The file store: path to serialized entry.
    pub closed spec fn files(&self) -> Map<Seq<char>, Seq<char>> {
        self.files@
    }

    /// The directory store: directory to serialized aggregate.
    pub closed spec fn dirs(&self) -> Map<Seq<char>, Seq<char>> {
        self.dirs@
    }

    /// The schema store: schema hash to serialized schema.
    pub closed spec fn schemas(&self) -> Map<Seq<char>, Seq<char>> {
        self.schemas@
    }

    /// The paths whose blob has been transferred.
    pub closed spec fn synced(&self) -> Map<Seq<char>, Seq<char>> {
        self.synced@
    }

    /// The paths of the file store, in store order.
    pub closed spec fn file_order(&self) -> Seq<Seq<char>> {
        self.files.key_order()
    }

    /// The entry recorded at `path`, if one is recorded and reads back.
    pub open spec fn entry_at(&self, path: Seq<char>) -> Option<CommitEntryV> {
        if self.files().contains_key(path) {
            entry_of_json(self.files()[path])
        } else {
            None
        }
    }

    /// Every record reads back and names the path it is stored under.
    pub open spec fn wf_entries(&self) -> bool {
        forall|p: Seq<char>|
            self.files().contains_key(p) ==> ((#[trigger] self.entry_at(p)) matches Some(e)
                && e.path == p)
    }

    /// Every schema record reads back.
    pub open spec fn wf_schemas(&self) -> bool {
        forall|k: Seq<char>|
            self.schemas().contains_key(k) ==> schema_of_json(
                #[trigger] self.schemas()[k],
            ) is Some
    }

    /// An empty index.
    pub fn new() -> (r: EntryIndex)
        ensures
            r.wf(),
            r.files() == Map::<Seq<char>, Seq<char>>::empty(),
            r.dirs() == Map::<Seq<char>, Seq<char>>::empty(),
            r.schemas() == Map::<Seq<char>, Seq<char>>::empty(),
            r.synced() == Map::<Seq<char>, Seq<char>>::empty(),
            r.wf_entries(),
    {
        EntryIndex {
            files: StrMap::new(),
            dirs: StrMap::new(),
            schemas: StrMap::new(),
            synced: StrMap::new(),
        }
    }

    /// An index over loaded stores.
    pub fn from_parts(files: StrMap, dirs: StrMap, schemas: StrMap, synced: StrMap) -> (r:
        EntryIndex)
        requires
            files.wf(),
            dirs.wf(),
            schemas.wf(),
            synced.wf(),
        ensures
            r.wf(),
            r.files() == files@,
            r.dirs() == dirs@,
            r.schemas() == schemas@,
            r.synced() == synced@,
    {
        EntryIndex { files, dirs, schemas, synced }
    }

    /// Record an entry under its path.
    pub fn add_entry(&mut self, e: &CommitEntry) -> (r: Result<(), OxenError>)
        requires
            old(self).wf(),
        ensures
            final(self).wf(),
            r is Ok,
            final(self).files() == old(self).files().insert(e.path@, entry_json(e@)),
            final(self).entry_at(e.path@) == Some(e@),
            final(self).dirs() == old(self).dirs(),
            final(self).schemas() == old(self).schemas(),
            final(self).synced() == old(self).synced(),
            old(self).wf_entries() ==> final(self).wf_entries(),
    {
        let text = entry_to_json(e);
        self.files.insert(e.path.clone(), text);
        proof {
            lemma_entry_json_roundtrip(e@);
            if old(self).wf_entries() {
                assert forall|p: Seq<char>| self.files().contains_key(p) implies (
                #[trigger] self.entry_at(p)) matches Some(en) && en.path == p by {
                    if p != e.path@ {
                        assert(old(self).files().contains_key(p));
                        assert(old(self).entry_at(p) == self.entry_at(p));
                    }
                }
            }
        }
        Ok(())
    }

    /// Copy a serialized record under a path unchanged, as when a parent
    /// commit's version of a path is carried into a new commit.
    pub fn add_entry_record(&mut self, path: &str, record: &str) -> (r: Result<(), OxenError>)
        requires
            old(self).wf(),
        ensures
            final(self).wf(),
            r is Ok,
            final(self).files() == old(self).files().insert(path@, record@),
            final(self).dirs() == old(self).dirs(),
            final(self).schemas() == old(self).schemas(),
            final(self).synced() == old(self).synced(),
    {
        self.files.insert(path.to_owned(), record.to_owned());
        Ok(())
    }

    /// Is a record stored under this path?
    pub fn has_file(&self, path: &str) -> (r: bool)
        requires
            self.wf(),
        ensures
            r == self.files().contains_key(path@),
    {
        self.files.contains_key(path)
    }

    /// The entry at `path`: `None` when the path is unknown, an error when
    /// the record does not read back.
    pub fn get_entry(&self, path: &str) -> (r: Result<Option<CommitEntry>, OxenError>)
        requires
            self.wf(),
        ensures
            !self.files().contains_key(path@) ==> (r matches Ok(o) && o is None),
            self.entry_at(path@) matches Some(ev) ==> (r matches Ok(o) && (o matches Some(e) && e@
                == ev)),
            self.files().contains_key(path@) && self.entry_at(path@) is None ==> (r matches Err(e)
                && e is Corruption),
    {
        match self.files.get(path) {
            None => Ok(None),
            Some(text) => match entry_from_json(text.as_str()) {
                Some(e) => Ok(Some(e)),
                None => Err(OxenError::Corruption(path.to_owned())),
            },
        }
    }

    /// Every entry of the index, in store order. Fails when a record does
    /// not read back.
    pub fn list_entries(&self) -> (r: Result<Vec<CommitEntry>, OxenError>)
        requires
            self.wf(),
        ensures
            r matches Ok(v) ==> {
                &&& v@.len() == self.file_order().len()
                &&& v@.len() == self.files().dom().len()
                &&& forall|i: int|
                    0 <= i < v@.len() ==> self.files().contains_key(#[trigger] self.file_order()[i])
                        && entry_of_json(self.files()[self.file_order()[i]]) == Some(v@[i]@)
            },
            self.wf_entries() ==> r is Ok,
            self.wf_entries() ==> (r matches Ok(v) ==> forall|i: int|
                0 <= i < v@.len() ==> (#[trigger] v@[i])@.path == self.file_order()[i]),
            r matches Err(e) ==> e is Corruption,
    {
        proof {
            self.files.lemma_key_order();
        }
        let pairs = self.files.pairs();
        let mut out: Vec<CommitEntry> = Vec::new();
        let n = pairs.len();
        let mut i: usize = 0;
        while i < n
            invariant
                self.wf(),
                i <= n,
                n == pairs@.len(),
                n == self.file_order().len(),
                forall|m: int|
                    0 <= m < n ==> (#[trigger] pairs@[m]).0@ == self.file_order()[m]
                        && self.files().contains_pair(pairs@[m].0@, pairs@[m].1@),
                out@.len() == i,
                forall|m: int|
                    0 <= m < i ==> self.files().contains_key(#[trigger] self.file_order()[m])
                        && entry_of_json(self.files()[self.file_order()[m]]) == Some(out@[m]@),
            decreases n - i,
        {
            match entry_from_json(pairs[i].1.as_str()) {
                Some(e) => {
                    out.push(e);
                },
                None => {
                    proof {
                        if self.wf_entries() {
                            assert(self.entry_at(pairs@[i as int].0@) matches Some(en));
                        }
                    }
                    return Err(OxenError::Corruption(pairs[i].0.clone()));
                },
            }
            i = i + 1;
        }
        proof {
            if self.wf_entries() {
                assert forall|m: int| 0 <= m < out@.len() implies (#[trigger] out@[m])@.path
                    == self.file_order()[m] by {
                    assert(self.entry_at(self.file_order()[m]) matches Some(en) && en.path
                        == self.file_order()[m]);
                }
            }
        }
        Ok(out)
    }

    /// Every path of the index, in store order.
    pub fn list_files(&self) -> (r: Vec<String>)
        requires
            self.wf(),
        ensures
            r@.len() == self.file_order().len(),
            forall|i: int| 0 <= i < r@.len() ==> (#[trigger] r@[i])@ == self.file_order()[i],
            forall|i: int| 0 <= i < r@.len() ==> self.files().contains_key((#[trigger] r@[i])@),
            forall|p: Seq<char>|
                self.files().contains_key(p) ==> exists|i: int|
                    0 <= i < r@.len() && (#[trigger] r@[i])@ == p,
    {
        proof {
            self.files.lemma_key_order();
        }
        let pairs = self.files.pairs();
        let mut out: Vec<String> = Vec::new();
        let n = pairs.len();
        let mut i: usize = 0;
        while i < n
            invariant
                i <= n,
                n == pairs@.len(),
                forall|m: int| 0 <= m < n ==> (#[trigger] pairs@[m]).0@ == self.file_order()[m],
                out@.len() == i,
                forall|m: int| 0 <= m < i ==> (#[trigger] out@[m])@ == self.file_order()[m],
            decreases n - i,
        {
            let k = pairs[i].0.clone();
            out.push(k);
            i = i + 1;
        }
        proof {
            self.files.lemma_key_order();
            assert forall|p: Seq<char>| self.files().contains_key(p) implies exists|i: int|
                0 <= i < out@.len() && (#[trigger] out@[i])@ == p by {
                let i = choose|i: int|
                    0 <= i < self.file_order().len() && #[trigger] self.file_order()[i] == p;
                assert(out@[i]@ == p);
            }
        }
        out
    }

    /// The stored (path, record) pairs, in store order.
    pub fn file_pairs(&self) -> (r: Vec<(String, String)>)
        requires
            self.wf(),
        ensures
            r@.len() == self.file_order().len(),
            r@.len() == self.files().dom().len(),
            forall|i: int| 0 <= i < r@.len() ==> (#[trigger] r@[i]).0@ == self.file_order()[i],
            forall|i: int|
                0 <= i < r@.len() ==> self.files().contains_pair((#[trigger] r@[i]).0@, r@[i].1@),
            forall|k: Seq<char>|
                self.files().contains_key(k) ==> exists|i: int|
                    0 <= i < r@.len() && (#[trigger] r@[i]).0@ == k,
            forall|i: int, j: int|
                0 <= i < j < r@.len() ==> (#[trigger] r@[i]).0@ != (#[trigger] r@[j]).0@,
    {
        proof {
            self.files.lemma_key_order();
        }
        self.files.pairs()
    }

    /// Mark a path's blob as transferred.
    pub fn mark_synced(&mut self, path: &str)
        requires
            old(self).wf(),
        ensures
            final(self).wf(),
            final(self).synced() == old(self).synced().insert(path@, Seq::<char>::empty()),
            final(self).files() == old(self).files(),
            final(self).wf_entries() == old(self).wf_entries(),
    {
        let empty: Vec<char> = Vec::new();
        self.synced.insert(path.to_owned(), crate::chars::chars_to_string(&empty));
        proof {
            lemma_wf_entries_same(old(self), self);
        }
    }

    /// The entries whose blob has not been transferred yet: those whose
    /// path is not in the synced set.
    pub fn list_unsynced_entries(&self) -> (r: Result<Vec<CommitEntry>, OxenError>)
        requires
            self.wf(),
        ensures
            r matches Ok(v) ==> {
                &&& forall|i: int|
                    0 <= i < v@.len() ==> self.files().contains_key((#[trigger] v@[i])@.path)
                        && !self.synced().contains_key(v@[i]@.path)
                &&& forall|i: int|
                    0 <= i < v@.len() ==> self.entry_at((#[trigger] v@[i])@.path) == Some(v@[i]@)
            },
            self.wf_entries() ==> r is Ok,
            self.wf_entries() ==> (r matches Ok(v) ==> forall|p: Seq<char>|
                self.files().contains_key(p) && !self.synced().contains_key(p) ==> exists|i: int|
                    0 <= i < v@.len() && (#[trigger] v@[i])@.path == p),
    {
        let all = self.list_entries()?;
        let mut out: Vec<CommitEntry> = Vec::new();
        let n = all.len();
        let mut i: usize = 0;
        while i < n
            invariant
                self.wf(),
                i <= n,
                n == all@.len(),
                n == self.file_order().len(),
                forall|m: int|
                    0 <= m < n ==> self.files().contains_key(#[trigger] self.file_order()[m])
                        && entry_of_json(self.files()[self.file_order()[m]]) == Some(all@[m]@),
                self.wf_entries() ==> forall|m: int|
                    0 <= m < n ==> (#[trigger] all@[m])@.path == self.file_order()[m],
                forall|m: int|
                    0 <= m < out@.len() ==> self.files().contains_key((#[trigger] out@[m])@.path)
                        && !self.synced().contains_key(out@[m]@.path) && self.entry_at(
                        out@[m]@.path,
                    ) == Some(out@[m]@),
                self.wf_entries() ==> forall|m: int|
                    0 <= m < i ==> (self.synced().contains_key((#[trigger] all@[m])@.path)
                        || exists|j: int|
                        0 <= j < out@.len() && (#[trigger] out@[j])@.path == all@[m]@.path),
            decreases n - i,
        {
            let ghost out0 = out@;
            let e = &all[i];
            let is_synced = self.synced.contains_key(e.path.as_str());
            if !is_synced {
                if self.wf_entries_check(e) {
                    let copy = e.clone_entry();
                    out.push(copy);
                    proof {
                        assert(out@[out@.len() - 1]@.path == all@[i as int]@.path);
                    }
                } else {
                    return Err(OxenError::Corruption(e.path.clone()));
                }
            }
            proof {
                if self.wf_entries() {
                    assert forall|m: int|
                        0 <= m < i + 1 implies (self.synced().contains_key(
                        (#[trigger] all@[m])@.path,
                    ) || exists|j: int|
                        0 <= j < out@.len() && (#[trigger] out@[j])@.path == all@[m]@.path) by {
                        if m < i {
                            if !self.synced().contains_key(all@[m]@.path) {
                                let j = choose|j: int|
                                    0 <= j < out0.len() && (#[trigger] out0[j])@.path
                                        == all@[m]@.path;
                                assert(out@[j] == out0[j]);
                                assert(out@[j]@.path == all@[m]@.path);
                            }
                        } else {
                            if is_synced {
                                assert(self.synced().contains_key(all@[i as int]@.path));
                            } else {
                                assert(out@[out@.len() - 1]@.path == all@[m]@.path);
                            }
                        }
                    }
                }
            }
            i = i + 1;
        }
        proof {
            if self.wf_entries() {
                self.files.lemma_key_order();
                assert forall|p: Seq<char>|
                    self.files().contains_key(p) && !self.synced().contains_key(p) implies exists|
                    i: int,
                |
                    0 <= i < out@.len() && (#[trigger] out@[i])@.path == p by {
                    let m = choose|m: int|
                        0 <= m < self.file_order().len() && #[trigger] self.file_order()[m] == p;
                    assert(all@[m]@.path == p);
                    assert(!self.synced().contains_key(all@[m]@.path));
                }
            }
        }
        Ok(out)
    }

    /// Does the record at this entry's path read back as this entry?
    pub(crate) fn wf_entries_check(&self, e: &CommitEntry) -> (r: bool)
        requires
            self.wf(),
        ensures
            r ==> self.entry_at(e.path@) == Some(e@),
            self.wf_entries() && self.entry_at(e.path@) == Some(e@) ==> r,
    {
        match self.get_entry(e.path.as_str()) {
            Ok(Some(stored)) => entries_equal(&stored, e),
            Ok(None) => false,
            Err(_) => false,
        }
    }

    /// Record a directory aggregate.
    pub fn put_dir_stat(&mut self, dir: &str, stat: &DirStat) -> (r: Result<(), OxenError>)
        requires
            old(self).wf(),
        ensures
            final(self).wf(),
            r is Ok,
            final(self).dirs() == old(self).dirs().insert(
                dir@,
                crate::codec::dir_stat_json(stat.file_count, stat.data_size),
            ),
            final(self).files() == old(self).files(),
            final(self).file_order() == old(self).file_order(),
            final(self).schemas() == old(self).schemas(),
            final(self).synced() == old(self).synced(),
            final(self).wf_entries() == old(self).wf_entries(),
    {
        let text = dir_stat_to_json(stat);
        self.dirs.insert(dir.to_owned(), text);
        proof {
            lemma_wf_entries_same(old(self), self);
        }
        Ok(())
    }

    /// The aggregate recorded for a directory.
    pub fn get_dir_stat(&self, dir: &str) -> (r: Result<Option<DirStat>, OxenError>)
        requires
            self.wf(),
        ensures
            !self.dirs().contains_key(dir@) ==> (r matches Ok(o) && o is None),
            self.dirs().contains_key(dir@) && dir_stat_of_json(self.dirs()[dir@]) is Some ==> (r
                matches Ok(o) && (o matches Some(d) && Some((d.file_count, d.data_size))
                == dir_stat_of_json(self.dirs()[dir@]))),
    {
        match self.dirs.get(dir) {
            None => Ok(None),
            Some(text) => match dir_stat_from_json(text.as_str()) {
                Some(d) => Ok(Some(d)),
                None => Err(OxenError::Corruption(dir.to_owned())),
            },
        }
    }

    /// Record a schema under its hash.
    pub fn put_schema(&mut self, sc: &Schema) -> (r: Result<(), OxenError>)
        requires
            old(self).wf(),
        ensures
            final(self).wf(),
            r is Ok,
            final(self).schemas() == old(self).schemas().insert(
                sc.hash@,
                crate::codec::schema_json(
                    match sc.name {
                        Some(ref n) => Some(n@),
                        None => None,
                    },
                    sc.hash@,
                ),
            ),
            final(self).files() == old(self).files(),
            final(self).wf_entries() == old(self).wf_entries(),
            old(self).wf_schemas() ==> final(self).wf_schemas(),
    {
        let text = schema_to_json(sc);
        self.schemas.insert(sc.hash.clone(), text);
        proof {
            lemma_wf_entries_same(old(self), self);
            crate::codec::lemma_schema_json_roundtrip(
                match sc.name {
                    Some(ref n) => Some(n@),
                    None => None,
                },
                sc.hash@,
            );
            if old(self).wf_entries() {
            }
            if old(self).wf_schemas() {
                assert forall|k: Seq<char>|
                    self.schemas().contains_key(k) implies schema_of_json(
                    #[trigger] self.schemas()[k],
                ) is Some by {
                    if k != sc.hash@ {
                        assert(old(self).schemas().contains_key(k));
                        assert(self.schemas()[k] == old(self).schemas()[k]);
                    }
                }
            }
        }
        Ok(())
    }

    /// Every schema recorded for this commit. Fails when a record does not
    /// read back.
    pub fn list_schemas(&self) -> (r: Result<Vec<Schema>, OxenError>)
        requires
            self.wf(),
        ensures
            r matches Ok(v) ==> {
                &&& v@.len() == self.schemas().dom().len()
                &&& forall|i: int|
                    0 <= i < v@.len() ==> exists|k: Seq<char>|
                        self.schemas().contains_key(k) && schema_of_json(
                            #[trigger] self.schemas()[k],
                        ) == Some(
                            (
                                match (#[trigger] v@[i]).name {
                                    Some(n) => Some(n@),
                                    None => None,
                                },
                                v@[i].hash@,
                            ),
                        )
            },
            self.wf_schemas() ==> r is Ok,
            r matches Err(e) ==> e is Corruption,
    {
        let pairs = self.schemas.pairs();
        let mut out: Vec<Schema> = Vec::new();
        let n = pairs.len();
        let mut i: usize = 0;
        while i < n
            invariant
                self.wf(),
                i <= n,
                n == pairs@.len(),
                n == self.schemas().dom().len(),
                forall|m: int|
                    0 <= m < n ==> self.schemas().contains_pair(
                        (#[trigger] pairs@[m]).0@,
                        pairs@[m].1@,
                    ),
                out@.len() == i,
                forall|m: int|
                    0 <= m < i ==> self.schemas().contains_key((#[trigger] pairs@[m]).0@)
                        && schema_of_json(self.schemas()[pairs@[m].0@]) == Some(
                        (
                            match (#[trigger] out@[m]).name {
                                Some(n) => Some(n@),
                                None => None,
                            },
                            out@[m].hash@,
                        ),
                    ),
            decreases n - i,
        {
            match schema_from_json(pairs[i].1.as_str()) {
                Some(sc) => {
                    proof {
                        let k = pairs@[i as int].0@;
                        assert(self.schemas().contains_key(k));
                        assert(self.schemas()[k] == pairs@[i as int].1@);
                    }
                    out.push(sc);
                },
                None => {
                    return Err(OxenError::Corruption(pairs[i].0.clone()));
                },
            }
            i = i + 1;
        }
        proof {
            assert forall|m: int| 0 <= m < out@.len() implies exists|k: Seq<char>|
                self.schemas().contains_key(k) && schema_of_json(#[trigger] self.schemas()[k])
                    == Some(
                    (
                        match (#[trigger] out@[m]).name {
                            Some(n) => Some(n@),
                            None => None,
                        },
                        out@[m].hash@,
                    ),
                ) by {
                let k = pairs@[m].0@;
                assert(self.schemas().contains_key(k) && schema_of_json(self.schemas()[k]) == Some(
                    (
                        match out@[m].name {
                            Some(n) => Some(n@),
                            None => None,
                        },
                        out@[m].hash@,
                    ),
                ));
            }
        }
        Ok(out)
    }
}

/// The keys among `keys`, in order, that lie under `dir`.
pub open spec fn keys_in_dir(keys: Seq<Seq<char>>, dir: Seq<char>) -> Seq<Seq<char>>
    decreases keys.len(),
{
    if keys.len() == 0 {
        Seq::<Seq<char>>::empty()
    } else if spec_in_dir(keys.last(), dir) {
        keys_in_dir(keys.drop_last(), dir).push(keys.last())
    } else {
        keys_in_dir(keys.drop_last(), dir)
    }
}

/// The first listed position of a page, clipped to the total.
pub open spec fn spec_page_start(page: int, page_size: int, total: int) -> int {
    if page - 1 > total / page_size {
        total
    } else {
        (page - 1) * page_size
    }
}

impl EntryIndex {
    /// One page of the entries under `dir`, in store order, together with
    /// the total number of entries under `dir`. Pages are one-based.
    pub fn list_directory(&self, dir: &str, page: usize, page_size: usize) -> (r: Result<
        (Vec<CommitEntry>, usize),
        OxenError,
    >)
        requires
            self.wf(),
            page >= 1,
            page_size >= 1,
        ensures
            self.wf_entries() ==> r is Ok,
            r matches Err(e) ==> e is Corruption,
            self.wf_entries() ==> (r matches Ok(p) ==> ({
                let filtered = keys_in_dir(self.file_order(), dir@);
                let start = spec_page_start(page as int, page_size as int, filtered.len() as int);
                &&& p.1 == filtered.len()
                &&& p.0@.len() == if filtered.len() - start < page_size {
                    filtered.len() - start
                } else {
                    page_size as int
                }
                &&& forall|i: int|
                    0 <= i < p.0@.len() ==> (#[trigger] p.0@[i])@.path == filtered[start + i]
                        && self.entry_at(p.0@[i]@.path) == Some(p.0@[i]@)
            })),
    {
        let all = self.list_entries()?;
        let n = all.len();
        let mut filtered: Vec<CommitEntry> = Vec::new();
        let mut i: usize = 0;
        proof {
            assert(self.file_order().take(0) =~= Seq::<Seq<char>>::empty());
        }
        while i < n
            invariant
                i <= n,
                self.wf(),
                n == all@.len(),
                n == self.file_order().len(),
                forall|m: int|
                    0 <= m < n ==> self.files().contains_key(#[trigger] self.file_order()[m])
                        && crate::codec::entry_of_json(self.files()[self.file_order()[m]]) == Some(
                        all@[m]@,
                    ),
                self.wf_entries() ==> forall|m: int|
                    0 <= m < n ==> (#[trigger] all@[m])@.path == self.file_order()[m],
                self.wf_entries() ==> ({
                    let part = keys_in_dir(self.file_order().take(i as int), dir@);
                    &&& filtered@.len() == part.len()
                    &&& forall|m: int|
                        0 <= m < filtered@.len() ==> (#[trigger] filtered@[m])@.path == part[m]
                            && self.entry_at(filtered@[m]@.path) == Some(filtered@[m]@)
                }),
            decreases n - i,
        {
            let e = &all[i];
            if !self.wf_entries_check(e) {
                return Err(OxenError::Corruption(e.path.clone()));
            }
            if in_dir(e.path.as_str(), dir) {
                let copy = e.clone_entry();
                filtered.push(copy);
            }
            proof {
                if self.wf_entries() {
                    assert(self.file_order().take(i + 1).drop_last() =~= self.file_order().take(
                        i as int,
                    ));
                    assert(self.file_order().take(i + 1).last() == self.file_order()[i as int]);
                    assert(all@[i as int]@.path == self.file_order()[i as int]);
                }
            }
            i = i + 1;
        }
        proof {
            assert(self.file_order().take(n as int) =~= self.file_order());
        }
        let total = filtered.len();
        let start: usize;
        if page - 1 > total / page_size {
            start = total;
        } else {
            proof {
                assert((page - 1) * page_size <= (total / page_size) * page_size) by (
                nonlinear_arith)
                    requires
                        page >= 1,
                        page_size >= 1,
                        page - 1 <= total / page_size,
                ;
                assert((total / page_size) * page_size <= total) by (nonlinear_arith)
                    requires
                        page_size >= 1,
                        total >= 0,
                ;
            }
            start = (page - 1) * page_size;
        }
        let count = if total - start < page_size {
            total - start
        } else {
            page_size
        };
        let mut out: Vec<CommitEntry> = Vec::new();
        let mut k: usize = 0;
        while k < count
            invariant
                k <= count,
                self.wf(),
                start + count <= total,
                total == filtered@.len(),
                out@.len() == k,
                self.wf_entries() ==> ({
                    let part = keys_in_dir(self.file_order(), dir@);
                    &&& filtered@.len() == part.len()
                    &&& forall|m: int|
                        0 <= m < filtered@.len() ==> (#[trigger] filtered@[m])@.path == part[m]
                            && self.entry_at(filtered@[m]@.path) == Some(filtered@[m]@)
                }),
                forall|m: int| 0 <= m < k ==> (#[trigger] out@[m])@ == filtered@[start + m]@,
            decreases count - k,
        {
            let copy = filtered[start + k].clone_entry();
            out.push(copy);
            k = k + 1;
        }
        Ok((out, total))
    }
}

/// Addition on sizes that sticks at the maximum instead of wrapping.
pub open spec fn sat_add64(a: u64, b: u64) -> u64 {
    if a + b > u64::MAX {
        u64::MAX
    } else {
        (a + b) as u64
    }
}

/// The cumulative size of the recorded entries among `keys` that lie under
/// `d`, saturating at the maximum.
pub open spec fn spec_size_in_dir(
    files: Map<Seq<char>, Seq<char>>,
    keys: Seq<Seq<char>>,
    d: Seq<char>,
) -> u64
    decreases keys.len(),
{
    if keys.len() == 0 {
        0
    } else {
        let rest = spec_size_in_dir(files, keys.drop_last(), d);
        if spec_in_dir(keys.last(), d) {
            sat_add64(rest, entry_of_json(files[keys.last()])->Some_0.num_bytes)
        } else {
            rest
        }
    }
}

/// The collected directory names are exactly the direct parents of the
/// first `upto` listed entries' paths.
#[verifier::opaque]
pub open spec fn spec_dir_names_ok(
    dir_names: Seq<String>,
    files: Map<Seq<char>, Seq<char>>,
    all: Seq<CommitEntry>,
    upto: int,
) -> bool {
    &&& forall|w: int|
        0 <= w < dir_names.len() ==> exists|q: Seq<char>|
            #[trigger] files.contains_key(q) && crate::paths::spec_parent(q) == Some(
                (#[trigger] dir_names[w])@,
            )
    &&& forall|j: int|
        0 <= j < upto ==> (match crate::paths::spec_parent((#[trigger] all[j])@.path) {
            Some(dd) => exists|w: int|
                0 <= w < dir_names.len() && (#[trigger] dir_names[w])@ == dd,
            None => true,
        })
}

/// The directory store describes the file store exactly: a directory is
/// recorded iff it directly parents a recorded path, and its aggregate
/// carries the number and cumulative size of the entries under it.
#[verifier::opaque]
pub open spec fn spec_dir_stats_ok(index: EntryIndex) -> bool {
    &&& forall|d: Seq<char>|
        #[trigger] index.dirs().contains_key(d) <==> exists|q: Seq<char>|
            #[trigger] index.files().contains_key(q) && crate::paths::spec_parent(q) == Some(d)
    &&& forall|d: Seq<char>|
        index.dirs().contains_key(d) ==> (dir_stat_of_json(#[trigger] index.dirs()[d]) matches Some(
            p,
        ) && p.0 as int == keys_in_dir(index.file_order(), d).len() && p.1 == spec_size_in_dir(
            index.files(),
            index.file_order(),
            d,
        ))
}

impl EntryIndex {
    /// Count the entries under `d` and total their sizes, saturating.
    fn dir_totals(&self, all: &Vec<CommitEntry>, d: &str) -> (r: (u64, u64))
        requires
            self.wf(),
            all@.len() == self.file_order().len(),
            forall|m: int|
                0 <= m < all@.len() ==> (#[trigger] all@[m])@.path == self.file_order()[m],
            forall|m: int|
                0 <= m < all@.len() ==> self.entry_at(#[trigger] self.file_order()[m]) == Some(
                    all@[m]@,
                ),
        ensures
            r.0 as int == keys_in_dir(self.file_order(), d@).len(),
            r.1 == spec_size_in_dir(self.files(), self.file_order(), d@),
    {
        let n = all.len();
        let mut count: u64 = 0;
        let mut size: u64 = 0;
        let mut j: usize = 0;
        proof {
            assert(self.file_order().take(0) =~= Seq::<Seq<char>>::empty());
        }
        while j < n
            invariant
                j <= n,
                self.wf(),
                n == all@.len(),
                n == self.file_order().len(),
                forall|m: int|
                    0 <= m < all@.len() ==> (#[trigger] all@[m])@.path == self.file_order()[m],
                forall|m: int|
                    0 <= m < all@.len() ==> self.entry_at(#[trigger] self.file_order()[m]) == Some(
                        all@[m]@,
                    ),
                count <= j,
                count as int == keys_in_dir(self.file_order().take(j as int), d@).len(),
                size == spec_size_in_dir(self.files(), self.file_order().take(j as int), d@),
            decreases n - j,
        {
            let e = &all[j];
            proof {
                assert(self.file_order().take(j + 1).drop_last() =~= self.file_order().take(
                    j as int,
                ));
                assert(self.file_order().take(j + 1).last() == self.file_order()[j as int]);
                assert(all@[j as int]@.path == self.file_order()[j as int]);
                assert(self.entry_at(self.file_order()[j as int]) == Some(all@[j as int]@));
            }
            if in_dir(e.path.as_str(), d) {
                count = count + 1;
                let nb = e.num_bytes;
                proof {
                    assert(entry_of_json(self.files()[self.file_order()[j as int]])->Some_0.num_bytes
                        == nb);
                }
                if size > u64::MAX - nb {
                    size = u64::MAX;
                } else {
                    size = size + nb;
                }
            }
            j = j + 1;
        }
        proof {
            assert(self.file_order().take(n as int) =~= self.file_order());
        }
        (count, size)
    }

    /// Recompute the directory aggregates from the file store: one record
    /// per directory that parents a recorded path, carrying the number of
    /// entries under it and their cumulative size.
    #[verifier::rlimit(100)]
    #[verifier::spinoff_prover]
    pub fn rebuild_dir_stats(&mut self) -> (r: Result<(), OxenError>)
        requires
            old(self).wf(),
        ensures
            final(self).wf(),
            final(self).files() == old(self).files(),
            final(self).schemas() == old(self).schemas(),
            final(self).synced() == old(self).synced(),
            final(self).wf_entries() == old(self).wf_entries(),
            old(self).wf_entries() ==> r is Ok,
            r matches Err(e) ==> e is Corruption,
            old(self).wf_entries() && r is Ok ==> spec_dir_stats_ok(*final(self)),
    {
        self.dirs = StrMap::new();
        proof {
            lemma_wf_entries_same(old(self), self);
        }
        if !check_wf_entries(self) {
            let empty: Vec<char> = Vec::new();
            return Err(OxenError::Corruption(crate::chars::chars_to_string(&empty)));
        }
        let all = match self.list_entries() {
            Ok(v) => v,
            Err(e) => {
                return Err(e);
            },
        };
        // The directories that directly parent a recorded path, each once.
        let mut dir_names: Vec<String> = Vec::new();
        let n = all.len();
        let mut i: usize = 0;
        proof {
            assert(spec_dir_names_ok(dir_names@, self.files(), all@, 0)) by {
                reveal(spec_dir_names_ok);
            }
        }
        while i < n
            invariant
                i <= n,
                self.wf(),
                self.wf_entries(),
                self.files() == old(self).files(),
                self.schemas() == old(self).schemas(),
                self.synced() == old(self).synced(),
                old(self).wf_entries(),
                n == all@.len(),
                n == self.file_order().len(),
                forall|m: int|
                    0 <= m < n ==> self.files().contains_key(#[trigger] self.file_order()[m])
                        && entry_of_json(self.files()[self.file_order()[m]]) == Some(all@[m]@),
                forall|m: int|
                    0 <= m < n ==> (#[trigger] all@[m])@.path == self.file_order()[m],
                forall|a: int, b: int|
                    0 <= a < b < dir_names@.len() ==> (#[trigger] dir_names@[a])@ != (
                    #[trigger] dir_names@[b])@,
                spec_dir_names_ok(dir_names@, self.files(), all@, i as int),
            decreases n - i,
        {
            let ghost dn0 = dir_names@;
            match crate::paths::parent_path(all[i].path.as_str()) {
                Some(dd) => {
                    if !crate::chars::vec_contains_str(&dir_names, dd.as_str()) {
                        dir_names.push(dd);
                        proof {
                            assert(self.files().contains_key(all@[i as int]@.path));
                            assert(dir_names@[dir_names@.len() - 1]@ == crate::paths::spec_parent(
                                all@[i as int]@.path,
                            )->Some_0);
                        }
                    }
                },
                None => {},
            }
            proof {
                assert(spec_dir_names_ok(dir_names@, self.files(), all@, i + 1)) by {
                    reveal(spec_dir_names_ok);
                    assert forall|j: int| 0 <= j < i + 1 implies (match crate::paths::spec_parent(
                        (#[trigger] all@[j])@.path,
                    ) {
                        Some(dd) => exists|m: int|
                            0 <= m < dir_names@.len() && (#[trigger] dir_names@[m])@ == dd,
                        None => true,
                    }) by {
                        if crate::paths::spec_parent(all@[j]@.path) is Some {
                            let dd = crate::paths::spec_parent(all@[j]@.path)->Some_0;
                            if j < i {
                                let m = choose|m: int|
                                    0 <= m < dn0.len() && (#[trigger] dn0[m])@ == dd;
                                assert(dir_names@[m]@ == dd);
                            } else {
                                if exists|m: int| 0 <= m < dn0.len() && (#[trigger] dn0[m])@
                                    == dd {
                                    let m = choose|m: int|
                                        0 <= m < dn0.len() && (#[trigger] dn0[m])@ == dd;
                                    assert(dir_names@[m]@ == dd);
                                } else {
                                    assert(dir_names@[dir_names@.len() - 1]@ == dd);
                                }
                            }
                        }
                    }
                    assert forall|w: int|
                        0 <= w < dir_names@.len() implies exists|q: Seq<char>|
                        #[trigger] self.files().contains_key(q) && crate::paths::spec_parent(q)
                            == Some((#[trigger] dir_names@[w])@) by {
                        if w < dn0.len() {
                            assert(dir_names@[w] == dn0[w]);
                        } else {
                            assert(self.files().contains_key(all@[i as int]@.path));
                        }
                    }
                }
            }
            i = i + 1;
        }
        // One aggregate per collected directory.
        let dn = dir_names.len();
        let mut m: usize = 0;
        while m < dn
            invariant
                m <= dn,
                self.wf(),
                self.wf_entries(),
                self.files() == old(self).files(),
                self.file_order() == old(self).file_order(),
                self.schemas() == old(self).schemas(),
                self.synced() == old(self).synced(),
                old(self).wf_entries(),
                dn == dir_names@.len(),
                n == all@.len(),
                n == self.file_order().len(),
                forall|j: int|
                    0 <= j < n ==> (#[trigger] all@[j])@.path == self.file_order()[j],
                forall|j: int|
                    0 <= j < n ==> self.entry_at(#[trigger] self.file_order()[j]) == Some(
                        all@[j]@,
                    ),
                spec_dir_names_ok(dir_names@, self.files(), all@, n as int),
                forall|dd: Seq<char>|
                    #[trigger] self.dirs().contains_key(dd) <==> exists|w: int|
                        0 <= w < m && (#[trigger] dir_names@[w])@ == dd,
                forall|dd: Seq<char>|
                    #[trigger] self.dirs().contains_key(dd) ==> (dir_stat_of_json(
                        self.dirs()[dd],
                    ) matches Some(p) && p.0 as int == keys_in_dir(self.file_order(), dd).len()
                        && p.1 == spec_size_in_dir(self.files(), self.file_order(), dd)),
            decreases dn - m,
        {
            let ghost dirs0 = self.dirs();
            let totals = self.dir_totals(&all, dir_names[m].as_str());
            let stat = DirStat { file_count: totals.0, data_size: totals.1 };
            let dname = dir_names[m].clone();
            match self.put_dir_stat(dname.as_str(), &stat) {
                Ok(()) => {},
                Err(e) => {
                    return Err(e);
                },
            }
            proof {
                crate::codec::lemma_dir_stat_json_roundtrip(stat.file_count, stat.data_size);
                assert forall|dd: Seq<char>|
                    #[trigger] self.dirs().contains_key(dd) implies exists|w: int|
                    0 <= w < m + 1 && (#[trigger] dir_names@[w])@ == dd by {
                    if dd != dir_names@[m as int]@ {
                        assert(dirs0.contains_key(dd));
                    } else {
                        assert(dir_names@[m as int]@ == dd);
                    }
                }
                assert forall|dd: Seq<char>|
                    (exists|w: int| 0 <= w < m + 1 && (#[trigger] dir_names@[w])@ == dd)
                        implies #[trigger] self.dirs().contains_key(dd) by {
                    let w = choose|w: int| 0 <= w < m + 1 && (#[trigger] dir_names@[w])@ == dd;
                    if w < m {
                        assert(dirs0.contains_key(dd));
                    }
                }
            }
            m = m + 1;
        }
        proof {
            self.lemma_file_order();
            assert(spec_dir_stats_ok(*self)) by {
                reveal(spec_dir_stats_ok);
                reveal(spec_dir_names_ok);
                assert forall|dd: Seq<char>|
                    #[trigger] self.dirs().contains_key(dd) implies exists|q: Seq<char>|
                    #[trigger] self.files().contains_key(q) && crate::paths::spec_parent(q)
                        == Some(dd) by {
                    let w = choose|w: int|
                        0 <= w < dir_names@.len() && (#[trigger] dir_names@[w])@ == dd;
                }
                assert forall|dd: Seq<char>|
                    (exists|q: Seq<char>|
                        #[trigger] self.files().contains_key(q) && crate::paths::spec_parent(q)
                            == Some(dd)) implies #[trigger] self.dirs().contains_key(dd) by {
                    let q = choose|q: Seq<char>|
                        #[trigger] self.files().contains_key(q) && crate::paths::spec_parent(q)
                            == Some(dd);
                    let j = choose|j: int|
                        0 <= j < self.file_order().len() && #[trigger] self.file_order()[j] == q;
                    assert(all@[j]@.path == q);
                    let w = choose|w: int|
                        0 <= w < dir_names@.len() && (#[trigger] dir_names@[w])@ == dd;
                    assert(self.dirs().contains_key(dd));
                }
            }
        }
        Ok(())
    }
}

/// Whether every record of the index reads back under its own path.
fn check_wf_entries(index: &EntryIndex) -> (r: bool)
    requires
        index.wf(),
    ensures
        r == index.wf_entries(),
{
    let keys = index.list_files();
    match index.list_entries() {
        Ok(v) => {
            let n = v.len();
            let mut i: usize = 0;
            while i < n
                invariant
                    i <= n,
                    index.wf(),
                    n == v@.len(),
                    n == index.file_order().len(),
                    keys@.len() == index.file_order().len(),
                    forall|m: int|
                        0 <= m < n ==> (#[trigger] keys@[m])@ == index.file_order()[m],
                    forall|m: int|
                        0 <= m < n ==> index.files().contains_key(
                            #[trigger] index.file_order()[m],
                        ) && entry_of_json(index.files()[index.file_order()[m]]) == Some(v@[m]@),
                    forall|m: int|
                        0 <= m < i ==> index.entry_at((#[trigger] v@[m])@.path) == Some(v@[m]@)
                            && v@[m]@.path == index.file_order()[m],
                decreases n - i,
            {
                let e = &v[i];
                proof {
                    assert(index.entry_at(index.file_order()[i as int]) == Some(v@[i as int]@));
                }
                let same = crate::chars::str_eq(e.path.as_str(), keys[i].as_str());
                if !same {
                    proof {
                        if index.wf_entries() {
                            assert((index.entry_at(index.file_order()[i as int]) matches Some(x)
                                && x.path == index.file_order()[i as int]));
                        }
                    }
                    return false;
                }
                if !index.wf_entries_check(e) {
                    proof {
                        if index.wf_entries() {
                            assert(index.entry_at(v@[i as int]@.path) == Some(v@[i as int]@));
                        }
                    }
                    return false;
                }
                i = i + 1;
            }
            proof {
                index.lemma_file_order();
                assert forall|p: Seq<char>| index.files().contains_key(p) implies ((
                #[trigger] index.entry_at(p)) matches Some(e) && e.path == p) by {
                    let m = choose|m: int|
                        0 <= m < index.file_order().len() && #[trigger] index.file_order()[m] == p;
                    assert(v@[m]@.path == p);
                    assert(index.entry_at(v@[m]@.path) == Some(v@[m]@));
                }
            }
            true
        },
        Err(_) => false,
    }
}

/// The file order enumerates the file store's keys exactly once.
impl EntryIndex {
    pub proof fn lemma_file_order(&self)
        requires
            self.wf(),
        ensures
            forall|i: int, j: int|
                0 <= i < j < self.file_order().len() ==> self.file_order()[i]
                    != self.file_order()[j],
            forall|i: int|
                0 <= i < self.file_order().len() ==> self.files().contains_key(
                    #[trigger] self.file_order()[i],
                ),
            forall|k: Seq<char>|
                self.files().contains_key(k) ==> exists|i: int|
                    0 <= i < self.file_order().len() && #[trigger] self.file_order()[i] == k,
    {
        self.files.lemma_key_order();
    }
}

/// Two indexes with the same file store agree on entry well-formedness.
pub proof fn lemma_wf_entries_same(a: &EntryIndex, b: &EntryIndex)
    requires
        a.files() == b.files(),
    ensures
        a.wf_entries() == b.wf_entries(),
{
    if a.wf_entries() {
        assert forall|p: Seq<char>| b.files().contains_key(p) implies ((
        #[trigger] b.entry_at(p)) matches Some(e) && e.path == p) by {
            assert(a.files().contains_key(p));
            assert(a.entry_at(p) == b.entry_at(p));
        }
    }
    if b.wf_entries() {
        assert forall|p: Seq<char>| a.files().contains_key(p) implies ((
        #[trigger] a.entry_at(p)) matches Some(e) && e.path == p) by {
            assert(b.files().contains_key(p));
            assert(a.entry_at(p) == b.entry_at(p));
        }
    }
}

/// Field-by-field equality of two entries.
pub fn entries_equal(a: &CommitEntry, b: &CommitEntry) -> (r: bool)
    ensures
        r == (a@ == b@),
{
    let r = str_eq(a.id.as_str(), b.id.as_str()) && str_eq(a.path.as_str(), b.path.as_str())
        && str_eq(a.hash.as_str(), b.hash.as_str()) && str_eq(
        a.commit_id.as_str(),
        b.commit_id.as_str(),
    ) && str_eq(a.extension.as_str(), b.extension.as_str()) && a.num_bytes == b.num_bytes
        && a.last_modified_seconds == b.last_modified_seconds && a.last_modified_nanoseconds
        == b.last_modified_nanoseconds;
    r
}

} // verus!
