//! A string-keyed store with unique keys, viewed as a `Map<Seq<char>,
//! Seq<char>>`. Every key-value store of the repository (refs, commits,
//! entry indexes, staged paths) is one of these; loading from and saving to
//! disk is the caller's concern and goes through [`StrMap::pairs`] and
//! [`StrMap::from_pairs`].
use vstd::prelude::*;
use crate::chars::str_eq;

verus! {

/// The map described by the first `n` pairs of `s`, later pairs winning.
pub open spec fn map_of(s: Seq<(String, String)>) -> Map<Seq<char>, Seq<char>>
    decreases s.len(),
{
    if s.len() == 0 {
        Map::<Seq<char>, Seq<char>>::empty()
    } else {
        map_of(s.drop_last()).insert(s.last().0@, s.last().1@)
    }
}

/// No key appears twice.
pub open spec fn keys_distinct(s: Seq<(String, String)>) -> bool {
    forall|i: int, j: int| 0 <= i < j < s.len() ==> (#[trigger] s[i]).0@ != (#[trigger] s[j]).0@
}

/// The map of a duplicate-free pair sequence holds exactly those pairs.
pub proof fn lemma_map_of_props(s: Seq<(String, String)>)
    requires
        keys_distinct(s),
    ensures
        forall|k: Seq<char>|
            map_of(s).contains_key(k) <==> exists|i: int|
                0 <= i < s.len() && (#[trigger] s[i]).0@ == k,
        forall|i: int| 0 <= i < s.len() ==> map_of(s)[(#[trigger] s[i]).0@] == s[i].1@,
        map_of(s).dom().finite(),
        map_of(s).dom().len() == s.len(),
    decreases s.len(),
{
    if s.len() == 0 {
        assert(map_of(s).dom() =~= Set::<Seq<char>>::empty());
    } else {
        let p = s.drop_last();
        assert(keys_distinct(p)) by {
            assert(forall|i: int, j: int|
                0 <= i < j < p.len() ==> (#[trigger] p[i]).0@ != (#[trigger] p[j]).0@) by {
                assert(forall|i: int| 0 <= i < p.len() ==> p[i] == s[i]);
            }
        }
        lemma_map_of_props(p);
        assert(forall|i: int| 0 <= i < p.len() ==> p[i] == s[i]);
        assert(!map_of(p).contains_key(s.last().0@)) by {
            assert(forall|i: int| 0 <= i < p.len() ==> (#[trigger] s[i]).0@ != s.last().0@);
        }
        assert(forall|k: Seq<char>|
            map_of(s).contains_key(k) <==> (exists|i: int|
                0 <= i < s.len() && (#[trigger] s[i]).0@ == k)) by {
            assert(forall|k: Seq<char>|
                #[trigger] map_of(s).contains_key(k) ==> (map_of(p).contains_key(k) || k
                    == s.last().0@));
            assert(forall|i: int|
                0 <= i < s.len() ==> map_of(s).contains_key((#[trigger] s[i]).0@)) by {
                assert(forall|i: int| 0 <= i < p.len() ==> (#[trigger] s[i]) == p[i]);
            }
        }
        assert(map_of(s).dom().len() == s.len());
    }
}

/// Overwriting the pair at a key's position updates that key's value.
pub proof fn lemma_map_of_update(s: Seq<(String, String)>, i: int, k: String, v: String)
    requires
        keys_distinct(s),
        0 <= i < s.len(),
        s[i].0@ == k@,
    ensures
        map_of(s.update(i, (k, v))) == map_of(s).insert(k@, v@),
    decreases s.len(),
{
    let u = s.update(i, (k, v));
    if i == s.len() - 1 {
        assert(u.drop_last() =~= s.drop_last());
        assert(u.last() == (k, v));
        assert(map_of(u) == map_of(s.drop_last()).insert(k@, v@));
        assert(map_of(s.drop_last()).insert(s.last().0@, s.last().1@).insert(k@, v@)
            =~= map_of(s.drop_last()).insert(k@, v@));
    } else {
        assert(u.drop_last() =~= s.drop_last().update(i, (k, v)));
        assert(u.last() == s.last());
        assert(keys_distinct(s.drop_last())) by {
            assert(forall|m: int| 0 <= m < s.len() - 1 ==> s.drop_last()[m] == s[m]);
        }
        assert(s.drop_last()[i] == s[i]);
        lemma_map_of_update(s.drop_last(), i, k, v);
        assert(k@ != s.last().0@);
        assert(map_of(s.drop_last()).insert(k@, v@).insert(s.last().0@, s.last().1@)
            =~= map_of(s.drop_last()).insert(s.last().0@, s.last().1@).insert(k@, v@));
    }
}

/// Removing the pair at a key's position removes that key.
pub proof fn lemma_map_of_remove(s: Seq<(String, String)>, i: int)
    requires
        keys_distinct(s),
        0 <= i < s.len(),
    ensures
        map_of(s.remove(i)) == map_of(s).remove(s[i].0@),
    decreases s.len(),
{
    let k = s[i].0@;
    if i == s.len() - 1 {
        assert(s.remove(i) =~= s.drop_last());
        assert(keys_distinct(s.drop_last())) by {
            assert(forall|m: int| 0 <= m < s.len() - 1 ==> s.drop_last()[m] == s[m]);
        }
        lemma_map_of_props(s.drop_last());
        assert(!map_of(s.drop_last()).contains_key(k)) by {
            assert(forall|m: int| 0 <= m < s.len() - 1 ==> (#[trigger] s[m]).0@ != k);
            assert(forall|m: int| 0 <= m < s.len() - 1 ==> s.drop_last()[m] == s[m]);
        }
        assert(map_of(s.drop_last()).insert(s.last().0@, s.last().1@).remove(k) =~= map_of(
            s.drop_last(),
        ));
    } else {
        assert(s.remove(i).drop_last() =~= s.drop_last().remove(i));
        assert(s.remove(i).last() == s.last());
        assert(keys_distinct(s.drop_last())) by {
            assert(forall|m: int| 0 <= m < s.len() - 1 ==> s.drop_last()[m] == s[m]);
        }
        assert(s.drop_last()[i] == s[i]);
        lemma_map_of_remove(s.drop_last(), i);
        assert(k != s.last().0@);
        assert(map_of(s.drop_last()).remove(k).insert(s.last().0@, s.last().1@) =~= map_of(
            s.drop_last(),
        ).insert(s.last().0@, s.last().1@).remove(k));
        assert(map_of(s.remove(i)) == map_of(s.drop_last().remove(i)).insert(
            s.last().0@,
            s.last().1@,
        ));
    }
}

/// A string-keyed store with unique keys.
pub struct StrMap {
    entries: Vec<(String, String)>,
}

impl View for StrMap {
    type V = Map<Seq<char>, Seq<char>>;

    closed spec fn view(&self) -> Map<Seq<char>, Seq<char>> {
        map_of(self.entries@)
    }
}

impl StrMap {
    /// Well-formedness: no key stored twice. Constructors establish it and
    /// every method preserves it.
    pub closed spec fn wf(&self) -> bool {
        keys_distinct(self.entries@)
    }

    /// The number of stored pairs.
    pub closed spec fn spec_len(&self) -> nat {
        self.entries@.len()
    }

    /// The keys in store order: insertion order, stable across readers.
    pub closed spec fn key_order(&self) -> Seq<Seq<char>> {
        Seq::new(self.entries@.len(), |i: int| self.entries@[i].0@)
    }

    /// The key order enumerates the domain exactly once.
    pub proof fn lemma_key_order(&self)
        requires
            self.wf(),
        ensures
            self.key_order().len() == self.spec_len(),
            forall|i: int, j: int|
                0 <= i < j < self.key_order().len() ==> self.key_order()[i]
                    != self.key_order()[j],
            forall|i: int|
                0 <= i < self.key_order().len() ==> self@.contains_key(
                    #[trigger] self.key_order()[i],
                ),
            forall|k: Seq<char>|
                self@.contains_key(k) ==> exists|i: int|
                    0 <= i < self.key_order().len() && #[trigger] self.key_order()[i] == k,
    {
        lemma_map_of_props(self.entries@);
        assert forall|k: Seq<char>| self@.contains_key(k) implies exists|i: int|
            0 <= i < self.key_order().len() && #[trigger] self.key_order()[i] == k by {
            let i = choose|i: int|
                0 <= i < self.entries@.len() && (#[trigger] self.entries@[i]).0@ == k;
            assert(self.key_order()[i] == k);
        }
    }

    /// The view's domain is finite, with one element per stored pair.
    pub proof fn lemma_dom_finite(&self)
        requires
            self.wf(),
        ensures
            self@.dom().finite(),
            self@.dom().len() == self.spec_len(),
    {
        lemma_map_of_props(self.entries@);
    }

    /// An empty store.
    pub fn new() -> (r: StrMap)
        ensures
            r.wf(),
            r@ == Map::<Seq<char>, Seq<char>>::empty(),
            r.spec_len() == 0,
    {
        StrMap { entries: Vec::new() }
    }

    /// Find the position of `k`, if present.
    fn position(&self, k: &str) -> (r: Option<usize>)
        ensures
            match r {
                Some(i) => i < self.entries@.len() && self.entries@[i as int].0@ == k@,
                None => forall|i: int|
                    0 <= i < self.entries@.len() ==> (#[trigger] self.entries@[i]).0@ != k@,
            },
    {
        let n = self.entries.len();
        let mut i: usize = 0;
        while i < n
            invariant
                i <= n,
                n == self.entries@.len(),
                forall|m: int| 0 <= m < i ==> (#[trigger] self.entries@[m]).0@ != k@,
            decreases n - i,
        {
            if str_eq(self.entries[i].0.as_str(), k) {
                return Some(i);
            }
            i = i + 1;
        }
        None
    }

    /// Does the store hold `k`?
    pub fn contains_key(&self, k: &str) -> (r: bool)
        requires
            self.wf(),
        ensures
            r == self@.contains_key(k@),
    {
        proof {
            lemma_map_of_props(self.entries@);
        }
        self.position(k).is_some()
    }

    /// The value stored under `k`, if any.
    pub fn get(&self, k: &str) -> (r: Option<String>)
        requires
            self.wf(),
        ensures
            match r {
                Some(v) => self@.contains_key(k@) && self@[k@] == v@,
                None => !self@.contains_key(k@),
            },
    {
        proof {
            lemma_map_of_props(self.entries@);
        }
        match self.position(k) {
            Some(i) => Some(self.entries[i].1.clone()),
            None => None,
        }
    }

    /// Store `v` under `k`, replacing any previous value.
    pub fn insert(&mut self, k: String, v: String)
        requires
            old(self).wf(),
        ensures
            final(self).wf(),
            final(self)@ == old(self)@.insert(k@, v@),
            final(self).spec_len() == if old(self)@.contains_key(k@) {
                old(self).spec_len()
            } else {
                old(self).spec_len() + 1
            },
    {
        proof {
            lemma_map_of_props(self.entries@);
        }
        let ghost olds = self.entries@;
        let ghost kv = (k, v);
        match self.position(k.as_str()) {
            Some(i) => {
                proof {
                    lemma_map_of_update(olds, i as int, k, v);
                }
                self.entries.set(i, (k, v));
                proof {
                    assert(self.entries@ =~= olds.update(i as int, kv));
                    assert(keys_distinct(self.entries@)) by {
                        assert(forall|m: int|
                            0 <= m < self.entries@.len() && m != i
                                ==> (#[trigger] self.entries@[m]) == olds[m]);
                    }
                    lemma_map_of_props(self.entries@);
                }
            },
            None => {
                self.entries.push((k, v));
                proof {
                    assert(self.entries@ =~= olds.push(kv));
                    assert(self.entries@.drop_last() =~= olds);
                    assert(keys_distinct(self.entries@)) by {
                        assert(forall|m: int|
                            0 <= m < olds.len() ==> (#[trigger] self.entries@[m]) == olds[m]);
                    }
                    lemma_map_of_props(self.entries@);
                    assert(self@ == map_of(olds).insert(kv.0@, kv.1@));
                }
            },
        }
    }

    /// Remove `k` from the store, if present.
    pub fn remove(&mut self, k: &str)
        requires
            old(self).wf(),
        ensures
            final(self).wf(),
            final(self)@ == old(self)@.remove(k@),
    {
        proof {
            lemma_map_of_props(self.entries@);
        }
        let ghost olds = self.entries@;
        proof {
            lemma_map_of_props(olds);
        }
        match self.position(k) {
            Some(i) => {
                proof {
                    lemma_map_of_remove(olds, i as int);
                }
                self.entries.remove(i);
                proof {
                    assert(self.entries@ =~= olds.remove(i as int));
                    assert(keys_distinct(self.entries@)) by {
                        assert(forall|m: int|
                            0 <= m < self.entries@.len()
                                ==> (#[trigger] self.entries@[m]) == if m < i {
                                olds[m]
                            } else {
                                olds[m + 1]
                            });
                    }
                }
            },
            None => {
                proof {
                    assert(!old(self)@.contains_key(k@));
                    assert(self@ =~= old(self)@.remove(k@));
                }
            },
        }
    }

    /// The number of stored pairs, which is also the size of the view's
    /// domain.
    pub fn len(&self) -> (r: usize)
        requires
            self.wf(),
        ensures
            r == self.spec_len(),
            r == self@.dom().len(),
    {
        proof {
            lemma_map_of_props(self.entries@);
        }
        self.entries.len()
    }

    /// All stored pairs, each key once, in store order.
    pub fn pairs(&self) -> (r: Vec<(String, String)>)
        requires
            self.wf(),
        ensures
            r@.len() == self.spec_len(),
            r@.len() == self@.dom().len(),
            forall|i: int| 0 <= i < r@.len() ==> (#[trigger] r@[i]).0@ == self.key_order()[i],
            forall|i: int|
                0 <= i < r@.len() ==> self@.contains_pair(
                    (#[trigger] r@[i]).0@,
                    r@[i].1@,
                ),
            forall|k: Seq<char>|
                self@.contains_key(k) ==> exists|i: int|
                    0 <= i < r@.len() && (#[trigger] r@[i]).0@ == k,
            forall|i: int, j: int| 0 <= i < j < r@.len() ==> (#[trigger] r@[i]).0@ != (
            #[trigger] r@[j]).0@,
    {
        proof {
            lemma_map_of_props(self.entries@);
        }
        let n = self.entries.len();
        let mut r: Vec<(String, String)> = Vec::new();
        let mut i: usize = 0;
        while i < n
            invariant
                i <= n,
                n == self.entries@.len(),
                r@.len() == i,
                forall|m: int|
                    0 <= m < i ==> (#[trigger] r@[m]).0@ == self.entries@[m].0@ && r@[m].1@
                        == self.entries@[m].1@,
            decreases n - i,
        {
            let key = self.entries[i].0.clone();
            let val = self.entries[i].1.clone();
            r.push((key, val));
            i = i + 1;
        }
        proof {
            assert forall|k: Seq<char>| self@.contains_key(k) implies exists|m: int|
                0 <= m < r@.len() && (#[trigger] r@[m]).0@ == k by {
                let m = choose|m: int|
                    0 <= m < self.entries@.len() && (#[trigger] self.entries@[m]).0@ == k;
                assert(r@[m].0@ == k);
            }
        }
        r
    }

    /// Rebuild a store from pairs, later pairs winning over earlier ones.
    pub fn from_pairs(pairs: Vec<(String, String)>) -> (r: StrMap)
        ensures
            r.wf(),
            r@ == map_of(pairs@),
    {
        let mut r = StrMap::new();
        let n = pairs.len();
        let mut i: usize = 0;
        while i < n
            invariant
                i <= n,
                n == pairs@.len(),
                r.wf(),
                r@ == map_of(pairs@.take(i as int)),
            decreases n - i,
        {
            let k = pairs[i].0.clone();
            let v = pairs[i].1.clone();
            proof {
                assert(pairs@.take(i + 1).drop_last() =~= pairs@.take(i as int));
                assert(pairs@.take(i + 1).last() == pairs@[i as int]);
            }
            r.insert(k, v);
            i = i + 1;
        }
        proof {
            assert(pairs@.take(n as int) =~= pairs@);
        }
        r
    }
}

} // verus!
