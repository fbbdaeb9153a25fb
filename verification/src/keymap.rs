//! Small association maps used for the mesh's entity stores.
//!
//! `KeyMap` maps integer entity keys to values and `EdgeMap` maps
//! directed vertex pairs to values.  Both keep their entries in
//! insertion order, which makes iteration deterministic, and both are
//! given a mathematical `Map` view for contracts.

use vstd::prelude::*;
use vstd::seq_lib::*;

verus! {

/// The mathematical map described by an association list: later
/// entries win, as with repeated map insertion.
pub open spec fn assoc_map<V>(s: Seq<(usize, V)>) -> Map<usize, V>
    decreases s.len(),
{
    if s.len() == 0 {
        Map::empty()
    } else {
        assoc_map(s.drop_last()).insert(s.last().0, s.last().1)
    }
}

/// The keys of an association list, in list order.
pub open spec fn assoc_keys<V>(s: Seq<(usize, V)>) -> Seq<usize> {
    s.map_values(|p: (usize, V)| p.0)
}

/// The domain of the map of an association list is exactly the set of
/// its listed keys.
pub proof fn lemma_assoc_dom<V>(s: Seq<(usize, V)>)
    ensures
        assoc_map(s).dom() == assoc_keys(s).to_set(),
    decreases s.len(),
{
    if s.len() == 0 {
        assert(assoc_map(s).dom() =~= assoc_keys(s).to_set());
    } else {
        let d = s.drop_last();
        lemma_assoc_dom(d);
        assert forall|k: usize| assoc_map(s).dom().contains(k) implies assoc_keys(s).to_set().contains(
            k,
        ) by {
            if k == s.last().0 {
                assert(assoc_keys(s)[s.len() - 1] == k);
            } else {
                assert(assoc_keys(d).to_set().contains(k));
                let j = choose|j: int| 0 <= j < assoc_keys(d).len() && assoc_keys(d)[j] == k;
                assert(assoc_keys(s)[j] == k);
            }
        }
        assert forall|k: usize| assoc_keys(s).to_set().contains(k) implies assoc_map(s).dom().contains(
            k,
        ) by {
            let j = choose|j: int| 0 <= j < assoc_keys(s).len() && assoc_keys(s)[j] == k;
            if j == s.len() - 1 {
                assert(k == s.last().0);
            } else {
                assert(assoc_keys(d)[j] == k);
                assert(assoc_keys(d).to_set().contains(k));
            }
        }
        assert(assoc_map(s).dom() =~= assoc_keys(s).to_set());
    }
}

/// In a duplicate-free association list every listed entry is the one
/// the map returns for its key.
pub proof fn lemma_assoc_get<V>(s: Seq<(usize, V)>, i: int)
    requires
        assoc_keys(s).no_duplicates(),
        0 <= i < s.len(),
    ensures
        assoc_map(s).dom().contains(s[i].0),
        assoc_map(s)[s[i].0] == s[i].1,
    decreases s.len(),
{
    if i == s.len() - 1 {
    } else {
        let d = s.drop_last();
        assert(assoc_keys(d) =~= assoc_keys(s).drop_last());
        assert(assoc_keys(d).no_duplicates());
        assert(d[i] == s[i]);
        lemma_assoc_get(d, i);
        assert(assoc_keys(s)[i] == s[i].0 && assoc_keys(s)[s.len() - 1] == s.last().0);
        assert(s[i].0 != s.last().0);
    }
}

/// Updating the entry at a key's position changes the map as a single
/// insertion would.
pub proof fn lemma_assoc_update<V>(s: Seq<(usize, V)>, i: int, v: V)
    requires
        assoc_keys(s).no_duplicates(),
        0 <= i < s.len(),
    ensures
        assoc_map(s.update(i, (s[i].0, v))) == assoc_map(s).insert(s[i].0, v),
        assoc_keys(s.update(i, (s[i].0, v))) == assoc_keys(s),
    decreases s.len(),
{
    let k = s[i].0;
    let s2 = s.update(i, (k, v));
    assert(assoc_keys(s2) =~= assoc_keys(s));
    if i == s.len() - 1 {
        assert(s2.drop_last() =~= s.drop_last());
        assert(s2.last() == (k, v));
        assert(assoc_map(s2) =~= assoc_map(s).insert(k, v));
    } else {
        let d = s.drop_last();
        assert(assoc_keys(d) =~= assoc_keys(s).drop_last());
        assert(d[i] == s[i]);
        lemma_assoc_update(d, i, v);
        assert(s2.drop_last() =~= d.update(i, (k, v)));
        assert(s2.last() == s.last());
        assert(assoc_keys(s)[i] == k && assoc_keys(s)[s.len() - 1] == s.last().0);
        assert(k != s.last().0);
        assert(assoc_map(s2) =~= assoc_map(s).insert(k, v));
    }
}

/// A duplicate-free association list has as many entries as its map
/// has keys.
pub proof fn lemma_assoc_len<V>(s: Seq<(usize, V)>)
    requires
        assoc_keys(s).no_duplicates(),
    ensures
        assoc_map(s).dom().len() == s.len(),
        assoc_map(s).dom().finite(),
{
    lemma_assoc_dom(s);
    assoc_keys(s).unique_seq_to_set();
}

/// An association map from entity keys to values, in insertion order.
pub struct KeyMap<V> {
    /// The entries, each a key with its value; keys are unique
    /// whenever the map is well formed.
    pub pairs: Vec<(usize, V)>,
}

impl<V> KeyMap<V> {
    /// The entries as a sequence.
    pub open spec fn kseq(self) -> Seq<(usize, V)> {
        self.pairs@
    }

    /// The keys in insertion order.
    pub open spec fn keys(self) -> Seq<usize> {
        assoc_keys(self.kseq())
    }

    /// The mathematical map view.
    pub open spec fn as_map(self) -> Map<usize, V> {
        assoc_map(self.kseq())
    }

    /// The key set.
    pub open spec fn dom(self) -> Set<usize> {
        self.as_map().dom()
    }

    /// Well-formedness: no key is listed twice.
    pub open spec fn wf(self) -> bool {
        self.keys().no_duplicates()
    }

    /// An empty map.
    pub fn new() -> (m: Self)
        ensures
            m.kseq() == Seq::<(usize, V)>::empty(),
            m.wf(),
            m.as_map() == Map::<usize, V>::empty(),
    {
        let m = KeyMap { pairs: Vec::new() };
        proof {
            assert(m.keys() =~= Seq::<usize>::empty());
        }
        m
    }

    /// The number of entries.
    pub fn len(&self) -> (n: usize)
        ensures
            n == self.kseq().len(),
            self.wf() ==> n == self.dom().len(),
    {
        proof {
            if self.wf() {
                lemma_assoc_len(self.kseq());
            }
        }
        self.pairs.len()
    }

    /// The position of a key's entry, if the key is present.
    fn find(&self, k: usize) -> (r: Option<usize>)
        ensures
            match r {
                Some(i) => 0 <= i < self.kseq().len() && self.kseq()[i as int].0 == k,
                None => !self.keys().contains(k),
            },
    {
        let n = self.pairs.len();
        let mut i: usize = 0;
        while i < n
            invariant
                0 <= i <= n,
                n == self.kseq().len(),
                forall|j: int| 0 <= j < i ==> self.kseq()[j].0 != k,
            decreases n - i,
        {
            if self.pairs[i].0 == k {
                return Some(i);
            }
            i += 1;
        }
        proof {
            assert forall|j: int| 0 <= j < self.keys().len() implies self.keys()[j] != k by {
                assert(self.kseq()[j].0 != k);
            }
        }
        None
    }

    /// Whether a key is present.
    pub fn contains_key(&self, k: usize) -> (b: bool)
        ensures
            b == self.dom().contains(k),
    {
        proof {
            lemma_assoc_dom(self.kseq());
        }
        match self.find(k) {
            Some(i) => {
                proof {
                    assert(self.keys()[i as int] == k);
                    assert(self.keys().to_set().contains(k));
                }
                true
            },
            None => {
                proof {
                    if self.keys().to_set().contains(k) {
                        assert(self.keys().contains(k));
                    }
                }
                false
            },
        }
    }

    /// The value stored under a key, if any.
    pub fn get(&self, k: usize) -> (r: Option<&V>)
        requires
            self.wf(),
        ensures
            match r {
                Some(v) => self.dom().contains(k) && *v == self.as_map()[k],
                None => !self.dom().contains(k),
            },
    {
        proof {
            lemma_assoc_dom(self.kseq());
        }
        match self.find(k) {
            Some(i) => {
                proof {
                    lemma_assoc_get(self.kseq(), i as int);
                }
                Some(&self.pairs[i].1)
            },
            None => {
                proof {
                    if self.keys().to_set().contains(k) {
                        assert(self.keys().contains(k));
                    }
                }
                None
            },
        }
    }

    /// Inserts a value under a key; an existing entry for the key is
    /// overwritten in place, otherwise the entry is appended.
    pub fn insert(&mut self, k: usize, v: V)
        requires
            old(self).wf(),
        ensures
            final(self).wf(),
            final(self).as_map() == old(self).as_map().insert(k, v),
            final(self).keys() == if old(self).dom().contains(k) {
                old(self).keys()
            } else {
                old(self).keys().push(k)
            },
    {
        proof {
            lemma_assoc_dom(self.kseq());
        }
        match self.find(k) {
            Some(i) => {
                proof {
                    assert(self.keys()[i as int] == k);
                    assert(self.keys().to_set().contains(k));
                    lemma_assoc_update(self.kseq(), i as int, v);
                }
                self.pairs[i] = (k, v);
            },
            None => {
                proof {
                    if self.keys().to_set().contains(k) {
                        assert(self.keys().contains(k));
                    }
                }
                self.pairs.push((k, v));
                proof {
                    assert(final(self).kseq().drop_last() =~= old(self).kseq());
                    assert(final(self).keys() =~= old(self).keys().push(k));
                }
            },
        }
    }

    /// Removes every entry.
    pub fn clear(&mut self)
        ensures
            final(self).kseq() == Seq::<(usize, V)>::empty(),
            final(self).wf(),
            final(self).as_map() == Map::<usize, V>::empty(),
    {
        self.pairs.clear();
        proof {
            assert(final(self).keys() =~= Seq::<usize>::empty());
        }
    }

    /// The key of the entry at a position.
    pub fn key_at(&self, i: usize) -> (k: usize)
        requires
            i < self.kseq().len(),
        ensures
            k == self.keys()[i as int],
    {
        self.pairs[i].0
    }

    /// The value of the entry at a position.
    pub fn value_at(&self, i: usize) -> (v: &V)
        requires
            i < self.kseq().len(),
        ensures
            *v == self.kseq()[i as int].1,
            self.wf() ==> self.dom().contains(self.keys()[i as int]) && *v == self.as_map()[self.keys()[i as int]],
    {
        proof {
            if self.wf() {
                lemma_assoc_get(self.kseq(), i as int);
            }
        }
        &self.pairs[i].1
    }

    /// All keys, in insertion order.
    pub fn keys_vec(&self) -> (r: Vec<usize>)
        ensures
            r@ == self.keys(),
    {
        let n = self.pairs.len();
        let mut r: Vec<usize> = Vec::new();
        let mut i: usize = 0;
        while i < n
            invariant
                0 <= i <= n,
                n == self.kseq().len(),
                r@.len() == i,
                forall|j: int| 0 <= j < i ==> r@[j] == self.keys()[j],
            decreases n - i,
        {
            r.push(self.pairs[i].0);
            i += 1;
        }
        proof {
            assert(r@ =~= self.keys());
        }
        r
    }
}

} // verus!
