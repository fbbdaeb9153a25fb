//! Association map from directed vertex pairs to values, used for the
//! halfedge store and for per-edge attributes.

use vstd::prelude::*;
use vstd::seq_lib::*;

verus! {

/// The mathematical map described by a pair-keyed association list:
/// later entries win, as with repeated map insertion.
pub open spec fn passoc_map<V>(s: Seq<(usize, usize, V)>) -> Map<(usize, usize), V>
    decreases s.len(),
{
    if s.len() == 0 {
        Map::empty()
    } else {
        passoc_map(s.drop_last()).insert((s.last().0, s.last().1), s.last().2)
    }
}

/// The pair keys of the list, in list order.
pub open spec fn passoc_keys<V>(s: Seq<(usize, usize, V)>) -> Seq<(usize, usize)> {
    s.map_values(|p: (usize, usize, V)| (p.0, p.1))
}

/// The domain of the map of a pair-keyed list is exactly the set of
/// its listed pair keys.
pub proof fn lemma_passoc_dom<V>(s: Seq<(usize, usize, V)>)
    ensures
        passoc_map(s).dom() == passoc_keys(s).to_set(),
    decreases s.len(),
{
    if s.len() == 0 {
        assert(passoc_map(s).dom() =~= passoc_keys(s).to_set());
    } else {
        let d = s.drop_last();
        lemma_passoc_dom(d);
        assert forall|k: (usize, usize)| passoc_map(s).dom().contains(k) implies passoc_keys(
            s,
        ).to_set().contains(k) by {
            if k == (s.last().0, s.last().1) {
                assert(passoc_keys(s)[s.len() - 1] == k);
            } else {
                assert(passoc_keys(d).to_set().contains(k));
                let j = choose|j: int| 0 <= j < passoc_keys(d).len() && passoc_keys(d)[j] == k;
                assert(passoc_keys(s)[j] == k);
            }
        }
        assert forall|k: (usize, usize)| passoc_keys(s).to_set().contains(k) implies passoc_map(
            s,
        ).dom().contains(k) by {
            let j = choose|j: int| 0 <= j < passoc_keys(s).len() && passoc_keys(s)[j] == k;
            if j == s.len() - 1 {
                assert(k == (s.last().0, s.last().1));
            } else {
                assert(passoc_keys(d)[j] == k);
                assert(passoc_keys(d).to_set().contains(k));
            }
        }
        assert(passoc_map(s).dom() =~= passoc_keys(s).to_set());
    }
}

/// In a duplicate-free pair-keyed list every listed entry is the one
/// the map returns for its pair.
pub proof fn lemma_passoc_get<V>(s: Seq<(usize, usize, V)>, i: int)
    requires
        passoc_keys(s).no_duplicates(),
        0 <= i < s.len(),
    ensures
        passoc_map(s).dom().contains((s[i].0, s[i].1)),
        passoc_map(s)[(s[i].0, s[i].1)] == s[i].2,
    decreases s.len(),
{
    if i == s.len() - 1 {
    } else {
        let d = s.drop_last();
        assert(passoc_keys(d) =~= passoc_keys(s).drop_last());
        assert(d[i] == s[i]);
        lemma_passoc_get(d, i);
        assert(passoc_keys(s)[i] == (s[i].0, s[i].1) && passoc_keys(s)[s.len() - 1] == (
        s.last().0,
        s.last().1,
        ));
        assert((s[i].0, s[i].1) != (s.last().0, s.last().1));
    }
}

/// Updating the entry at a pair's position changes the map as a
/// single insertion would.
pub proof fn lemma_passoc_update<V>(s: Seq<(usize, usize, V)>, i: int, v: V)
    requires
        passoc_keys(s).no_duplicates(),
        0 <= i < s.len(),
    ensures
        passoc_map(s.update(i, (s[i].0, s[i].1, v))) == passoc_map(s).insert((s[i].0, s[i].1), v),
        passoc_keys(s.update(i, (s[i].0, s[i].1, v))) == passoc_keys(s),
    decreases s.len(),
{
    let k = (s[i].0, s[i].1);
    let s2 = s.update(i, (s[i].0, s[i].1, v));
    assert(passoc_keys(s2) =~= passoc_keys(s));
    if i == s.len() - 1 {
        assert(s2.drop_last() =~= s.drop_last());
        assert(s2.last() == (s[i].0, s[i].1, v));
        assert(passoc_map(s2) =~= passoc_map(s).insert(k, v));
    } else {
        let d = s.drop_last();
        assert(passoc_keys(d) =~= passoc_keys(s).drop_last());
        assert(d[i] == s[i]);
        lemma_passoc_update(d, i, v);
        assert(s2.drop_last() =~= d.update(i, (s[i].0, s[i].1, v)));
        assert(s2.last() == s.last());
        assert(passoc_keys(s)[i] == k && passoc_keys(s)[s.len() - 1] == (s.last().0, s.last().1));
        assert(k != (s.last().0, s.last().1));
        assert(passoc_map(s2) =~= passoc_map(s).insert(k, v));
    }
}

/// A duplicate-free pair-keyed list has as many entries as its map
/// has keys.
pub proof fn lemma_passoc_len<V>(s: Seq<(usize, usize, V)>)
    requires
        passoc_keys(s).no_duplicates(),
    ensures
        passoc_map(s).dom().len() == s.len(),
        passoc_map(s).dom().finite(),
{
    lemma_passoc_dom(s);
    passoc_keys(s).unique_seq_to_set();
}

/// An association map from directed vertex pairs to values, in
/// insertion order.
pub struct EdgeMap<V> {
    /// The entries: the two endpoint keys of the directed pair and
    /// the stored value; pairs are unique whenever the map is well
    /// formed.
    pub pairs: Vec<(usize, usize, V)>,
}

impl<V> EdgeMap<V> {
    /// The entries as a sequence.
    pub open spec fn kseq(self) -> Seq<(usize, usize, V)> {
        self.pairs@
    }

    /// The pair keys in insertion order.
    pub open spec fn keys(self) -> Seq<(usize, usize)> {
        passoc_keys(self.kseq())
    }

    /// The mathematical map view.
    pub open spec fn as_map(self) -> Map<(usize, usize), V> {
        passoc_map(self.kseq())
    }

    /// The pair-key set.
    pub open spec fn dom(self) -> Set<(usize, usize)> {
        self.as_map().dom()
    }

    /// Well-formedness: no directed pair is listed twice.
    pub open spec fn wf(self) -> bool {
        self.keys().no_duplicates()
    }

    /// An empty map.
    pub fn new() -> (m: Self)
        ensures
            m.kseq() == Seq::<(usize, usize, V)>::empty(),
            m.wf(),
            m.as_map() == Map::<(usize, usize), V>::empty(),
    {
        let m = EdgeMap { pairs: Vec::new() };
        proof {
            assert(m.keys() =~= Seq::<(usize, usize)>::empty());
        }
        m
    }

    /// The number of entries.
    pub fn len(&self) -> (n: usize)
        ensures
            n == self.kseq().len(),
            self.wf() ==> n == self.dom().len(),
    {
        proof {
            if self.wf() {
                lemma_passoc_len(self.kseq());
            }
        }
        self.pairs.len()
    }

    /// The position of a pair's entry, if the pair is present.
    fn find(&self, u: usize, v: usize) -> (r: Option<usize>)
        ensures
            match r {
                Some(i) => 0 <= i < self.kseq().len() && self.kseq()[i as int].0 == u
                    && self.kseq()[i as int].1 == v,
                None => !self.keys().contains((u, v)),
            },
    {
        let n = self.pairs.len();
        let mut i: usize = 0;
        while i < n
            invariant
                0 <= i <= n,
                n == self.kseq().len(),
                forall|j: int|
                    0 <= j < i ==> !(self.kseq()[j].0 == u && #[trigger] self.kseq()[j].1 == v),
            decreases n - i,
        {
            if self.pairs[i].0 == u && self.pairs[i].1 == v {
                return Some(i);
            }
            i += 1;
        }
        proof {
            assert forall|j: int| 0 <= j < self.keys().len() implies self.keys()[j] != (u, v) by {
                assert(!(self.kseq()[j].0 == u && self.kseq()[j].1 == v));
            }
        }
        None
    }

    /// Whether a directed pair is present.
    pub fn contains_pair(&self, u: usize, v: usize) -> (b: bool)
        ensures
            b == self.dom().contains((u, v)),
    {
        proof {
            lemma_passoc_dom(self.kseq());
        }
        match self.find(u, v) {
            Some(i) => {
                proof {
                    assert(self.keys()[i as int] == (u, v));
                    assert(self.keys().to_set().contains((u, v)));
                }
                true
            },
            None => {
                proof {
                    if self.keys().to_set().contains((u, v)) {
                        assert(self.keys().contains((u, v)));
                    }
                }
                false
            },
        }
    }

    /// The value stored under a directed pair, if any.
    pub fn get(&self, u: usize, v: usize) -> (r: Option<&V>)
        requires
            self.wf(),
        ensures
            match r {
                Some(w) => self.dom().contains((u, v)) && *w == self.as_map()[(u, v)],
                None => !self.dom().contains((u, v)),
            },
    {
        proof {
            lemma_passoc_dom(self.kseq());
        }
        match self.find(u, v) {
            Some(i) => {
                proof {
                    lemma_passoc_get(self.kseq(), i as int);
                }
                Some(&self.pairs[i].2)
            },
            None => {
                proof {
                    if self.keys().to_set().contains((u, v)) {
                        assert(self.keys().contains((u, v)));
                    }
                }
                None
            },
        }
    }

    /// Inserts a value under a directed pair; an existing entry for
    /// the pair is overwritten in place, otherwise the entry is
    /// appended.
    pub fn insert(&mut self, u: usize, v: usize, val: V)
        requires
            old(self).wf(),
        ensures
            final(self).wf(),
            final(self).as_map() == old(self).as_map().insert((u, v), val),
            final(self).keys() == if old(self).dom().contains((u, v)) {
                old(self).keys()
            } else {
                old(self).keys().push((u, v))
            },
    {
        proof {
            lemma_passoc_dom(self.kseq());
        }
        match self.find(u, v) {
            Some(i) => {
                proof {
                    assert(self.keys()[i as int] == (u, v));
                    assert(self.keys().to_set().contains((u, v)));
                    lemma_passoc_update(self.kseq(), i as int, val);
                }
                self.pairs[i] = (u, v, val);
            },
            None => {
                proof {
                    if self.keys().to_set().contains((u, v)) {
                        assert(self.keys().contains((u, v)));
                    }
                }
                self.pairs.push((u, v, val));
                proof {
                    assert(final(self).kseq().drop_last() =~= old(self).kseq());
                    assert(final(self).keys() =~= old(self).keys().push((u, v)));
                }
            },
        }
    }


    /// Whether no directed pair is listed twice.
    pub fn check_wf(&self) -> (b: bool)
        ensures
            b == self.wf(),
    {
        let n = self.pairs.len();
        let mut i: usize = 0;
        while i < n
            invariant
                0 <= i <= n,
                n == self.kseq().len(),
                forall|a: int, b0: int|
                    0 <= a < b0 < i ==> self.keys()[a] != self.keys()[b0],
            decreases n - i,
        {
            let mut j: usize = 0;
            while j < i
                invariant
                    0 <= j <= i < n,
                    n == self.kseq().len(),
                    forall|a: int, b0: int|
                        0 <= a < b0 < i ==> self.keys()[a] != self.keys()[b0],
                    forall|a: int| 0 <= a < j ==> self.keys()[a] != self.keys()[i as int],
                decreases i - j,
            {
                if self.pairs[j].0 == self.pairs[i].0 && self.pairs[j].1 == self.pairs[i].1 {
                    proof {
                        assert(self.keys()[j as int] == self.keys()[i as int]);
                        assert(!self.keys().no_duplicates());
                    }
                    return false;
                }
                proof {
                    assert(self.keys()[j as int] != self.keys()[i as int]);
                }
                j += 1;
            }
            i += 1;
        }
        proof {
            assert forall|a: int, b0: int|
                0 <= a < self.keys().len() && 0 <= b0 < self.keys().len() && a
                    != b0 implies self.keys()[a] != self.keys()[b0] by {
                if a < b0 {
                } else {
                }
            }
        }
        true
    }

    /// Removes every entry.
    pub fn clear(&mut self)
        ensures
            final(self).kseq() == Seq::<(usize, usize, V)>::empty(),
            final(self).wf(),
            final(self).as_map() == Map::<(usize, usize), V>::empty(),
    {
        self.pairs.clear();
        proof {
            assert(final(self).keys() =~= Seq::<(usize, usize)>::empty());
        }
    }

    /// The entry at a position, as endpoint keys and a reference to
    /// the value.
    pub fn entry_at(&self, i: usize) -> (e: (usize, usize, &V))
        requires
            i < self.kseq().len(),
        ensures
            e.0 == self.kseq()[i as int].0,
            e.1 == self.kseq()[i as int].1,
            *e.2 == self.kseq()[i as int].2,
            self.wf() ==> self.dom().contains((e.0, e.1)) && *e.2 == self.as_map()[(e.0, e.1)],
    {
        proof {
            if self.wf() {
                lemma_passoc_get(self.kseq(), i as int);
            }
        }
        let p = &self.pairs[i];
        (p.0, p.1, &p.2)
    }
}

} // verus!
