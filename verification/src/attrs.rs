//! Sparse, caller-populated attribute lists.
//!
//! An attribute list maps attribute names to 64-bit scalar payloads.
//! The kernel never interprets a payload; callers conventionally
//! store a fixed-width scalar encoding in it.

use vstd::prelude::*;
use vstd::seq_lib::*;
use vstd::string::StrSliceExecFns;

verus! {

/// The mathematical map described by a name-keyed association list:
/// later entries win, as with repeated map insertion.
pub open spec fn attr_assoc_map(s: Seq<(String, u64)>) -> Map<Seq<char>, u64>
    decreases s.len(),
{
    if s.len() == 0 {
        Map::empty()
    } else {
        attr_assoc_map(s.drop_last()).insert(s.last().0@, s.last().1)
    }
}

/// The attribute names of the list, in list order.
pub open spec fn attr_assoc_keys(s: Seq<(String, u64)>) -> Seq<Seq<char>> {
    s.map_values(|p: (String, u64)| p.0@)
}

/// The domain of the map of a name-keyed list is exactly the set of
/// its listed names.
pub proof fn lemma_attr_assoc_dom(s: Seq<(String, u64)>)
    ensures
        attr_assoc_map(s).dom() == attr_assoc_keys(s).to_set(),
    decreases s.len(),
{
    if s.len() == 0 {
        assert(attr_assoc_map(s).dom() =~= attr_assoc_keys(s).to_set());
    } else {
        let d = s.drop_last();
        lemma_attr_assoc_dom(d);
        assert forall|k: Seq<char>| attr_assoc_map(s).dom().contains(k) implies attr_assoc_keys(
            s,
        ).to_set().contains(k) by {
            if k == s.last().0@ {
                assert(attr_assoc_keys(s)[s.len() - 1] == k);
            } else {
                assert(attr_assoc_keys(d).to_set().contains(k));
                let j = choose|j: int|
                    0 <= j < attr_assoc_keys(d).len() && attr_assoc_keys(d)[j] == k;
                assert(attr_assoc_keys(s)[j] == k);
            }
        }
        assert forall|k: Seq<char>| attr_assoc_keys(s).to_set().contains(k) implies attr_assoc_map(
            s,
        ).dom().contains(k) by {
            let j = choose|j: int| 0 <= j < attr_assoc_keys(s).len() && attr_assoc_keys(s)[j] == k;
            if j == s.len() - 1 {
                assert(k == s.last().0@);
            } else {
                assert(attr_assoc_keys(d)[j] == k);
                assert(attr_assoc_keys(d).to_set().contains(k));
            }
        }
        assert(attr_assoc_map(s).dom() =~= attr_assoc_keys(s).to_set());
    }
}

/// In a duplicate-free name-keyed list every listed entry is the one
/// the map returns for its name.
pub proof fn lemma_attr_assoc_get(s: Seq<(String, u64)>, i: int)
    requires
        attr_assoc_keys(s).no_duplicates(),
        0 <= i < s.len(),
    ensures
        attr_assoc_map(s).dom().contains(s[i].0@),
        attr_assoc_map(s)[s[i].0@] == s[i].1,
    decreases s.len(),
{
    if i == s.len() - 1 {
    } else {
        let d = s.drop_last();
        assert(attr_assoc_keys(d) =~= attr_assoc_keys(s).drop_last());
        assert(d[i] == s[i]);
        lemma_attr_assoc_get(d, i);
        assert(attr_assoc_keys(s)[i] == s[i].0@ && attr_assoc_keys(s)[s.len() - 1] == s.last().0@);
        assert(s[i].0@ != s.last().0@);
    }
}

/// Updating the entry at a name's position changes the map as a
/// single insertion would.
pub proof fn lemma_attr_assoc_update(s: Seq<(String, u64)>, i: int, name: String, v: u64)
    requires
        attr_assoc_keys(s).no_duplicates(),
        0 <= i < s.len(),
        name@ == s[i].0@,
    ensures
        attr_assoc_map(s.update(i, (name, v))) == attr_assoc_map(s).insert(name@, v),
        attr_assoc_keys(s.update(i, (name, v))) == attr_assoc_keys(s),
    decreases s.len(),
{
    let s2 = s.update(i, (name, v));
    assert(attr_assoc_keys(s2) =~= attr_assoc_keys(s));
    if i == s.len() - 1 {
        assert(s2.drop_last() =~= s.drop_last());
        assert(s2.last() == (name, v));
        assert(attr_assoc_map(s2) =~= attr_assoc_map(s).insert(name@, v));
    } else {
        let d = s.drop_last();
        assert(attr_assoc_keys(d) =~= attr_assoc_keys(s).drop_last());
        assert(d[i] == s[i]);
        lemma_attr_assoc_update(d, i, name, v);
        assert(s2.drop_last() =~= d.update(i, (name, v)));
        assert(s2.last() == s.last());
        assert(attr_assoc_keys(s)[i] == s[i].0@ && attr_assoc_keys(s)[s.len() - 1] == s.last().0@);
        assert(s[i].0@ != s.last().0@);
        assert(attr_assoc_map(s2) =~= attr_assoc_map(s).insert(name@, v));
    }
}

/// A duplicate-free name-keyed list has as many entries as its map
/// has names.
pub proof fn lemma_attr_assoc_len(s: Seq<(String, u64)>)
    requires
        attr_assoc_keys(s).no_duplicates(),
    ensures
        attr_assoc_map(s).dom().len() == s.len(),
        attr_assoc_map(s).dom().finite(),
{
    lemma_attr_assoc_dom(s);
    attr_assoc_keys(s).unique_seq_to_set();
}

/// A sparse attribute list: named 64-bit scalar payloads, kept in
/// insertion order.
pub struct AttrList {
    /// The entries, each a name with its payload; names are unique
    /// whenever the list is well formed.
    pub entries: Vec<(String, u64)>,
}

impl AttrList {
    /// The entries as a sequence.
    pub open spec fn kseq(self) -> Seq<(String, u64)> {
        self.entries@
    }

    /// The attribute names in insertion order.
    pub open spec fn names(self) -> Seq<Seq<char>> {
        attr_assoc_keys(self.kseq())
    }

    /// The mathematical map view, from names to payloads.
    pub open spec fn as_map(self) -> Map<Seq<char>, u64> {
        attr_assoc_map(self.kseq())
    }

    /// Well-formedness: no name is listed twice.
    pub open spec fn wf(self) -> bool {
        self.names().no_duplicates()
    }

    /// An empty attribute list.
    pub fn new() -> (a: Self)
        ensures
            a.kseq() == Seq::<(String, u64)>::empty(),
            a.wf(),
            a.as_map() == Map::<Seq<char>, u64>::empty(),
    {
        let a = AttrList { entries: Vec::new() };
        proof {
            assert(a.names() =~= Seq::<Seq<char>>::empty());
        }
        a
    }

    /// The number of attributes.
    pub fn len(&self) -> (n: usize)
        ensures
            n == self.kseq().len(),
            self.wf() ==> n == self.as_map().dom().len(),
    {
        proof {
            if self.wf() {
                lemma_attr_assoc_len(self.kseq());
            }
        }
        self.entries.len()
    }

    /// The position of a name's entry, if the name is present.
    fn find(&self, name: &str) -> (r: Option<usize>)
        ensures
            match r {
                Some(i) => 0 <= i < self.kseq().len() && self.kseq()[i as int].0@ == name@,
                None => !self.names().contains(name@),
            },
    {
        let key: String = name.to_owned();
        let n = self.entries.len();
        let mut i: usize = 0;
        while i < n
            invariant
                0 <= i <= n,
                n == self.kseq().len(),
                key@ == name@,
                forall|j: int| 0 <= j < i ==> self.kseq()[j].0@ != name@,
            decreases n - i,
        {
            if self.entries[i].0 == key {
                return Some(i);
            }
            i += 1;
        }
        proof {
            assert forall|j: int| 0 <= j < self.names().len() implies self.names()[j] != name@ by {
                assert(self.kseq()[j].0@ != name@);
            }
        }
        None
    }

    /// The payload stored under a name, if any.
    pub fn get(&self, name: &str) -> (r: Option<u64>)
        requires
            self.wf(),
        ensures
            r == if self.as_map().dom().contains(name@) {
                Some(self.as_map()[name@])
            } else {
                None::<u64>
            },
    {
        proof {
            lemma_attr_assoc_dom(self.kseq());
        }
        match self.find(name) {
            Some(i) => {
                proof {
                    lemma_attr_assoc_get(self.kseq(), i as int);
                }
                Some(self.entries[i].1)
            },
            None => {
                proof {
                    if self.names().to_set().contains(name@) {
                        assert(self.names().contains(name@));
                    }
                }
                None
            },
        }
    }

    /// Stores a payload under a name, replacing any previous payload
    /// for that name.
    pub fn set(&mut self, name: &str, value: u64)
        requires
            old(self).wf(),
        ensures
            final(self).wf(),
            final(self).as_map() == old(self).as_map().insert(name@, value),
            final(self).names() == if old(self).names().contains(name@) {
                old(self).names()
            } else {
                old(self).names().push(name@)
            },
    {
        let key: String = name.to_owned();
        match self.find(name) {
            Some(i) => {
                proof {
                    lemma_attr_assoc_update(self.kseq(), i as int, key, value);
                    assert(self.names()[i as int] == name@);
                }
                self.entries[i] = (key, value);
            },
            None => {
                self.entries.push((key, value));
                proof {
                    assert(final(self).kseq().drop_last() =~= old(self).kseq());
                    assert(final(self).names() =~= old(self).names().push(name@));
                }
            },
        }
    }

    /// The entry at a position, as its name and payload.
    pub fn entry_at(&self, i: usize) -> (e: (&String, u64))
        requires
            i < self.kseq().len(),
        ensures
            e.0@ == self.names()[i as int],
            e.1 == self.kseq()[i as int].1,
            self.wf() ==> self.as_map().dom().contains(e.0@) && e.1 == self.as_map()[e.0@],
    {
        proof {
            if self.wf() {
                lemma_attr_assoc_get(self.kseq(), i as int);
            }
        }
        let p = &self.entries[i];
        (&p.0, p.1)
    }


    /// Whether no attribute name is listed twice.
    pub fn check_wf(&self) -> (b: bool)
        ensures
            b == self.wf(),
    {
        let n = self.entries.len();
        let mut i: usize = 0;
        while i < n
            invariant
                0 <= i <= n,
                n == self.kseq().len(),
                forall|a: int, b0: int|
                    0 <= a < b0 < i ==> self.names()[a] != self.names()[b0],
            decreases n - i,
        {
            let mut j: usize = 0;
            while j < i
                invariant
                    0 <= j <= i < n,
                    n == self.kseq().len(),
                    forall|a: int, b0: int|
                        0 <= a < b0 < i ==> self.names()[a] != self.names()[b0],
                    forall|a: int| 0 <= a < j ==> self.names()[a] != self.names()[i as int],
                decreases i - j,
            {
                if self.entries[j].0 == self.entries[i].0 {
                    proof {
                        assert(self.names()[j as int] == self.names()[i as int]);
                        assert(!self.names().no_duplicates());
                    }
                    return false;
                }
                proof {
                    assert(self.names()[j as int] != self.names()[i as int]);
                }
                j += 1;
            }
            i += 1;
        }
        proof {
            assert forall|a: int, b0: int|
                0 <= a < self.names().len() && 0 <= b0 < self.names().len() && a
                    != b0 implies self.names()[a] != self.names()[b0] by {
                if a < b0 {
                } else {
                }
            }
        }
        true
    }

    /// An independent copy with the same entries.
    pub fn duplicate(&self) -> (r: AttrList)
        ensures
            r.kseq() == self.kseq(),
    {
        let n = self.entries.len();
        let mut out: Vec<(String, u64)> = Vec::new();
        let mut i: usize = 0;
        while i < n
            invariant
                0 <= i <= n,
                n == self.kseq().len(),
                out@.len() == i,
                forall|j: int| 0 <= j < i ==> out@[j] == self.kseq()[j],
            decreases n - i,
        {
            let name = self.entries[i].0.clone();
            let value = self.entries[i].1;
            out.push((name, value));
            i += 1;
        }
        let r = AttrList { entries: out };
        proof {
            assert(r.kseq() =~= self.kseq());
        }
        r
    }
}

} // verus!
