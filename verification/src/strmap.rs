//! A small verified map from byte-string keys to values, used for the
//! macro table, label registry, citation table, footnote table and the
//! numbering side-tables.
//!
//! The map is an association list; the first entry with a given key wins.
//! Its primary model is the ordered sequence of entries (`pairs`), and its
//! `view` is the induced `Map<Seq<u8>, V::V>`.

use vstd::prelude::*;

verus! {

/// Look a key up in an association sequence (first match wins).
pub open spec fn assoc_get<W>(s: Seq<(Seq<u8>, W)>, k: Seq<u8>) -> Option<W>
    decreases s.len(),
{
    if s.len() == 0 {
        Option::None
    } else if s.first().0 == k {
        Option::Some(s.first().1)
    } else {
        assoc_get(s.drop_first(), k)
    }
}

/// Replace the first entry with key `k`, or append a new entry.
pub open spec fn assoc_put<W>(s: Seq<(Seq<u8>, W)>, k: Seq<u8>, v: W) -> Seq<(Seq<u8>, W)>
    decreases s.len(),
{
    if s.len() == 0 {
        seq![(k, v)]
    } else if s.first().0 == k {
        seq![(k, v)] + s.drop_first()
    } else {
        seq![s.first()] + assoc_put(s.drop_first(), k, v)
    }
}

/// The map induced by an association sequence.
pub open spec fn assoc_map<W>(s: Seq<(Seq<u8>, W)>) -> Map<Seq<u8>, W> {
    Map::new(|k: Seq<u8>| assoc_get(s, k) is Some, |k: Seq<u8>| assoc_get(s, k)->Some_0)
}

pub proof fn lemma_assoc_put_get<W>(s: Seq<(Seq<u8>, W)>, k: Seq<u8>, v: W, k2: Seq<u8>)
    ensures
        assoc_get(assoc_put(s, k, v), k2) == if k2 == k {
            Option::Some(v)
        } else {
            assoc_get(s, k2)
        },
    decreases s.len(),
{
    if s.len() == 0 {
        let t = seq![(k, v)];
        assert(assoc_put(s, k, v) == t);
        assert(t.first() == (k, v));
        assert(t.drop_first().len() == 0);
        assert(assoc_get(t.drop_first(), k2) is None);
    } else if s.first().0 == k {
        let t = seq![(k, v)] + s.drop_first();
        assert(t.first() == (k, v));
        assert(t.drop_first() =~= s.drop_first());
    } else {
        let t = seq![s.first()] + assoc_put(s.drop_first(), k, v);
        assert(t.first() == s.first());
        assert(t.drop_first() =~= assoc_put(s.drop_first(), k, v));
        lemma_assoc_put_get(s.drop_first(), k, v, k2);
    }
}

/// A map from byte strings to values of type `V`.
#[derive(Debug, Clone, PartialEq, Eq)]
pub struct StrMap<V> {
    entries: Vec<(Vec<u8>, V)>,
}

impl<V: DeepView> StrMap<V> {
    /// The ordered entry sequence, with keys and values viewed.
    pub closed spec fn pairs(&self) -> Seq<(Seq<u8>, V::V)> {
        Seq::new(self.entries@.len(), |i: int| (self.entries@[i].0@, self.entries@[i].1.deep_view()))
    }

    pub fn new() -> (r: Self)
        ensures
            r.pairs() == Seq::<(Seq<u8>, V::V)>::empty(),
            r@ == Map::<Seq<u8>, V::V>::empty(),
    {
        let r = StrMap { entries: Vec::new() };
        proof {
            assert(r.pairs() =~= Seq::<(Seq<u8>, V::V)>::empty());
            assert(r@ =~= Map::<Seq<u8>, V::V>::empty());
        }
        r
    }

    pub fn len(&self) -> (r: usize)
        ensures
            r == self.pairs().len(),
    {
        self.entries.len()
    }

    pub fn key_at(&self, i: usize) -> (r: &Vec<u8>)
        requires
            i < self.pairs().len(),
        ensures
            r@ == self.pairs()[i as int].0,
    {
        &self.entries[i].0
    }

    pub fn val_at(&self, i: usize) -> (r: &V)
        requires
            i < self.pairs().len(),
        ensures
            r.deep_view() == self.pairs()[i as int].1,
    {
        &self.entries[i].1
    }

    pub fn get(&self, k: &[u8]) -> (r: Option<&V>)
        ensures
            match r {
                Option::Some(v) => self@.contains_key(k@) && v.deep_view() == self@[k@],
                Option::None => !self@.contains_key(k@),
            },
    {
        let mut i: usize = 0;
        while i < self.entries.len()
            invariant
                0 <= i <= self.entries@.len(),
                forall|j: int| 0 <= j < i ==> self.pairs()[j].0 != k@,
            decreases self.entries@.len() - i,
        {
            if crate::text::eq_bytes(self.entries[i].0.as_slice(), k) {
                proof {
                    self.lemma_get_at(i as int, k@);
                }
                return Option::Some(&self.entries[i].1);
            }
            i += 1;
        }
        proof {
            self.lemma_get_none(k@);
        }
        Option::None
    }

    pub fn contains_key(&self, k: &[u8]) -> (r: bool)
        ensures
            r == self@.contains_key(k@),
    {
        self.get(k).is_some()
    }

    pub fn insert(&mut self, k: Vec<u8>, v: V)
        ensures
            final(self).pairs() == assoc_put(old(self).pairs(), k@, v.deep_view()),
            final(self)@ == old(self)@.insert(k@, v.deep_view()),
    {
        let ghost opairs = self.pairs();
        let ghost kv = (k@, v.deep_view());
        match self.find_idx(k.as_slice()) {
            Option::Some(i) => {
                self.entries.remove(i);
                self.entries.insert(i, (k, v));
                proof {
                    assert(self.pairs() =~= opairs.update(i as int, kv));
                    Self::lemma_put_is_update(opairs, kv.0, kv.1, i as int);
                }
            },
            Option::None => {
                self.entries.push((k, v));
                proof {
                    assert(self.pairs() =~= opairs.push(kv));
                    Self::lemma_put_is_push(opairs, kv.0, kv.1);
                }
            },
        }
        proof {
            assert forall|k2: Seq<u8>|
                #[trigger] assoc_get(self.pairs(), k2) == if k2 == kv.0 {
                    Option::Some(kv.1)
                } else {
                    assoc_get(opairs, k2)
                } by {
                lemma_assoc_put_get(opairs, kv.0, kv.1, k2);
            }
            assert(self@ =~= old(self)@.insert(kv.0, kv.1));
        }
    }

    fn find_idx(&self, k: &[u8]) -> (r: Option<usize>)
        ensures
            match r {
                Option::Some(i) => i < self.pairs().len() && self.pairs()[i as int].0 == k@
                    && forall|j: int| 0 <= j < i ==> self.pairs()[j].0 != k@,
                Option::None => forall|j: int|
                    0 <= j < self.pairs().len() ==> self.pairs()[j].0 != k@,
            },
    {
        let mut i: usize = 0;
        while i < self.entries.len()
            invariant
                0 <= i <= self.entries@.len(),
                forall|j: int| 0 <= j < i ==> self.pairs()[j].0 != k@,
            decreases self.entries@.len() - i,
        {
            if crate::text::eq_bytes(self.entries[i].0.as_slice(), k) {
                return Option::Some(i);
            }
            i += 1;
        }
        Option::None
    }

    proof fn lemma_get_at(&self, i: int, k: Seq<u8>)
        requires
            0 <= i < self.pairs().len(),
            self.pairs()[i].0 == k,
            forall|j: int| 0 <= j < i ==> self.pairs()[j].0 != k,
        ensures
            self@.contains_key(k),
            self@[k] == self.pairs()[i].1,
    {
        Self::lemma_assoc_get_at(self.pairs(), i, k);
    }

    proof fn lemma_assoc_get_at(s: Seq<(Seq<u8>, V::V)>, i: int, k: Seq<u8>)
        requires
            0 <= i < s.len(),
            s[i].0 == k,
            forall|j: int| 0 <= j < i ==> s[j].0 != k,
        ensures
            assoc_get(s, k) == Option::Some(s[i].1),
        decreases s.len(),
    {
        if i == 0 {
        } else {
            Self::lemma_assoc_get_at(s.drop_first(), i - 1, k);
        }
    }

    proof fn lemma_get_none(&self, k: Seq<u8>)
        requires
            forall|j: int| 0 <= j < self.pairs().len() ==> self.pairs()[j].0 != k,
        ensures
            !self@.contains_key(k),
    {
        Self::lemma_assoc_get_none(self.pairs(), k);
    }

    proof fn lemma_assoc_get_none(s: Seq<(Seq<u8>, V::V)>, k: Seq<u8>)
        requires
            forall|j: int| 0 <= j < s.len() ==> s[j].0 != k,
        ensures
            assoc_get(s, k) is None,
        decreases s.len(),
    {
        if s.len() > 0 {
            Self::lemma_assoc_get_none(s.drop_first(), k);
        }
    }

    proof fn lemma_put_is_update(s: Seq<(Seq<u8>, V::V)>, k: Seq<u8>, v: V::V, i: int)
        requires
            0 <= i < s.len(),
            s[i].0 == k,
            forall|j: int| 0 <= j < i ==> s[j].0 != k,
        ensures
            assoc_put(s, k, v) == s.update(i, (k, v)),
        decreases s.len(),
    {
        if i == 0 {
            assert(assoc_put(s, k, v) =~= s.update(0, (k, v)));
        } else {
            Self::lemma_put_is_update(s.drop_first(), k, v, i - 1);
            assert(assoc_put(s, k, v) =~= s.update(i, (k, v))) by {
                assert(assoc_put(s.drop_first(), k, v) == s.drop_first().update(i - 1, (k, v)));
                assert(s.update(i, (k, v)).first() == s.first());
                assert(s.update(i, (k, v)).drop_first() =~= s.drop_first().update(i - 1, (k, v)));
            }
        }
    }

    pub proof fn lemma_put_is_push(s: Seq<(Seq<u8>, V::V)>, k: Seq<u8>, v: V::V)
        requires
            forall|j: int| 0 <= j < s.len() ==> s[j].0 != k,
        ensures
            assoc_put(s, k, v) == s.push((k, v)),
        decreases s.len(),
    {
        if s.len() == 0 {
            assert(assoc_put(s, k, v) =~= s.push((k, v)));
        } else {
            Self::lemma_put_is_push(s.drop_first(), k, v);
            assert(assoc_put(s, k, v) =~= s.push((k, v))) by {
                assert(s.push((k, v)).first() == s.first());
                assert(s.push((k, v)).drop_first() =~= s.drop_first().push((k, v)));
            }
        }
    }
}

impl<V: DeepView> View for StrMap<V> {
    type V = Map<Seq<u8>, V::V>;

    open spec fn view(&self) -> Map<Seq<u8>, V::V> {
        assoc_map(self.pairs())
    }
}

} // verus!
