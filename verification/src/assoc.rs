//! A map from string keys to values, kept as a vector of entries with
//! pairwise-distinct keys. Its view is a `Map` from the keys' character
//! sequences to the values' deep views, which the synchronization contracts
//! are stated over.
use vstd::prelude::*;
use crate::strutil::str_eq;

verus! {

pub struct AssocMap<V> {
    entries: Vec<(String, V)>,
}

impl<V: DeepView> View for AssocMap<V> {
    type V = Map<Seq<char>, V::V>;

    closed spec fn view(&self) -> Map<Seq<char>, V::V> {
        Self::map_of(self.entries@)
    }
}

impl<V: DeepView> AssocMap<V> {
    /// The keys' views, in entry order.
    pub closed spec fn kseq(self) -> Seq<Seq<char>> {
        self.entries@.map_values(|e: (String, V)| e.0@)
    }

    /// The values' deep views, in entry order.
    pub closed spec fn vseq(self) -> Seq<V::V> {
        self.entries@.map_values(|e: (String, V)| e.1.deep_view())
    }

    /// Well-formed: no key occurs twice.
    pub open spec fn wf(self) -> bool {
        forall|i: int, j: int|
            0 <= i < j < self.kseq().len() ==> self.kseq()[i] != self.kseq()[j]
    }

    spec fn map_of(es: Seq<(String, V)>) -> Map<Seq<char>, V::V>
        decreases es.len(),
    {
        if es.len() == 0 {
            Map::empty()
        } else {
            Self::map_of(es.drop_last()).insert(es.last().0@, es.last().1.deep_view())
        }
    }

    proof fn lemma_map_of_contains(es: Seq<(String, V)>, k: Seq<char>)
        ensures
            Self::map_of(es).contains_key(k) <==> exists|i: int|
                0 <= i < es.len() && #[trigger] es[i].0@ == k,
        decreases es.len(),
    {
        if es.len() > 0 {
            Self::lemma_map_of_contains(es.drop_last(), k);
            if es.last().0@ == k {
                assert(es[es.len() - 1].0@ == k);
            } else {
                if Self::map_of(es).contains_key(k) {
                    let i = choose|i: int| 0 <= i < es.drop_last().len() && #[trigger] es.drop_last()[i].0@ == k;
                    assert(es[i].0@ == k);
                }
                if exists|i: int| 0 <= i < es.len() && #[trigger] es[i].0@ == k {
                    let i = choose|i: int| 0 <= i < es.len() && #[trigger] es[i].0@ == k;
                    assert(i < es.len() - 1);
                    assert(es.drop_last()[i].0@ == k);
                }
            }
        }
    }

    proof fn lemma_map_of_index(es: Seq<(String, V)>, i: int)
        requires
            0 <= i < es.len(),
            forall|j: int| i < j < es.len() ==> #[trigger] es[j].0@ != es[i].0@,
        ensures
            Self::map_of(es).contains_key(es[i].0@),
            Self::map_of(es)[es[i].0@] == es[i].1.deep_view(),
        decreases es.len(),
    {
        if i == es.len() - 1 {
        } else {
            assert(es.drop_last()[i] == es[i]);
            assert(forall|j: int| 0 <= j < es.drop_last().len() ==> es.drop_last()[j] == es[j]);
            assert(forall|j: int|
                i < j < es.drop_last().len() ==> #[trigger] es.drop_last()[j].0@
                    != es.drop_last()[i].0@);
            Self::lemma_map_of_index(es.drop_last(), i);
            assert(es.last().0@ != es[i].0@);
        }
    }

    proof fn lemma_map_of_remove(es: Seq<(String, V)>, i: int)
        requires
            0 <= i < es.len(),
            forall|p: int, q: int| 0 <= p < q < es.len() ==> #[trigger] es[p].0@ != #[trigger] es[q].0@,
        ensures
            Self::map_of(es.remove(i)) == Self::map_of(es).remove(es[i].0@),
        decreases es.len(),
    {
        let k = es[i].0@;
        if i == es.len() - 1 {
            assert(es.remove(i) =~= es.drop_last());
            Self::lemma_map_of_contains(es.drop_last(), k);
            assert(forall|j: int| 0 <= j < es.drop_last().len() ==> es.drop_last()[j] == es[j]);
            assert(!Self::map_of(es.drop_last()).contains_key(k));
            assert(Self::map_of(es).remove(k) =~= Self::map_of(es.drop_last()));
        } else {
            let es1 = es.remove(i);
            assert(es1.drop_last() =~= es.drop_last().remove(i));
            assert(es1.last() == es.last());
            assert(forall|j: int| 0 <= j < es.drop_last().len() ==> es.drop_last()[j] == es[j]);
            Self::lemma_map_of_remove(es.drop_last(), i);
            let a = Self::map_of(es.drop_last());
            let lk = es.last().0@;
            let lv = es.last().1.deep_view();
            assert(lk != k);
            assert(a.remove(k).insert(lk, lv) =~= a.insert(lk, lv).remove(k));
        }
    }

    /// Relates the entry at position `i` to the map view.
    pub proof fn lemma_entry_in_map(self, i: int)
        requires
            self.wf(),
            0 <= i < self.kseq().len(),
        ensures
            self@.contains_key(self.kseq()[i]),
            self@[self.kseq()[i]] == self.vseq()[i],
    {
        assert(forall|j: int|
            i < j < self.entries@.len() ==> #[trigger] self.entries@[j].0@ != self.entries@[i].0@)
            by {
            assert(forall|j: int|
                0 <= j < self.entries@.len() ==> self.kseq()[j] == #[trigger] self.entries@[j].0@);
        }
        Self::lemma_map_of_index(self.entries@, i);
    }

    /// Every key of the map view occurs at some entry position.
    pub proof fn lemma_contains_at(self, k: Seq<char>)
        requires
            self@.contains_key(k),
        ensures
            exists|i: int| 0 <= i < self.kseq().len() && #[trigger] self.kseq()[i] == k,
    {
        Self::lemma_map_of_contains(self.entries@, k);
        let i = choose|i: int| 0 <= i < self.entries@.len() && #[trigger] self.entries@[i].0@ == k;
        assert(self.kseq()[i] == k);
    }

    pub fn new() -> (r: Self)
        ensures
            r.wf(),
            r@ == Map::<Seq<char>, V::V>::empty(),
            r.kseq().len() == 0,
    {
        AssocMap { entries: Vec::new() }
    }

    /// Number of entries, which equals the number of distinct keys.
    pub fn num_entries(&self) -> (r: usize)
        ensures
            r == self.kseq().len(),
            r == self.vseq().len(),
    {
        self.entries.len()
    }

    /// The key at entry position `i`.
    pub fn key_at(&self, i: usize) -> (r: &String)
        requires
            i < self.kseq().len(),
        ensures
            r@ == self.kseq()[i as int],
    {
        &self.entries[i].0
    }

    /// The value at entry position `i`.
    pub fn val_at(&self, i: usize) -> (r: &V)
        requires
            i < self.vseq().len(),
        ensures
            r.deep_view() == self.vseq()[i as int],
    {
        &self.entries[i].1
    }

    fn find_index(&self, k: &str) -> (r: Option<usize>)
        ensures
            match r {
                Some(i) => i < self.kseq().len() && self.kseq()[i as int] == k@,
                None => forall|i: int| 0 <= i < self.kseq().len() ==> self.kseq()[i] != k@,
            },
    {
        let n = self.entries.len();
        let mut i: usize = 0;
        while i < n
            invariant
                n == self.entries@.len(),
                n == self.kseq().len(),
                i <= n,
                forall|j: int| 0 <= j < i ==> self.kseq()[j] != k@,
            decreases n - i,
        {
            if str_eq(self.entries[i].0.as_str(), k) {
                return Some(i);
            }
            i += 1;
        }
        None
    }

    pub fn contains_key(&self, k: &str) -> (r: bool)
        ensures
            r == self@.contains_key(k@),
    {
        proof {
            Self::lemma_map_of_contains(self.entries@, k@);
            assert(forall|i: int|
                0 <= i < self.entries@.len() ==> self.kseq()[i] == #[trigger] self.entries@[i].0@);
        }
        match self.find_index(k) {
            Some(_) => true,
            None => false,
        }
    }

    pub fn get(&self, k: &str) -> (r: Option<&V>)
        requires
            self.wf(),
        ensures
            match r {
                Some(v) => self@.contains_key(k@) && v.deep_view() == self@[k@],
                None => !self@.contains_key(k@),
            },
    {
        proof {
            Self::lemma_map_of_contains(self.entries@, k@);
            assert(forall|i: int|
                0 <= i < self.entries@.len() ==> self.kseq()[i] == #[trigger] self.entries@[i].0@);
        }
        match self.find_index(k) {
            Some(i) => {
                proof {
                    self.lemma_entry_in_map(i as int);
                }
                Some(&self.entries[i].1)
            },
            None => None,
        }
    }

    /// Removes the entry for `k`, if present, and returns its value.
    pub fn remove_key(&mut self, k: &str) -> (r: Option<V>)
        requires
            old(self).wf(),
        ensures
            final(self).wf(),
            final(self)@ == old(self)@.remove(k@),
            match r {
                Some(v) => old(self)@.contains_key(k@) && v.deep_view() == old(self)@[k@],
                None => !old(self)@.contains_key(k@) && final(self)@ == old(self)@,
            },
    {
        proof {
            Self::lemma_map_of_contains(self.entries@, k@);
            assert(forall|i: int|
                0 <= i < self.entries@.len() ==> self.kseq()[i] == #[trigger] self.entries@[i].0@);
        }
        match self.find_index(k) {
            Some(i) => {
                proof {
                    self.lemma_entry_in_map(i as int);
                    Self::lemma_map_of_remove(self.entries@, i as int);
                }
                let ghost old_entries = self.entries@;
                let (_, v) = self.entries.remove(i);
                proof {
                    assert(self.entries@ =~= old_entries.remove(i as int));
                    assert(self.kseq() =~= old(self).kseq().remove(i as int));
                    assert(forall|p: int|
                        0 <= p < self.kseq().len() ==> self.kseq()[p] == if p < i as int {
                            old(self).kseq()[p]
                        } else {
                            old(self).kseq()[p + 1]
                        });
                }
                Some(v)
            },
            None => {
                proof {
                    assert(!self@.contains_key(k@));
                    assert(self@.remove(k@) =~= self@);
                }
                None
            },
        }
    }

    /// Inserts or replaces the entry for `k`.
    pub fn insert(&mut self, k: String, v: V)
        requires
            old(self).wf(),
        ensures
            final(self).wf(),
            final(self)@ == old(self)@.insert(k@, v.deep_view()),
    {
        let ghost m0 = self@;
        let _ = self.remove_key(k.as_str());
        let ghost m1 = self@;
        let ghost es1 = self.entries@;
        proof {
            assert(forall|i: int|
                0 <= i < es1.len() ==> self.kseq()[i] == #[trigger] es1[i].0@);
            Self::lemma_map_of_contains(es1, k@);
        }
        self.entries.push((k, v));
        proof {
            assert(self.entries@.drop_last() =~= es1);
            assert(self@ == m1.insert(k@, v.deep_view()));
            assert(m1.insert(k@, v.deep_view()) =~= m0.insert(k@, v.deep_view()));
            // Well-formedness: the new key differs from all remaining keys.
            assert(forall|i: int|
                0 <= i < es1.len() ==> #[trigger] self.kseq()[i] == es1[i].0@) by {
                assert(forall|i: int|
                    0 <= i < es1.len() ==> self.entries@[i] == es1[i]);
            }
            assert(!m1.contains_key(k@));
            assert(forall|i: int| 0 <= i < es1.len() ==> es1[i].0@ != k@);
            assert(self.kseq()[self.kseq().len() - 1] == k@);
        }
    }
}

} // verus!
