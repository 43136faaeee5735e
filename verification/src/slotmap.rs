//! A small verified map from slot numbers to values, kept as an association
//! list with pairwise-distinct keys. It stands in for a hash map where the
//! protocol logic must also walk all entries in a fixed order.

use vstd::prelude::*;

verus! {

/// A map from `usize` keys to values of type `T`, abstracted as a
/// `Map<int, T>`. Entries keep their insertion order, so the protocol code
/// can iterate deterministically with `key_at`/`val_at`.
#[derive(Debug)]
pub struct SlotMap<T> {
    entries: Vec<(usize, T)>,
}

impl<T> SlotMap<T> {
    /// The entries in order: first inserted first.
    pub closed spec fn entries_seq(&self) -> Seq<(usize, T)> {
        self.entries@
    }

    /// Keys are pairwise distinct.
    pub open spec fn wf(&self) -> bool {
        forall|i: int, j: int|
            0 <= i < j < self.entries_seq().len()
                ==> (#[trigger] self.entries_seq()[i]).0 != (#[trigger] self.entries_seq()[j]).0
    }

    /// Some entry carries key `k`.
    pub open spec fn contains_spec(&self, k: int) -> bool {
        exists|i: int|
            0 <= i < self.entries_seq().len() && (#[trigger] self.entries_seq()[i]).0 == k
    }

    /// The position of the entry with key `k`, if any.
    pub closed spec fn idx_of(&self, k: int) -> int {
        choose|i: int|
            0 <= i < self.entries_seq().len() && (#[trigger] self.entries_seq()[i]).0 == k
    }

    /// With distinct keys, an entry's position is determined by its key.
    pub proof fn lemma_key_unique(&self, i: int, j: int)
        requires
            self.wf(),
            0 <= i < self.entries_seq().len(),
            0 <= j < self.entries_seq().len(),
            self.entries_seq()[i].0 == self.entries_seq()[j].0,
        ensures
            i == j,
    {
        if i < j {
            assert(self.entries_seq()[i].0 != self.entries_seq()[j].0);
        } else if j < i {
            assert(self.entries_seq()[j].0 != self.entries_seq()[i].0);
        }
    }

    /// Every key of the abstract map has a unique entry, found at `idx_of`.
    pub proof fn lemma_idx_of(&self, k: int)
        requires
            self.wf(),
            self@.contains_key(k),
        ensures
            0 <= self.idx_of(k) < self.entries_seq().len(),
            self.entries_seq()[self.idx_of(k)].0 == k,
            self.entries_seq()[self.idx_of(k)].1 == self@[k],
    {
        assert(self.contains_spec(k));
    }

    /// Every entry is in the abstract map, at its own key.
    pub proof fn lemma_entry(&self, i: int)
        requires
            self.wf(),
            0 <= i < self.entries_seq().len(),
        ensures
            self@.contains_key(self.entries_seq()[i].0 as int),
            self@[self.entries_seq()[i].0 as int] == self.entries_seq()[i].1,
    {
        let k = self.entries_seq()[i].0 as int;
        assert(self.contains_spec(k));
        self.lemma_key_unique(i, self.idx_of(k));
    }

    /// An empty map.
    pub fn new() -> (r: SlotMap<T>)
        ensures
            r.wf(),
            r@ == Map::<int, T>::empty(),
            r.entries_seq() == Seq::<(usize, T)>::empty(),
    {
        let r = SlotMap { entries: Vec::new() };
        proof {
            assert(r@ =~= Map::<int, T>::empty());
        }
        r
    }

    /// How many entries the map holds.
    pub fn len(&self) -> (r: usize)
        ensures
            r == self.entries_seq().len(),
    {
        self.entries.len()
    }

    /// The key of the `i`-th entry.
    pub fn key_at(&self, i: usize) -> (r: usize)
        requires
            i < self.entries_seq().len(),
        ensures
            r == self.entries_seq()[i as int].0,
    {
        self.entries[i].0
    }

    /// The value of the `i`-th entry.
    pub fn val_at(&self, i: usize) -> (r: &T)
        requires
            i < self.entries_seq().len(),
        ensures
            *r == self.entries_seq()[i as int].1,
    {
        &self.entries[i].1
    }

    /// The position of the entry with key `k`, if one exists.
    fn find(&self, k: usize) -> (r: Option<usize>)
        ensures
            match r {
                Some(i) => i < self.entries_seq().len() && self.entries_seq()[i as int].0 == k,
                None => !self.contains_spec(k as int),
            },
    {
        let n = self.entries.len();
        let mut i: usize = 0;
        while i < n
            invariant
                i <= n,
                n == self.entries_seq().len(),
                forall|j: int| 0 <= j < i ==> (#[trigger] self.entries_seq()[j]).0 != k,
            decreases n - i,
        {
            if self.entries[i].0 == k {
                return Some(i);
            }
            i = i + 1;
        }
        None
    }

    /// Look the key up in the abstract map.
    pub fn get(&self, k: usize) -> (r: Option<&T>)
        requires
            self.wf(),
        ensures
            match r {
                Some(v) => self@.contains_key(k as int) && *v == self@[k as int],
                None => !self@.contains_key(k as int),
            },
    {
        match self.find(k) {
            Some(i) => {
                proof {
                    self.lemma_entry(i as int);
                }
                Some(&self.entries[i].1)
            },
            None => {
                proof {
                    assert(!self@.dom().contains(k as int));
                }
                None
            },
        }
    }

    /// Insert, overwriting any entry that already carries the key.
    pub fn insert(&mut self, k: usize, v: T)
        requires
            old(self).wf(),
        ensures
            final(self).wf(),
            final(self)@ == old(self)@.insert(k as int, v),
            old(self)@.contains_key(k as int) ==> final(self).entries_seq().len() == old(
                self,
            ).entries_seq().len(),
            !old(self)@.contains_key(k as int) ==> final(self).entries_seq().len() == old(
                self,
            ).entries_seq().len() + 1,
    {
        match self.find(k) {
            Some(i) => {
                proof {
                    self.lemma_entry(i as int);
                }
                self.entries.set(i, (k, v));
                proof {
                    self.lemma_insert_found(*old(self), i as int, k, v);
                }
            },
            None => {
                self.entries.push((k, v));
                proof {
                    self.lemma_insert_fresh(*old(self), k, v);
                }
            },
        }
    }

    /// Remove the entry with the key, if any, returning its value.
    pub fn remove(&mut self, k: usize) -> (r: Option<T>)
        requires
            old(self).wf(),
        ensures
            final(self).wf(),
            final(self)@ == old(self)@.remove(k as int),
            match r {
                Some(v) => old(self)@.contains_key(k as int) && v == old(self)@[k as int],
                None => !old(self)@.contains_key(k as int) && *final(self) == *old(self),
            },
    {
        match self.find(k) {
            Some(i) => {
                proof {
                    self.lemma_entry(i as int);
                }
                let v = self.entries.remove(i);
                proof {
                    self.lemma_remove_at(*old(self), i as int, k);
                }
                Some(v.1)
            },
            None => {
                proof {
                    assert(!self@.dom().contains(k as int));
                    assert(self@ =~= self@.remove(k as int));
                }
                None
            },
        }
    }

    /// After taking the entry at `i` out, the abstract map lost its key.
    proof fn lemma_remove_at(&self, prev: Self, i: int, k: usize)
        requires
            prev.wf(),
            0 <= i < prev.entries_seq().len(),
            prev.entries_seq()[i].0 == k,
            self.entries_seq() == prev.entries_seq().remove(i),
        ensures
            self.wf(),
            self@ == prev@.remove(k as int),
    {
        let s = self.entries_seq();
        let p = prev.entries_seq();
        assert(s.len() == p.len() - 1);
        assert forall|a: int, b: int|
            0 <= a < b < s.len() implies (#[trigger] s[a]).0 != (#[trigger] s[b]).0 by {
            let a0 = if a < i {
                a
            } else {
                a + 1
            };
            let b0 = if b < i {
                b
            } else {
                b + 1
            };
            assert(s[a] == p[a0] && s[b] == p[b0]);
            assert(p[a0].0 != p[b0].0);
        }
        assert forall|k2: int| self@.contains_key(k2) implies prev@.remove(k as int).contains_key(
            k2,
        ) by {
            let j = choose|j: int| 0 <= j < s.len() && (#[trigger] s[j]).0 == k2;
            let j0 = if j < i {
                j
            } else {
                j + 1
            };
            assert(p[j0].0 == k2);
            assert(prev.contains_spec(k2));
            assert(j0 != i);
            if k2 == k as int {
                prev.lemma_key_unique(j0, i);
            }
        }
        assert forall|k2: int|
            prev@.remove(k as int).contains_key(k2) implies self@.contains_key(k2) by {
            let j0 = choose|j0: int| 0 <= j0 < p.len() && (#[trigger] p[j0]).0 == k2;
            assert(p[i].0 == k);
            assert(j0 != i);
            let j = if j0 < i {
                j0
            } else {
                j0 - 1
            };
            assert(s[j] == p[j0]);
        }
        assert forall|k2: int| #[trigger]
            self@.contains_key(k2) implies self@[k2] == prev@.remove(k as int)[k2] by {
            let j = self.idx_of(k2);
            assert(0 <= j < s.len() && s[j].0 == k2);
            let j0 = if j < i {
                j
            } else {
                j + 1
            };
            assert(s[j] == p[j0]);
            prev.lemma_entry(j0);
            prev.lemma_key_unique(j0, prev.idx_of(k2));
        }
        assert(self@ =~= prev@.remove(k as int));
    }

    /// After overwriting in place at `i`, the abstract map gained `k -> v`.
    proof fn lemma_insert_found(&self, prev: Self, i: int, k: usize, v: T)
        requires
            prev.wf(),
            0 <= i < prev.entries_seq().len(),
            prev.entries_seq()[i].0 == k,
            self.entries_seq() == prev.entries_seq().update(i, (k, v)),
        ensures
            self.wf(),
            self@ == prev@.insert(k as int, v),
    {
        assert forall|k2: int| self@.contains_key(k2) implies prev@.insert(
            k as int,
            v,
        ).contains_key(k2) by {
            let j = choose|j: int|
                0 <= j < self.entries_seq().len() && (#[trigger] self.entries_seq()[j]).0 == k2;
            if j != i {
                assert(prev.contains_spec(k2));
            }
        }
        assert forall|k2: int|
            prev@.insert(k as int, v).contains_key(k2) implies self@.contains_key(k2) by {
            if k2 == k as int {
                assert(self.entries_seq()[i].0 == k2);
            } else {
                let j = choose|j: int|
                    0 <= j < prev.entries_seq().len() && (#[trigger] prev.entries_seq()[j]).0 == k2;
                assert(self.entries_seq()[j].0 == k2);
            }
        }
        assert forall|k2: int| #[trigger]
            self@.contains_key(k2) implies self@[k2] == prev@.insert(k as int, v)[k2] by {
            let j = self.idx_of(k2);
            assert(0 <= j < self.entries_seq().len() && self.entries_seq()[j].0 == k2);
            if k2 == k as int {
                self.lemma_key_unique(j, i);
            } else {
                assert(prev.entries_seq()[j].0 == k2);
                prev.lemma_entry(j);
                prev.lemma_key_unique(j, prev.idx_of(k2));
            }
        }
        assert(self@ =~= prev@.insert(k as int, v));
    }

    /// After appending a fresh key, the abstract map gained `k -> v`.
    proof fn lemma_insert_fresh(&self, prev: Self, k: usize, v: T)
        requires
            prev.wf(),
            !prev.contains_spec(k as int),
            self.entries_seq() == prev.entries_seq().push((k, v)),
        ensures
            self.wf(),
            self@ == prev@.insert(k as int, v),
    {
        let n = prev.entries_seq().len() as int;
        assert forall|i: int, j: int|
            0 <= i < j < self.entries_seq().len() implies (#[trigger] self.entries_seq()[i]).0
            != (#[trigger] self.entries_seq()[j]).0 by {
            if j < n {
                assert(prev.entries_seq()[i].0 != prev.entries_seq()[j].0);
            } else {
                assert(prev.entries_seq()[i].0 != k);
            }
        }
        assert forall|k2: int| self@.contains_key(k2) implies prev@.insert(
            k as int,
            v,
        ).contains_key(k2) by {
            let j = choose|j: int|
                0 <= j < self.entries_seq().len() && (#[trigger] self.entries_seq()[j]).0 == k2;
            if j < n {
                assert(prev.contains_spec(k2));
            }
        }
        assert forall|k2: int|
            prev@.insert(k as int, v).contains_key(k2) implies self@.contains_key(k2) by {
            if k2 == k as int {
                assert(self.entries_seq()[n].0 == k2);
            } else {
                let j = choose|j: int|
                    0 <= j < prev.entries_seq().len() && (#[trigger] prev.entries_seq()[j]).0 == k2;
                assert(self.entries_seq()[j].0 == k2);
            }
        }
        assert forall|k2: int| #[trigger]
            self@.contains_key(k2) implies self@[k2] == prev@.insert(k as int, v)[k2] by {
            let j = self.idx_of(k2);
            assert(0 <= j < self.entries_seq().len() && self.entries_seq()[j].0 == k2);
            if k2 == k as int {
                self.lemma_key_unique(j, n);
            } else {
                assert(j < n);
                assert(prev.entries_seq()[j].0 == k2);
                prev.lemma_entry(j);
                prev.lemma_key_unique(j, prev.idx_of(k2));
            }
        }
        assert(self@ =~= prev@.insert(k as int, v));
    }
}

impl<T> View for SlotMap<T> {
    type V = Map<int, T>;

    /// The abstract map: each key maps to the value of its unique entry.
    closed spec fn view(&self) -> Map<int, T> {
        Map::new(
            |k: int| self.contains_spec(k),
            |k: int| self.entries_seq()[self.idx_of(k)].1,
        )
    }
}

} // verus!
