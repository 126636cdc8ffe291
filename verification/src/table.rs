//! A small table from keys to values, in which a key stands at most once.

use crate::bytes;
use crate::net::Endpoint;
use vstd::prelude::*;

verus! {

/// A key that can be compared.
pub trait TableKey: Copy {
    /// Whether two keys are equal.
    fn same(&self, other: &Self) -> (r: bool)
        ensures
            r == (*self == *other),
    ;
}

impl TableKey for [u8; 32] {
    fn same(&self, other: &Self) -> (r: bool) {
        let r = bytes::same_bytes(self, other);
        proof {
            if r {
                assert(*self =~= *other);
            }
        }
        r
    }
}

impl TableKey for Endpoint {
    fn same(&self, other: &Self) -> (r: bool) {
        *self == *other
    }
}

/// A table. Looking up goes through the entries one by one.
pub struct Table<K, V> {
    entries: Vec<(K, V)>,
}

impl<K, V> Table<K, V> {
    /// The entry that holds `k`, if there is one.
    spec fn position(self, k: K) -> int {
        choose|i: int| 0 <= i < self.entries@.len() && (#[trigger] self.entries@[i]).0 == k
    }

    /// Whether `k` stands in the table.
    spec fn holds(self, k: K) -> bool {
        exists|i: int| 0 <= i < self.entries@.len() && (#[trigger] self.entries@[i]).0 == k
    }

    /// The table as a map.
    pub closed spec fn view(self) -> Map<K, V> {
        Map::new(|k: K| self.holds(k), |k: K| self.entries@[self.position(k)].1)
    }

    /// No key stands twice.
    pub closed spec fn wf(self) -> bool {
        forall|i: int, j: int|
            0 <= i < j < self.entries@.len() ==> (#[trigger] self.entries@[i]).0 != (
            #[trigger] self.entries@[j]).0
    }

    proof fn lemma_at(self, i: int)
        requires
            self.wf(),
            0 <= i < self.entries@.len(),
        ensures
            self@.contains_key(self.entries@[i].0),
            self@[self.entries@[i].0] == self.entries@[i].1,
    {
        let k = self.entries@[i].0;
        assert(self.holds(k));
        let p = self.position(k);
        assert(0 <= p < self.entries@.len() && self.entries@[p].0 == k);
        assert(p == i);
    }
}

impl<K: TableKey, V: Copy> Table<K, V> {
    /// An empty table.
    pub fn new() -> (r: Self)
        ensures
            r.wf(),
            r@ == Map::<K, V>::empty(),
    {
        let r = Self { entries: Vec::new() };
        assert(r@ =~= Map::<K, V>::empty());
        r
    }

    fn find(&self, k: &K) -> (r: Option<usize>)
        requires
            self.wf(),
        ensures
            match r {
                Some(i) => i < self.entries@.len() && self.entries@[i as int].0 == *k
                    && self@.contains_key(*k) && self@[*k] == self.entries@[i as int].1,
                None => !self@.contains_key(*k),
            },
    {
        let mut i: usize = 0;
        while i < self.entries.len()
            invariant
                self.wf(),
                i <= self.entries@.len(),
                forall|j: int| 0 <= j < i ==> (#[trigger] self.entries@[j]).0 != *k,
            decreases self.entries@.len() - i,
        {
            if self.entries[i].0.same(k) {
                proof {
                    self.lemma_at(i as int);
                }
                return Some(i);
            }
            i = i + 1;
        }
        None
    }

    /// The value under a key.
    pub fn get(&self, k: &K) -> (r: Option<V>)
        requires
            self.wf(),
        ensures
            r == (if self@.contains_key(*k) {
                Some(self@[*k])
            } else {
                None
            }),
    {
        match self.find(k) {
            Some(i) => Some(self.entries[i].1),
            None => None,
        }
    }

    /// Puts a value under a key, in place of what stood there.
    pub fn insert(&mut self, k: K, v: V)
        requires
            old(self).wf(),
        ensures
            final(self).wf(),
            final(self)@ == old(self)@.insert(k, v),
    {
        let ghost before = *self;
        match self.find(&k) {
            Some(i) => {
                self.entries.set(i, (k, v));
                proof {
                    assert(self.wf());
                    self.lemma_same_as_insert(before, i as int, k, v);
                }
            },
            None => {
                self.entries.push((k, v));
                proof {
                    let n = before.entries@.len() as int;
                    assert forall|i: int, j: int|
                        0 <= i < j < self.entries@.len() implies (#[trigger] self.entries@[i]).0
                        != (#[trigger] self.entries@[j]).0 by {
                        if j == n {
                            before.lemma_at(i);
                        }
                    }
                    assert(self.wf());
                    assert forall|q: K| #[trigger]
                        self@.contains_key(q) == before@.insert(k, v).contains_key(q) by {
                        if self.holds(q) {
                            let i = self.position(q);
                            if i < n {
                                before.lemma_at(i);
                            }
                        }
                        if before@.contains_key(q) {
                            let i = before.position(q);
                            assert(self.entries@[i].0 == q);
                        }
                        if q == k {
                            assert(self.entries@[n].0 == q);
                        }
                    }
                    assert forall|q: K| #[trigger] self@.contains_key(q) implies self@[q]
                        == before@.insert(k, v)[q] by {
                        let i = self.position(q);
                        self.lemma_at(i);
                        if i < n {
                            before.lemma_at(i);
                        }
                    }
                    assert(self@ =~= before@.insert(k, v));
                }
            },
        }
    }

    proof fn lemma_same_as_insert(self, before: Self, i: int, k: K, v: V)
        requires
            before.wf(),
            self.wf(),
            0 <= i < before.entries@.len(),
            before.entries@[i].0 == k,
            self.entries@ == before.entries@.update(i, (k, v)),
        ensures
            self@ == before@.insert(k, v),
    {
        assert forall|q: K| #[trigger]
            self@.contains_key(q) == before@.insert(k, v).contains_key(q) by {
            if self.holds(q) {
                let j = self.position(q);
                before.lemma_at(j);
            }
            if before@.contains_key(q) {
                let j = before.position(q);
                assert(self.entries@[j].0 == q);
            }
            if q == k {
                assert(self.entries@[i].0 == q);
            }
        }
        assert forall|q: K| #[trigger] self@.contains_key(q) implies self@[q] == before@.insert(
            k,
            v,
        )[q] by {
            let j = self.position(q);
            self.lemma_at(j);
            before.lemma_at(j);
        }
        assert(self@ =~= before@.insert(k, v));
    }

    /// Takes a key and its value out.
    pub fn remove(&mut self, k: &K)
        requires
            old(self).wf(),
        ensures
            final(self).wf(),
            final(self)@ == old(self)@.remove(*k),
    {
        let ghost before = *self;
        match self.find(k) {
            Some(i) => {
                self.entries.remove(i);
                proof {
                    assert forall|a: int, b: int|
                        0 <= a < b < self.entries@.len() implies (#[trigger] self.entries@[a]).0
                        != (#[trigger] self.entries@[b]).0 by {
                        let a0 = if a < i {
                            a
                        } else {
                            a + 1
                        };
                        let b0 = if b < i {
                            b
                        } else {
                            b + 1
                        };
                        assert(self.entries@[a] == before.entries@[a0]);
                        assert(self.entries@[b] == before.entries@[b0]);
                    }
                    assert forall|q: K| #[trigger]
                        self@.contains_key(q) == before@.remove(*k).contains_key(q) by {
                        if self.holds(q) {
                            let j = self.position(q);
                            let j0 = if j < i {
                                j
                            } else {
                                j + 1
                            };
                            assert(self.entries@[j] == before.entries@[j0]);
                            before.lemma_at(j0);
                        }
                        if before@.remove(*k).contains_key(q) {
                            let j = before.position(q);
                            let j1 = if j < i {
                                j
                            } else {
                                j - 1
                            };
                            assert(j != i);
                            assert(self.entries@[j1] == before.entries@[j]);
                        }
                    }
                    assert forall|q: K| #[trigger] self@.contains_key(q) implies self@[q]
                        == before@.remove(*k)[q] by {
                        let j = self.position(q);
                        self.lemma_at(j);
                        let j0 = if j < i {
                            j
                        } else {
                            j + 1
                        };
                        assert(self.entries@[j] == before.entries@[j0]);
                        before.lemma_at(j0);
                    }
                    assert(self@ =~= before@.remove(*k));
                }
            },
            None => {
                assert(self@ =~= before@.remove(*k));
            },
        }
    }
}

} // verus!
