use vstd::prelude::*;

use crate::identity::{views, Identity};

verus! {

/// An entry whose progress can be cleared by the decay clock.
pub trait Decay: Sized {
    /// `self` is `before` with its progress cleared and all else kept.
    spec fn decayed_from(&self, before: &Self) -> bool;

    fn decay(&mut self)
        ensures
            final(self).decayed_from(&*old(self)),
    ;
}

/// A table from identities to entries, keyed by the identities' views.
/// Each key appears at most once.
#[derive(Debug)]
pub struct Table<K, E> {
    keys: Vec<K>,
    vals: Vec<E>,
}

impl<K: Identity, E> Table<K, E> {
    /// The keys are unique and each has its entry.
    pub closed spec fn wf(&self) -> bool {
        &&& self.keys@.len() == self.vals@.len()
        &&& forall|i: int, j: int|
            0 <= i < self.keys@.len() && 0 <= j < self.keys@.len() && i != j
                ==> self.keys@[i]@ != self.keys@[j]@
    }

    closed spec fn has(&self, k: K::V) -> bool {
        exists|i: int| 0 <= i < self.keys@.len() && self.keys@[i]@ == k
    }

    closed spec fn slot(&self, k: K::V) -> int {
        choose|i: int| 0 <= i < self.keys@.len() && self.keys@[i]@ == k
    }

    /// The entry stored under each key.
    pub closed spec fn entries(&self) -> Map<K::V, E> {
        Map::new(|k: K::V| self.has(k), |k: K::V| self.vals@[self.slot(k)])
    }

    proof fn lemma_at(&self, i: int)
        requires
            self.wf(),
            0 <= i < self.keys@.len(),
        ensures
            self.entries().contains_key(self.keys@[i]@),
            self.entries()[self.keys@[i]@] == self.vals@[i],
    {
        let k = self.keys@[i]@;
        assert(self.has(k));
        let j = self.slot(k);
        assert(self.keys@[j]@ == k);
    }

    pub fn new() -> (r: Self)
        ensures
            r.wf(),
            r.entries() == Map::<K::V, E>::empty(),
    {
        let r = Table { keys: Vec::new(), vals: Vec::new() };
        assert(r.entries() =~= Map::<K::V, E>::empty());
        r
    }

    pub fn len(&self) -> (r: usize)
        requires
            self.wf(),
        ensures
            r == self.entries().len(),
    {
        proof {
            self.lemma_len();
        }
        self.keys.len()
    }

    proof fn lemma_len(&self)
        requires
            self.wf(),
        ensures
            self.entries().len() == self.keys@.len(),
        decreases self.keys@.len(),
    {
        let ks = views(self.keys@);
        assert(self.entries().dom() =~= ks.to_set()) by {
            assert forall|k: K::V| self.entries().dom().contains(k) implies ks.to_set().contains(k) by {
                let i = self.slot(k);
                assert(ks[i] == k);
            }
            assert forall|k: K::V| ks.to_set().contains(k) implies self.entries().dom().contains(k) by {
                let i = choose|i: int| 0 <= i < ks.len() && ks[i] == k;
                assert(self.keys@[i]@ == k);
            }
        }
        assert(ks.no_duplicates());
        ks.unique_seq_to_set();
    }

    fn find(&self, k: &K) -> (r: Option<usize>)
        requires
            self.wf(),
        ensures
            match r {
                Some(i) => i < self.keys@.len() && self.keys@[i as int]@ == k@,
                None => !self.entries().contains_key(k@),
            },
    {
        let mut i: usize = 0;
        while i < self.keys.len()
            invariant
                0 <= i <= self.keys@.len(),
                forall|j: int| 0 <= j < i ==> self.keys@[j]@ != k@,
            decreases self.keys@.len() - i,
        {
            if self.keys[i].same(k) {
                return Some(i);
            }
            i = i + 1;
        }
        None
    }

    pub fn contains_key(&self, k: &K) -> (r: bool)
        requires
            self.wf(),
        ensures
            r == self.entries().contains_key(k@),
    {
        match self.find(k) {
            Some(i) => {
                proof {
                    self.lemma_at(i as int);
                }
                true
            },
            None => false,
        }
    }

    pub fn get(&self, k: &K) -> (r: Option<&E>)
        requires
            self.wf(),
        ensures
            match r {
                Some(e) => self.entries().contains_key(k@) && *e == self.entries()[k@],
                None => !self.entries().contains_key(k@),
            },
    {
        match self.find(k) {
            Some(i) => {
                proof {
                    self.lemma_at(i as int);
                }
                Some(&self.vals[i])
            },
            None => None,
        }
    }

    /// Adds an entry under a key that is not in the table yet.
    pub fn insert_new(&mut self, k: K, e: E)
        requires
            old(self).wf(),
            !old(self).entries().contains_key(k@),
        ensures
            final(self).wf(),
            final(self).entries() == old(self).entries().insert(k@, e),
    {
        let ghost pre = *self;
        let ghost kv = k@;
        self.keys.push(k);
        self.vals.push(e);
        proof {
            let n = pre.keys@.len() as int;
            assert forall|i: int| 0 <= i < n implies pre.keys@[i]@ != kv by {
                if pre.keys@[i]@ == kv {
                    pre.lemma_at(i);
                }
            }
            assert(self.wf());
            assert forall|q: K::V| #[trigger] self.entries().contains_key(q) == pre.entries().insert(kv, e).contains_key(q) by {
                if self.has(q) {
                    let i = self.slot(q);
                    if i < n {
                        assert(pre.keys@[i]@ == q);
                        pre.lemma_at(i);
                    }
                }
                if pre.has(q) {
                    let i = pre.slot(q);
                    assert(self.keys@[i]@ == q);
                }
                if q == kv {
                    assert(self.keys@[n]@ == q);
                }
            }
            assert forall|q: K::V| self.entries().contains_key(q) implies #[trigger] self.entries()[q] == pre.entries().insert(kv, e)[q] by {
                let i = self.slot(q);
                self.lemma_at(i);
                if i < n {
                    assert(pre.keys@[i]@ == q);
                    pre.lemma_at(i);
                }
            }
            assert(self.entries() =~= pre.entries().insert(kv, e));
        }
    }

    /// Takes the entry stored under a key out of the table.
    pub fn remove(&mut self, k: &K) -> (r: Option<E>)
        requires
            old(self).wf(),
        ensures
            final(self).wf(),
            final(self).entries() == old(self).entries().remove(k@),
            match r {
                Some(e) => old(self).entries().contains_key(k@) && e == old(self).entries()[k@],
                None => !old(self).entries().contains_key(k@),
            },
    {
        match self.find(k) {
            None => {
                assert(self.entries() =~= self.entries().remove(k@));
                None
            },
            Some(i) => {
                let ghost pre = *self;
                proof {
                    pre.lemma_at(i as int);
                }
                let _ = self.keys.remove(i);
                let e = self.vals.remove(i);
                proof {
                    let ii = i as int;
                    assert forall|a: int, b: int|
                        0 <= a < self.keys@.len() && 0 <= b < self.keys@.len() && a != b
                        implies self.keys@[a]@ != self.keys@[b]@ by {
                        let a2 = if a < ii { a } else { a + 1 };
                        let b2 = if b < ii { b } else { b + 1 };
                        assert(self.keys@[a] == pre.keys@[a2]);
                        assert(self.keys@[b] == pre.keys@[b2]);
                    }
                    assert(self.wf());
                    let target = pre.entries().remove(k@);
                    assert forall|q: K::V| #[trigger] self.entries().contains_key(q) == target.contains_key(q) by {
                        if self.has(q) {
                            let a = self.slot(q);
                            let a2 = if a < ii { a } else { a + 1 };
                            assert(pre.keys@[a2]@ == q);
                            assert(a2 != ii);
                            pre.lemma_at(a2);
                        }
                        if target.contains_key(q) {
                            let a2 = pre.slot(q);
                            assert(a2 != ii);
                            let a = if a2 < ii { a2 } else { a2 - 1 };
                            assert(self.keys@[a]@ == q);
                        }
                    }
                    assert forall|q: K::V| self.entries().contains_key(q) implies #[trigger] self.entries()[q] == target[q] by {
                        let a = self.slot(q);
                        self.lemma_at(a);
                        let a2 = if a < ii { a } else { a + 1 };
                        assert(pre.keys@[a2]@ == q);
                        pre.lemma_at(a2);
                    }
                    assert(self.entries() =~= target);
                }
                Some(e)
            },
        }
    }
}

impl<K: Identity, E: Decay> Table<K, E> {
    /// Clears the progress of every entry.
    pub fn decay_all(&mut self)
        requires
            old(self).wf(),
        ensures
            final(self).wf(),
            final(self).entries().dom() == old(self).entries().dom(),
            forall|k: K::V| #[trigger] final(self).entries().contains_key(k)
                ==> final(self).entries()[k].decayed_from(&old(self).entries()[k]),
    {
        let ghost pre = *self;
        let mut i: usize = 0;
        while i < self.vals.len()
            invariant
                0 <= i <= self.vals@.len(),
                self.keys == pre.keys,
                self.vals@.len() == pre.vals@.len(),
                pre.wf(),
                forall|j: int| 0 <= j < i ==> #[trigger] self.vals@[j].decayed_from(&pre.vals@[j]),
                forall|j: int| i <= j < self.vals@.len() ==> #[trigger] self.vals@[j] == pre.vals@[j],
            decreases self.vals@.len() - i,
        {
            self.vals[i].decay();
            i = i + 1;
        }
        proof {
            assert(self.wf());
            assert(self.entries().dom() =~= pre.entries().dom()) by {
                assert forall|k: K::V| self.has(k) == pre.has(k) by {
                    if self.has(k) {
                        let j = self.slot(k);
                        assert(pre.keys@[j]@ == k);
                    }
                    if pre.has(k) {
                        let j = pre.slot(k);
                        assert(self.keys@[j]@ == k);
                    }
                }
            }
            assert forall|k: K::V| #[trigger] self.entries().contains_key(k)
                implies self.entries()[k].decayed_from(&pre.entries()[k]) by {
                let j = self.slot(k);
                self.lemma_at(j);
                pre.lemma_at(j);
            }
        }
    }
}

} // verus!
