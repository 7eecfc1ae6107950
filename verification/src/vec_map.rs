//! Maps and sets kept in vectors, for small keys that only support equality.
use vstd::prelude::*;

verus! {

/// A key that can be compared for equality.
pub trait Key: Copy {
    /// Whether two keys are the same.
    fn same(&self, other: &Self) -> (r: bool)
        ensures
            r == (*self == *other),
    ;
}

/// A choice of entries.
pub trait Filter<K, V> {
    /// Whether an entry is chosen.
    spec fn accepts(&self, k: K, v: V) -> bool;

    /// Whether an entry is chosen.
    fn keeps(&self, k: &K, v: &V) -> (r: bool)
        ensures
            r == self.accepts(*k, *v),
    ;
}

/// A map from keys to values, with one entry per key.
#[derive(Clone, Debug)]
pub struct VecMap<K, V> {
    entries: Vec<(K, V)>,
}

/// Whether some entry has the key.
pub open spec fn has_key<K, V>(entries: Seq<(K, V)>, k: K) -> bool {
    exists|i: int| 0 <= i < entries.len() && (#[trigger] entries[i]).0 == k
}

/// An entry with the key.
pub open spec fn index_of_key<K, V>(entries: Seq<(K, V)>, k: K) -> int {
    choose|i: int| 0 <= i < entries.len() && (#[trigger] entries[i]).0 == k
}

/// Whether no two entries have the same key.
pub open spec fn distinct_keys<K, V>(entries: Seq<(K, V)>) -> bool {
    forall|i: int, j: int|
        0 <= i < entries.len() && 0 <= j < entries.len() && (#[trigger] entries[i]).0 == (
        #[trigger] entries[j]).0 ==> i == j
}

impl<K, V> View for VecMap<K, V> {
    type V = Map<K, V>;

    open spec fn view(&self) -> Map<K, V> {
        Map::new(
            |k: K| has_key(self.items(), k),
            |k: K| self.items()[index_of_key(self.items(), k)].1,
        )
    }
}

impl<K, V> VecMap<K, V> {
    /// The entries, in the order in which they are kept.
    pub closed spec fn items(&self) -> Seq<(K, V)> {
        self.entries@
    }

    /// No two entries have the same key.
    pub open spec fn wf(&self) -> bool {
        distinct_keys(self.items())
    }

    /// Each entry is in the map.
    pub proof fn lemma_entry(&self, i: int)
        requires
            self.wf(),
            0 <= i < self.items().len(),
        ensures
            self@.contains_key(self.items()[i].0),
            self@[self.items()[i].0] == self.items()[i].1,
    {
        let k = self.items()[i].0;
        assert(has_key(self.items(), k));
        let j = index_of_key(self.items(), k);
        assert(self.items()[j].0 == k);
    }
}

impl<K: Key, V: Copy> VecMap<K, V> {
    /// The empty map.
    pub fn new() -> (m: Self)
        ensures
            m.wf(),
            m@ == Map::<K, V>::empty(),
            m.items() == Seq::<(K, V)>::empty(),
    {
        let m = VecMap { entries: Vec::new() };
        assert(m@ =~= Map::<K, V>::empty());
        m
    }

    /// How many entries the map has.
    pub fn len(&self) -> (n: usize)
        ensures
            n == self.items().len(),
    {
        self.entries.len()
    }

    /// Whether the map has no entry.
    pub fn is_empty(&self) -> (r: bool)
        ensures
            r == (self.items().len() == 0),
            r == (self@ == Map::<K, V>::empty()),
    {
        let r = self.entries.len() == 0;
        proof {
            if r {
                assert(self@ =~= Map::<K, V>::empty());
            } else {
                assert(has_key(self.items(), self.items()[0].0));
                assert(self@.contains_key(self.items()[0].0));
            }
        }
        r
    }

    /// Entry `i`, in the order in which entries are kept.
    pub fn entry(&self, i: usize) -> (e: (K, V))
        requires
            i < self.items().len(),
        ensures
            e == self.items()[i as int],
    {
        self.entries[i]
    }

    /// The place of the entry with a key.
    fn position(&self, k: &K) -> (r: Option<usize>)
        ensures
            match r {
                Some(i) => i < self.items().len() && self.items()[i as int].0 == *k,
                None => !has_key(self.items(), *k),
            },
    {
        let mut i: usize = 0;
        while i < self.entries.len()
            invariant
                i <= self.entries@.len(),
                forall|j: int| 0 <= j < i ==> (#[trigger] self.entries@[j]).0 != *k,
            decreases self.entries@.len() - i,
        {
            if self.entries[i].0.same(k) {
                return Some(i);
            }
            i = i + 1;
        }
        None
    }

    /// Whether the map has the key.
    pub fn contains_key(&self, k: &K) -> (r: bool)
        ensures
            r == self@.contains_key(*k),
    {
        match self.position(k) {
            Some(i) => {
                assert(has_key(self.items(), *k));
                true
            },
            None => false,
        }
    }

    /// The value of a key.
    pub fn get(&self, k: &K) -> (r: Option<V>)
        requires
            self.wf(),
        ensures
            match r {
                Some(v) => self@.contains_key(*k) && self@[*k] == v,
                None => !self@.contains_key(*k),
            },
    {
        match self.position(k) {
            Some(i) => {
                proof {
                    self.lemma_entry(i as int);
                }
                Some(self.entries[i].1)
            },
            None => None,
        }
    }

    /// Sets the value of entry `i`; the entries keep their order.
    pub fn replace_value(&mut self, i: usize, v: V)
        requires
            old(self).wf(),
            i < old(self).items().len(),
        ensures
            final(self).wf(),
            final(self).items() == old(self).items().update(
                i as int,
                (old(self).items()[i as int].0, v),
            ),
            final(self)@ == old(self)@.insert(old(self).items()[i as int].0, v),
    {
        let ghost before = self.items();
        let k = self.entries[i].0;
        self.entries[i] = (k, v);
        proof {
            let after = self.items();
            assert(after =~= before.update(i as int, (k, v)));
            assert forall|a: int, b: int|
                0 <= a < after.len() && 0 <= b < after.len() && (#[trigger] after[a]).0 == (
                #[trigger] after[b]).0 implies a == b by {
                assert(before[a].0 == after[a].0);
                assert(before[b].0 == after[b].0);
            }
            assert forall|x: K| has_key(after, x) == #[trigger] has_key(before, x) by {
                if has_key(after, x) {
                    let j = index_of_key(after, x);
                    assert(before[j].0 == x);
                }
                if has_key(before, x) {
                    let j = index_of_key(before, x);
                    assert(after[j].0 == x);
                }
            }
            assert forall|x: K| has_key(after, x) implies #[trigger] self@[x] == old(self)@.insert(
                k,
                v,
            )[x] by {
                let j = index_of_key(after, x);
                let j0 = index_of_key(before, x);
                assert(has_key(before, x));
                assert(before[j].0 == x);
                assert(before[j0].0 == x);
                assert(j == j0);
            }
            assert(before[i as int].0 == k);
            assert(has_key(before, k));
            assert(self@ =~= old(self)@.insert(k, v));
        }
    }

    /// Sets the value of a key, and gives the value that it had.
    pub fn insert(&mut self, k: K, v: V) -> (r: Option<V>)
        requires
            old(self).wf(),
        ensures
            final(self).wf(),
            final(self)@ == old(self)@.insert(k, v),
            match r {
                Some(before) => old(self)@.contains_key(k) && old(self)@[k] == before,
                None => !old(self)@.contains_key(k),
            },
    {
        let ghost before = self.items();
        match self.position(&k) {
            Some(i) => {
                proof {
                    self.lemma_entry(i as int);
                }
                let previous = self.entries[i].1;
                self.replace_value(i, v);
                Some(previous)
            },
            None => {
                self.entries.push((k, v));
                proof {
                    let after = self.items();
                    let n = before.len() as int;
                    assert(after =~= before.push((k, v)));
                    assert(after[n] == (k, v));
                    assert forall|a: int, b: int|
                        0 <= a < after.len() && 0 <= b < after.len() && (#[trigger] after[a]).0 == (
                        #[trigger] after[b]).0 implies a == b by {
                        if a < n {
                            assert(before[a].0 == after[a].0);
                        }
                        if b < n {
                            assert(before[b].0 == after[b].0);
                        }
                    }
                    assert forall|x: K| #[trigger] has_key(after, x) == (has_key(before, x) || x
                        == k) by {
                        if has_key(after, x) {
                            let j = index_of_key(after, x);
                            if j < n {
                                assert(before[j].0 == x);
                            }
                        }
                        if has_key(before, x) {
                            let j = index_of_key(before, x);
                            assert(after[j].0 == x);
                        }
                        if x == k {
                            assert(after[n].0 == x);
                        }
                    }
                    assert forall|x: K| has_key(after, x) implies #[trigger] self@[x]
                        == old(self)@.insert(k, v)[x] by {
                        let j = index_of_key(after, x);
                        if x == k {
                            assert(after[n].0 == x);
                            assert(j == n);
                        } else {
                            assert(has_key(before, x));
                            let j0 = index_of_key(before, x);
                            assert(after[j0].0 == x);
                            assert(j == j0);
                        }
                    }
                    assert(self@ =~= old(self)@.insert(k, v));
                }
                None
            },
        }
    }

    /// Takes out entry `i`; the others keep their order.
    fn remove_entry(&mut self, i: usize)
        requires
            old(self).wf(),
            i < old(self).items().len(),
        ensures
            final(self).wf(),
            final(self).items() == old(self).items().remove(i as int),
            final(self)@ == old(self)@.remove(old(self).items()[i as int].0),
    {
        let ghost before = self.items();
        let ghost k = before[i as int].0;
        self.entries.remove(i);
        proof {
            let after = self.items();
            assert(after =~= before.remove(i as int));
            assert forall|a: int| 0 <= a < after.len() implies #[trigger] after[a] == (if a < i {
                before[a]
            } else {
                before[a + 1]
            }) by {
            }
            assert forall|a: int, b: int|
                0 <= a < after.len() && 0 <= b < after.len() && (#[trigger] after[a]).0 == (
                #[trigger] after[b]).0 implies a == b by {
                let a0 = if a < i {
                    a
                } else {
                    a + 1
                };
                let b0 = if b < i {
                    b
                } else {
                    b + 1
                };
                assert(before[a0].0 == before[b0].0);
            }
            assert forall|x: K| #[trigger] has_key(after, x) == (has_key(before, x) && x != k) by {
                if has_key(after, x) {
                    let j = index_of_key(after, x);
                    let j0 = if j < i {
                        j
                    } else {
                        j + 1
                    };
                    assert(before[j0].0 == x);
                }
                if has_key(before, x) && x != k {
                    let j = index_of_key(before, x);
                    let j1 = if j < i {
                        j
                    } else {
                        j - 1
                    };
                    assert(after[j1].0 == x);
                }
            }
            assert forall|x: K| has_key(after, x) implies #[trigger] self@[x] == old(
                self,
            )@[x] by {
                let j = index_of_key(after, x);
                let j0 = index_of_key(before, x);
                assert(has_key(before, x));
                let back = if j < i {
                    j
                } else {
                    j + 1
                };
                assert(before[back].0 == x);
                assert(before[j0].0 == x);
            }
            assert(self@ =~= old(self)@.remove(k));
        }
    }

    /// Takes a key out, and gives the value that it had.
    pub fn remove(&mut self, k: &K) -> (r: Option<V>)
        requires
            old(self).wf(),
        ensures
            final(self).wf(),
            final(self)@ == old(self)@.remove(*k),
            match r {
                Some(before) => old(self)@.contains_key(*k) && old(self)@[*k] == before,
                None => !old(self)@.contains_key(*k),
            },
    {
        match self.position(k) {
            Some(i) => {
                proof {
                    self.lemma_entry(i as int);
                }
                let previous = self.entries[i].1;
                self.remove_entry(i);
                Some(previous)
            },
            None => {
                assert(self@.remove(*k) =~= self@);
                None
            },
        }
    }

    /// Keeps the entries that a filter accepts.
    pub fn retain<F: Filter<K, V>>(&mut self, filter: &F)
        requires
            old(self).wf(),
        ensures
            final(self).wf(),
            final(self)@ == filtered(old(self)@, |k: K, v: V| filter.accepts(k, v)),
    {
        let ghost accepts = |k: K, v: V| filter.accepts(k, v);
        let ghost start = self@;
        let mut i: usize = 0;
        while i < self.entries.len()
            invariant
                self.wf(),
                i <= self.items().len(),
                accepts == (|k: K, v: V| filter.accepts(k, v)),
                forall|k: K| #[trigger]
                    self@.contains_key(k) ==> start.contains_key(k) && self@[k] == start[k],
                forall|k: K| #[trigger]
                    start.contains_key(k) && !self@.contains_key(k) ==> !accepts(k, start[k]),
                forall|j: int|
                    0 <= j < i ==> accepts((#[trigger] self.items()[j]).0, self.items()[j].1),
            decreases self.items().len() - i,
        {
            let e = self.entries[i];
            proof {
                self.lemma_entry(i as int);
            }
            if filter.keeps(&e.0, &e.1) {
                i = i + 1;
            } else {
                let ghost before = self.items();
                self.remove_entry(i);
                assert forall|j: int| 0 <= j < i implies accepts(
                    (#[trigger] self.items()[j]).0,
                    self.items()[j].1,
                ) by {
                    assert(self.items()[j] == before[j]);
                }
            }
        }
        proof {
            assert forall|k: K| self@.contains_key(k) implies accepts(k, #[trigger] start[k]) by {
                let j = index_of_key(self.items(), k);
                assert(self.items()[j].0 == k);
            }
            assert(self@ =~= filtered(start, accepts));
        }
    }
}

/// The entries of a map that `accepts` accepts.
pub open spec fn filtered<K, V>(m: Map<K, V>, accepts: spec_fn(K, V) -> bool) -> Map<K, V> {
    Map::new(|k: K| m.contains_key(k) && accepts(k, m[k]), |k: K| m[k])
}

/// A set of keys.
#[derive(Clone, Debug)]
pub struct VecSet<K> {
    members: VecMap<K, ()>,
}

impl<K> View for VecSet<K> {
    type V = Set<K>;

    closed spec fn view(&self) -> Set<K> {
        self.members@.dom()
    }
}

impl<K: Key> VecSet<K> {
    /// No member is kept twice.
    pub closed spec fn wf(&self) -> bool {
        self.members.wf()
    }

    /// The empty set.
    pub fn new() -> (s: Self)
        ensures
            s.wf(),
            s@ == Set::<K>::empty(),
    {
        let s = VecSet { members: VecMap::new() };
        assert(s@ =~= Set::<K>::empty());
        s
    }

    /// Whether a key is a member.
    pub fn contains(&self, k: &K) -> (r: bool)
        ensures
            r == self@.contains(*k),
    {
        self.members.contains_key(k)
    }

    /// Adds a member, and says whether it was not one.
    pub fn insert(&mut self, k: K) -> (r: bool)
        requires
            old(self).wf(),
        ensures
            final(self).wf(),
            final(self)@ == old(self)@.insert(k),
            r == !old(self)@.contains(k),
    {
        let r = self.members.insert(k, ()).is_none();
        assert(self@ =~= old(self)@.insert(k));
        r
    }

    /// Takes a member out, if it is one.
    pub fn remove(&mut self, k: &K)
        requires
            old(self).wf(),
        ensures
            final(self).wf(),
            final(self)@ == old(self)@.remove(*k),
    {
        let _ = self.members.remove(k);
        assert(self@ =~= old(self)@.remove(*k));
    }
}

} // verus!
