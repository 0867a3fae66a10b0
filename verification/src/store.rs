//! The counter store: for each entity, the snapshot last seen of it.

use vstd::prelude::*;
use crate::snapshot::{EntityKey, KeyModel, RawSnapshot, SnapshotModel};

verus! {

/// For each entity key, the most recent snapshot filed under it.
pub struct CounterStore {
    entries: Vec<(EntityKey, RawSnapshot)>,
}

impl CounterStore {
    /// The store is well formed when no key is held twice.
    pub closed spec fn wf(&self) -> bool {
        forall|i: int, j: int|
            0 <= i < j < self.entries@.len() ==> (#[trigger] self.entries@[i]).0@
                != (#[trigger] self.entries@[j]).0@
    }

    /// Whether the entry at `i` is filed under `k`.
    spec fn holds_at(&self, i: int, k: KeyModel) -> bool {
        0 <= i < self.entries@.len() && self.entries@[i].0@ == k
    }

    /// The store as a map from each key to the snapshot filed under it.
    pub closed spec fn view(&self) -> Map<KeyModel, SnapshotModel> {
        Map::new(
            |k: KeyModel| exists|i: int| self.holds_at(i, k),
            |k: KeyModel| self.entries@[choose|i: int| self.holds_at(i, k)].1@,
        )
    }

    /// An empty store.
    pub fn new() -> (s: CounterStore)
        ensures
            s.wf(),
            s@ == Map::<KeyModel, SnapshotModel>::empty(),
    {
        let s = CounterStore { entries: Vec::new() };
        assert(s@ =~= Map::<KeyModel, SnapshotModel>::empty());
        s
    }

    /// Where `key` is held, if anywhere.
    fn position(&self, key: &EntityKey) -> (r: Option<usize>)
        ensures
            match r {
                Some(i) => self.holds_at(i as int, key@),
                None => forall|i: int| !self.holds_at(i, key@),
            },
    {
        let mut i: usize = 0;
        while i < self.entries.len()
            invariant
                i <= self.entries@.len(),
                forall|j: int| 0 <= j < i ==> !self.holds_at(j, key@),
            decreases self.entries@.len() - i,
        {
            if self.entries[i].0.same(key) {
                return Some(i);
            }
            i += 1;
        }
        None
    }

    /// The number of entities seen so far.
    pub fn len(&self) -> (n: usize)
        requires
            self.wf(),
        ensures
            n == self@.dom().len(),
            self@.dom().finite(),
    {
        proof {
            self.lemma_dom_len();
        }
        self.entries.len()
    }

    proof fn lemma_dom_len(&self)
        requires
            self.wf(),
        ensures
            self@.dom().finite(),
            self@.dom().len() == self.entries@.len(),
    {
        let keys = self.entries@.map_values(|e: (EntityKey, RawSnapshot)| e.0@);
        assert(keys.no_duplicates()) by {
            assert forall|i: int, j: int|
                0 <= i < keys.len() && 0 <= j < keys.len() && i != j implies keys[i]
                != keys[j] by {
                if i < j {
                    assert(self.entries@[i].0@ != self.entries@[j].0@);
                } else {
                    assert(self.entries@[j].0@ != self.entries@[i].0@);
                }
            }
        }
        keys.unique_seq_to_set();
        assert(keys.to_set() =~= self@.dom()) by {
            assert forall|k: KeyModel| keys.to_set().contains(k) implies self@.dom().contains(
                k,
            ) by {
                let i = choose|i: int| 0 <= i < keys.len() && keys[i] == k;
                assert(self.holds_at(i, k));
            }
            assert forall|k: KeyModel| self@.dom().contains(k) implies keys.to_set().contains(
                k,
            ) by {
                let i = choose|i: int| self.holds_at(i, k);
                assert(keys[i] == k);
            }
        }
    }

    /// The snapshot filed under `key`, if there is one.
    pub fn get(&self, key: &EntityKey) -> (r: Option<&RawSnapshot>)
        requires
            self.wf(),
        ensures
            match r {
                Some(s) => self@.contains_key(key@) && s@ == self@[key@],
                None => !self@.contains_key(key@),
            },
    {
        match self.position(key) {
            Some(i) => {
                proof {
                    let j = choose|j: int| self.holds_at(j, key@);
                    assert(j == i as int) by {
                        if j < i {
                            assert(self.entries@[j].0@ != self.entries@[i as int].0@);
                        } else if i < j {
                            assert(self.entries@[i as int].0@ != self.entries@[j].0@);
                        }
                    }
                }
                Some(&self.entries[i].1)
            },
            None => None,
        }
    }

    /// Files `snapshot` under `key`, in place of what was filed there before.
    ///
    /// Where a snapshot was already filed under `key`, it is handed back as
    /// the prior one, together with the new one. Where none was, nothing is
    /// handed back: a single sample makes no interval.
    pub fn update(&mut self, key: EntityKey, snapshot: RawSnapshot) -> (r: Option<
        (RawSnapshot, RawSnapshot),
    >)
        requires
            old(self).wf(),
        ensures
            final(self).wf(),
            final(self)@ == old(self)@.insert(key@, snapshot@),
            match r {
                Some((prior, current)) => old(self)@.contains_key(key@) && prior@ == old(
                    self,
                )@[key@] && current == snapshot,
                None => !old(self)@.contains_key(key@),
            },
    {
        let found = self.position(&key);
        match found {
            Some(i) => {
                let prior = self.entries[i].1.clone();
                let current = snapshot.clone();
                proof {
                    let j = choose|j: int| old(self).holds_at(j, key@);
                    assert(j == i as int) by {
                        if j < i {
                            assert(self.entries@[j].0@ != self.entries@[i as int].0@);
                        } else if i < j {
                            assert(self.entries@[i as int].0@ != self.entries@[j].0@);
                        }
                    }
                }
                self.entries.set(i, (key, snapshot));
                proof {
                    assert forall|k: KeyModel, n: int|
                        self.holds_at(n, k) <==> old(self).holds_at(n, k) by {}
                    assert forall|a: int, b: int|
                        0 <= a < b < self.entries@.len() implies (#[trigger] self.entries@[a]).0@
                        != (#[trigger] self.entries@[b]).0@ by {
                        assert(old(self).entries@[a].0@ != old(self).entries@[b].0@);
                    }
                    assert(self@ =~= old(self)@.insert(key@, snapshot@)) by {
                        assert forall|k: KeyModel| self@.dom().contains(k) implies #[trigger] self@[k]
                            == old(self)@.insert(key@, snapshot@)[k] by {
                            let n = choose|n: int| self.holds_at(n, k);
                            let m = choose|m: int| old(self).holds_at(m, k);
                            assert(old(self).holds_at(n, k));
                            assert(n == m) by {
                                if n < m {
                                    assert(old(self).entries@[n].0@ != old(self).entries@[m].0@);
                                } else if m < n {
                                    assert(old(self).entries@[m].0@ != old(self).entries@[n].0@);
                                }
                            }
                        }
                    }
                }
                Some((prior, current))
            },
            None => {
                self.entries.push((key, snapshot));
                proof {
                    let last = old(self).entries@.len() as int;
                    assert(self.holds_at(last, key@));
                    assert forall|a: int, b: int|
                        0 <= a < b < self.entries@.len() implies (#[trigger] self.entries@[a]).0@
                        != (#[trigger] self.entries@[b]).0@ by {
                        if b == last {
                            assert(!old(self).holds_at(a, key@));
                        } else {
                            assert(old(self).entries@[a].0@ != old(self).entries@[b].0@);
                        }
                    }
                    let target = old(self)@.insert(key@, snapshot@);
                    assert forall|k: KeyModel| target.dom().contains(k) implies self@.dom().contains(
                        k,
                    ) by {
                        if k == key@ {
                            assert(self.holds_at(last, k));
                        } else {
                            assert(old(self)@.dom().contains(k));
                            let m = choose|m: int| old(self).holds_at(m, k);
                            assert(self.holds_at(m, k));
                        }
                    }
                    assert forall|k: KeyModel| #[trigger]
                        self@.dom().contains(k) implies target.dom().contains(k) && self@[k]
                        == target[k] by {
                        let n = choose|n: int| self.holds_at(n, k);
                        assert(self.holds_at(n, k));
                        if n == last {
                            assert(k == key@);
                            assert(self.entries@[n].1@ == snapshot@);
                        } else {
                            assert(old(self).holds_at(n, k));
                            assert(k != key@);
                            let m = choose|m: int| old(self).holds_at(m, k);
                            assert(n == m) by {
                                if n < m {
                                    assert(old(self).entries@[n].0@ != old(self).entries@[m].0@);
                                } else if m < n {
                                    assert(old(self).entries@[m].0@ != old(self).entries@[n].0@);
                                }
                            }
                            assert(self.entries@[n] == old(self).entries@[n]);
                        }
                    }
                    assert(self@.dom() =~= target.dom());
                    assert(self@ =~= target);
                }
                None
            },
        }
    }
}

} // verus!
