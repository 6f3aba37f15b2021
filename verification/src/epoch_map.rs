//! Values by epoch.
use vstd::prelude::*;
use crate::primitive::EpochId;

verus! {

/// A map from epochs to values; each epoch stands in it at most once.
#[derive(Debug)]
pub struct EpochMap<V> {
    entries: Vec<(EpochId, V)>,
}

impl<V> View for EpochMap<V> {
    type V = Map<EpochId, V>;

    closed spec fn view(&self) -> Map<EpochId, V> {
        Map::new(
            |k: EpochId| exists|i: int| 0 <= i < self.entries@.len() && #[trigger] self.entries@[i].0 == k,
            |k: EpochId| self.entries@[choose|i: int| 0 <= i < self.entries@.len() && #[trigger] self.entries@[i].0 == k].1,
        )
    }
}

impl<V> EpochMap<V> {
    pub closed spec fn wf(&self) -> bool {
        forall|i: int, j: int| 0 <= i < j < self.entries@.len() ==> #[trigger] self.entries@[i].0 != #[trigger] self.entries@[j].0
    }

    proof fn lemma_at(&self, i: int)
        requires
            self.wf(),
            0 <= i < self.entries@.len(),
        ensures
            self@.contains_key(self.entries@[i].0),
            self@[self.entries@[i].0] == self.entries@[i].1,
    {
        let k = self.entries@[i].0;
        let j = choose|j: int| 0 <= j < self.entries@.len() && #[trigger] self.entries@[j].0 == k;
        assert(self.entries@[i].0 == k);
        assert(i == j);
    }

    /// The empty map.
    pub fn new() -> (r: EpochMap<V>)
        ensures
            r.wf(),
            r@ == Map::<EpochId, V>::empty(),
    {
        let r = EpochMap { entries: Vec::new() };
        assert(r@ =~= Map::<EpochId, V>::empty());
        r
    }

    fn find(&self, epoch: &EpochId) -> (r: Option<usize>)
        requires
            self.wf(),
        ensures
            r is Some <==> self@.contains_key(*epoch),
            r matches Some(i) ==> i < self.entries@.len() && self.entries@[i as int].0 == *epoch,
    {
        let mut i: usize = 0;
        while i < self.entries.len()
            invariant
                i <= self.entries@.len(),
                forall|j: int| 0 <= j < i ==> #[trigger] self.entries@[j].0 != *epoch,
            decreases self.entries@.len() - i,
        {
            if self.entries[i].0 == *epoch {
                assert(self.entries@[i as int].0 == *epoch);
                return Some(i);
            }
            i = i + 1;
        }
        None
    }

    /// Whether there is a value for the epoch.
    pub fn contains_key(&self, epoch: &EpochId) -> (r: bool)
        requires
            self.wf(),
        ensures
            r == self@.contains_key(*epoch),
    {
        self.find(epoch).is_some()
    }

    /// The value for the epoch.
    pub fn get(&self, epoch: &EpochId) -> (r: Option<&V>)
        requires
            self.wf(),
        ensures
            r is Some <==> self@.contains_key(*epoch),
            r matches Some(v) ==> *v == self@[*epoch],
    {
        match self.find(epoch) {
            Some(i) => {
                proof { self.lemma_at(i as int); }
                Some(&self.entries[i].1)
            },
            None => None,
        }
    }

    /// Sets the value for the epoch, in place of an earlier one.
    pub fn insert(&mut self, epoch: EpochId, value: V)
        requires
            old(self).wf(),
        ensures
            final(self).wf(),
            final(self)@ == old(self)@.insert(epoch, value),
    {
        let found = self.find(&epoch);
        let ghost before = *self;
        match found {
            Some(i) => {
                self.entries.set(i, (epoch, value));
            },
            None => {
                self.entries.push((epoch, value));
                assert forall|i: int| 0 <= i < before.entries@.len() implies #[trigger] self.entries@[i].0 != epoch by {
                    assert(self.entries@[i].0 == before.entries@[i].0);
                    before.lemma_at(i);
                }
            },
        }
        proof {
            let at: int = match found { Some(i) => i as int, None => before.entries@.len() as int };
            let expected = before@.insert(epoch, value);
            assert(self.wf());
            assert forall|k: EpochId| #[trigger] self@.contains_key(k) <==> expected.contains_key(k) by {
                if self@.contains_key(k) {
                    let i = choose|i: int| 0 <= i < self.entries@.len() && #[trigger] self.entries@[i].0 == k;
                    if i != at {
                        assert(before.entries@[i].0 == k);
                    }
                }
                if before@.contains_key(k) {
                    let i = choose|i: int| 0 <= i < before.entries@.len() && #[trigger] before.entries@[i].0 == k;
                    assert(self.entries@[i].0 == k);
                }
                if k == epoch {
                    assert(self.entries@[at].0 == k);
                }
            }
            assert forall|k: EpochId| self@.contains_key(k) implies #[trigger] self@[k] == expected[k] by {
                let i = choose|i: int| 0 <= i < self.entries@.len() && #[trigger] self.entries@[i].0 == k;
                self.lemma_at(i);
                if i != at {
                    before.lemma_at(i);
                    assert(self.entries@[at].0 == epoch);
                }
            }
            assert(self@ =~= expected);
        }
    }

    /// Removes the value for the epoch, if there is one.
    pub fn remove(&mut self, epoch: &EpochId)
        requires
            old(self).wf(),
        ensures
            final(self).wf(),
            final(self)@ == old(self)@.remove(*epoch),
    {
        let ghost before = *self;
        match self.find(epoch) {
            Some(at) => {
                self.entries.remove(at);
                proof {
                    assert(self.entries@ =~= before.entries@.remove(at as int));
                    assert forall|i: int| 0 <= i < self.entries@.len() implies #[trigger] self.entries@[i]
                        == before.entries@[if i < at { i } else { i + 1 }] by {}
                    let expected = before@.remove(*epoch);
                    assert forall|k: EpochId| #[trigger] self@.contains_key(k) <==> expected.contains_key(k) by {
                        if self@.contains_key(k) {
                            let i = choose|i: int| 0 <= i < self.entries@.len() && #[trigger] self.entries@[i].0 == k;
                            let j = if i < at { i } else { i + 1 };
                            assert(before.entries@[j].0 == k);
                            assert(before.entries@[at as int].0 == *epoch);
                        }
                        if expected.contains_key(k) {
                            let j = choose|j: int| 0 <= j < before.entries@.len() && #[trigger] before.entries@[j].0 == k;
                            let i = if j < at { j } else { j - 1 };
                            assert(self.entries@[i].0 == k);
                        }
                    }
                    assert forall|k: EpochId| self@.contains_key(k) implies #[trigger] self@[k] == expected[k] by {
                        let i = choose|i: int| 0 <= i < self.entries@.len() && #[trigger] self.entries@[i].0 == k;
                        let j = if i < at { i } else { i + 1 };
                        self.lemma_at(i);
                        before.lemma_at(j);
                        assert(before.entries@[j].0 == k);
                    }
                    assert(self@ =~= expected);
                }
            },
            None => {
                assert(self@ =~= before@.remove(*epoch));
            },
        }
    }

    /// Removes everything.
    pub fn clear(&mut self)
        ensures
            final(self).wf(),
            final(self)@ == Map::<EpochId, V>::empty(),
    {
        self.entries.clear();
        assert(self@ =~= Map::<EpochId, V>::empty());
    }
}

} // verus!
