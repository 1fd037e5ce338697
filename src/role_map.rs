//! A finite map keyed by role identity, kept as a list of entries.

use vstd::prelude::*;
use crate::role::{Role, RoleView};

verus! {

/// Entries keyed by role; no two entries share a role identity.
pub struct RoleMap<V> {
    entries: Vec<(Role, V)>,
}

impl<V> RoleMap<V> {
    /// No two entries share a role identity.
    pub closed spec fn wf(&self) -> bool {
        forall|i: int, j: int|
            0 <= i < j < self.entries@.len() ==> (#[trigger] self.entries@[i]).0@ != (
            #[trigger] self.entries@[j]).0@
    }

    /// The entries, in order.
    pub closed spec fn entry_seq(&self) -> Seq<(Role, V)> {
        self.entries@
    }

    /// The map from role identity to value.
    pub open spec fn view(&self) -> Map<RoleView, V> {
        Map::new(
            |k: RoleView| exists|i: int| 0 <= i < self.entry_seq().len() && (#[trigger] self.entry_seq()[i]).0@ == k,
            |k: RoleView|
                self.entry_seq()[choose|i: int|
                    0 <= i < self.entry_seq().len() && (#[trigger] self.entry_seq()[i]).0@ == k].1,
        )
    }

    /// The number of entries.
    pub open spec fn size(&self) -> nat {
        self.entry_seq().len()
    }

    /// No two entries share a role identity.
    pub proof fn lemma_keys_distinct(&self)
        requires
            self.wf(),
        ensures
            forall|i: int, j: int|
                0 <= i < j < self.entry_seq().len() ==> (#[trigger] self.entry_seq()[i]).0@ != (
                #[trigger] self.entry_seq()[j]).0@,
    {
    }

    /// Each entry is in the map.
    pub proof fn lemma_entry(&self, i: int)
        requires
            self.wf(),
            0 <= i < self.entry_seq().len(),
        ensures
            self.view().contains_key(self.entry_seq()[i].0@),
            self.view()[self.entry_seq()[i].0@] == self.entry_seq()[i].1,
    {
        let k = self.entries@[i].0@;
        assert(self.entry_seq()[i].0@ == k);
        let j = choose|j: int| 0 <= j < self.entry_seq().len() && (#[trigger] self.entry_seq()[j]).0@ == k;
        if j != i {
            if j < i {
                assert(self.entries@[j].0@ != self.entries@[i].0@);
            } else {
                assert(self.entries@[i].0@ != self.entries@[j].0@);
            }
        }
    }

    pub fn new() -> (m: RoleMap<V>)
        ensures
            m.wf(),
            m.view() == Map::<RoleView, V>::empty(),
            m.size() == 0,
    {
        let m = RoleMap { entries: Vec::new() };
        assert(m.view() =~= Map::<RoleView, V>::empty());
        m
    }

    fn index_of(&self, k: &Role) -> (r: Option<usize>)
        requires
            self.wf(),
        ensures
            match r {
                Some(i) => i < self.entries@.len() && self.entries@[i as int].0@ == k@,
                None => !self.view().contains_key(k@),
            },
    {
        let mut i: usize = 0;
        while i < self.entries.len()
            invariant
                0 <= i <= self.entries.len(),
                forall|j: int| 0 <= j < i ==> (#[trigger] self.entries@[j]).0@ != k@,
            decreases self.entries.len() - i,
        {
            if self.entries[i].0.same_as(k) {
                return Some(i);
            }
            i = i + 1;
        }
        None
    }

    /// Whether `k` has an entry.
    pub fn contains(&self, k: &Role) -> (b: bool)
        requires
            self.wf(),
        ensures
            b == self.view().contains_key(k@),
    {
        match self.index_of(k) {
            Some(i) => {
                proof {
                    self.lemma_entry(i as int);
                }
                true
            },
            None => false,
        }
    }

    /// The value of `k`, if any.
    pub fn get(&self, k: &Role) -> (r: Option<&V>)
        requires
            self.wf(),
        ensures
            match r {
                Some(v) => self.view().contains_key(k@) && *v == self.view()[k@],
                None => !self.view().contains_key(k@),
            },
    {
        match self.index_of(k) {
            Some(i) => {
                proof {
                    self.lemma_entry(i as int);
                }
                Some(&self.entries[i].1)
            },
            None => None,
        }
    }

    /// Removes the entry of `k` and hands its value back.
    pub fn remove(&mut self, k: &Role) -> (r: Option<V>)
        requires
            old(self).wf(),
        ensures
            final(self).wf(),
            final(self).view() == old(self).view().remove(k@),
            r == (if old(self).view().contains_key(k@) {
                Some(old(self).view()[k@])
            } else {
                None::<V>
            }),
            final(self).size() + (if old(self).view().contains_key(k@) {
                1int
            } else {
                0int
            }) == old(self).size(),
    {
        match self.index_of(k) {
            Some(i) => {
                proof {
                    self.lemma_entry(i as int);
                }
                let ghost before = *self;
                let (_, v) = self.entries.remove(i);
                proof {
                    assert forall|a: int, b: int|
                        0 <= a < b < self.entries@.len() implies (#[trigger] self.entries@[a]).0@ != (
                        #[trigger] self.entries@[b]).0@ by {
                        let a0 = if a < i { a } else { a + 1 };
                        let b0 = if b < i { b } else { b + 1 };
                        assert(self.entries@[a] == before.entries@[a0]);
                        assert(self.entries@[b] == before.entries@[b0]);
                    }
                    assert forall|key: RoleView| #[trigger] self.view().contains_key(key) <==> before.view().remove(k@).contains_key(key) by {
                        if self.view().contains_key(key) {
                            let a = choose|a: int| 0 <= a < self.entry_seq().len() && (#[trigger] self.entry_seq()[a]).0@ == key;
                            let a0 = if a < i { a } else { a + 1 };
                            assert(before.entry_seq()[a0].0@ == key);
                            if key == k@ {
                                assert(before.entries@[a0].0@ == before.entries@[i as int].0@);
                            }
                        }
                        if before.view().remove(k@).contains_key(key) {
                            let a0 = choose|a: int| 0 <= a < before.entry_seq().len() && (#[trigger] before.entry_seq()[a]).0@ == key;
                            assert(a0 != i);
                            let a = if a0 < i { a0 } else { a0 - 1 };
                            assert(self.entry_seq()[a].0@ == key);
                        }
                    }
                    assert forall|key: RoleView| #[trigger] self.view().contains_key(key) implies self.view()[key] == before.view()[key] by {
                        let a = choose|a: int| 0 <= a < self.entry_seq().len() && (#[trigger] self.entry_seq()[a]).0@ == key;
                        let a0 = if a < i { a } else { a + 1 };
                        self.lemma_entry(a);
                        before.lemma_entry(a0);
                    }
                    assert(self.view() =~= before.view().remove(k@));
                }
                Some(v)
            },
            None => {
                proof {
                    assert(self.view() =~= self.view().remove(k@));
                }
                None
            },
        }
    }

    /// Sets the value of `k`, replacing any earlier one.
    pub fn insert(&mut self, k: Role, v: V)
        requires
            old(self).wf(),
        ensures
            final(self).wf(),
            final(self).view() == old(self).view().insert(k@, v),
            final(self).size() == old(self).size() + (if old(self).view().contains_key(k@) {
                0int
            } else {
                1int
            }),
    {
        let ghost kv = k@;
        let _ = self.remove(&k);
        let ghost mid = *self;
        self.entries.push((k, v));
        proof {
            let n = mid.entries@.len() as int;
            assert forall|a: int, b: int|
                0 <= a < b < self.entries@.len() implies (#[trigger] self.entries@[a]).0@ != (
                #[trigger] self.entries@[b]).0@ by {
                if b == n {
                    assert(self.entries@[a] == mid.entries@[a]);
                    mid.lemma_entry(a);
                } else {
                    assert(self.entries@[a] == mid.entries@[a]);
                    assert(self.entries@[b] == mid.entries@[b]);
                }
            }
            assert forall|key: RoleView| #[trigger] self.view().contains_key(key) <==> mid.view().insert(kv, v).contains_key(key) by {
                if self.view().contains_key(key) && key != kv {
                    let a = choose|a: int| 0 <= a < self.entry_seq().len() && (#[trigger] self.entry_seq()[a]).0@ == key;
                    assert(a != n);
                    assert(mid.entry_seq()[a].0@ == key);
                }
                if key == kv {
                    assert(self.entry_seq()[n].0@ == key);
                }
                if mid.view().contains_key(key) {
                    let a = choose|a: int| 0 <= a < mid.entry_seq().len() && (#[trigger] mid.entry_seq()[a]).0@ == key;
                    assert(self.entry_seq()[a].0@ == key);
                }
            }
            assert forall|key: RoleView| #[trigger] self.view().contains_key(key) implies self.view()[key] == mid.view().insert(kv, v)[key] by {
                let a = choose|a: int| 0 <= a < self.entry_seq().len() && (#[trigger] self.entry_seq()[a]).0@ == key;
                self.lemma_entry(a);
                if a < n {
                    assert(self.entries@[a] == mid.entries@[a]);
                    mid.lemma_entry(a);
                }
            }
            assert(self.view() =~= mid.view().insert(kv, v));
        }
    }

    /// The entries' roles and values, in order.
    pub fn entries(&self) -> (r: &Vec<(Role, V)>)
        ensures
            r@ == self.entry_seq(),
    {
        &self.entries
    }
}

} // verus!
