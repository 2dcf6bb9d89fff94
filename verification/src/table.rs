//! A table from unit identities to values.

use vstd::prelude::*;

use crate::unit::UnitId;

verus! {

/// A finite map keyed by unit identity. Its view maps each unit's name to
/// the deep view of the value stored for it.
#[derive(Debug)]
pub struct Table<V> {
    keys: Vec<UnitId>,
    vals: Vec<V>,
}

impl<V> Table<V> {
    #[verifier::type_invariant]
    spec fn inv(&self) -> bool {
        &&& self.keys.len() == self.vals.len()
        &&& self.keys.deep_view().no_duplicates()
    }

    spec fn slot(&self, k: Seq<char>) -> int {
        self.keys.deep_view().index_of(k)
    }
}

impl<V: DeepView> View for Table<V> {
    type V = Map<Seq<char>, V::V>;

    closed spec fn view(&self) -> Map<Seq<char>, V::V> {
        Map::new(
            |k: Seq<char>| self.keys.deep_view().contains(k),
            |k: Seq<char>| self.vals@[self.slot(k)].deep_view(),
        )
    }
}

impl<V: DeepView> Table<V> {
    /// The empty table.
    pub fn new() -> (table: Table<V>)
        ensures
            table@ == Map::<Seq<char>, V::V>::empty(),
    {
        let table = Table { keys: Vec::new(), vals: Vec::new() };
        assert(table@ =~= Map::<Seq<char>, V::V>::empty());
        table
    }

    /// The number of entries.
    pub fn len(&self) -> (n: usize)
        ensures
            self@.dom().finite(),
            n == self@.dom().len(),
    {
        proof {
            use_type_invariant(self);
            let ks = self.keys.deep_view();
            assert(self@.dom() =~= ks.to_set());
            ks.unique_seq_to_set();
            vstd::seq_lib::seq_to_set_is_finite(ks);
        }
        self.keys.len()
    }

    fn position(&self, k: &UnitId) -> (at: Option<usize>)
        ensures
            match at {
                Some(i) => i < self.keys.len() && self.keys.deep_view()[i as int] == k@
                    && self.slot(k@) == i,
                None => !self.keys.deep_view().contains(k@),
            },
    {
        proof {
            use_type_invariant(self);
        }
        let mut i: usize = 0;
        while i < self.keys.len()
            invariant
                i <= self.keys.len(),
                forall|j: int| 0 <= j < i ==> self.keys.deep_view()[j] != k@,
            decreases self.keys.len() - i,
        {
            if self.keys[i].same(k) {
                proof {
                    use_type_invariant(self);
                    let ks = self.keys.deep_view();
                    assert(0 <= i < ks.len() && ks[i as int] == k@);
                    let j = ks.index_of(k@);
                    assert(0 <= j < ks.len() && ks[j] == k@);
                    assert(j == i);
                }
                return Some(i);
            }
            i += 1;
        }
        None
    }

    /// Whether the table has an entry for `k`.
    pub fn contains_key(&self, k: &UnitId) -> (r: bool)
        ensures
            r == self@.contains_key(k@),
    {
        self.position(k).is_some()
    }

    /// The value stored for `k`, if there is one.
    pub fn get(&self, k: &UnitId) -> (r: Option<&V>)
        ensures
            match r {
                Some(v) => self@.contains_key(k@) && v.deep_view() == self@[k@],
                None => !self@.contains_key(k@),
            },
    {
        proof {
            use_type_invariant(self);
        }
        match self.position(k) {
            Some(i) => Some(&self.vals[i]),
            None => None,
        }
    }

    /// Stores `v` for `k`, in place of what was stored for it before.
    pub fn insert(&mut self, k: UnitId, v: V)
        ensures
            final(self)@ == old(self)@.insert(k@, v.deep_view()),
    {
        proof {
            use_type_invariant(&*self);
        }
        let at = self.position(&k);
        let ghost before = *self;
        let mut taken: Table<V> = Table { keys: Vec::new(), vals: Vec::new() };
        std::mem::swap(&mut taken, self);
        let Table { mut keys, mut vals } = taken;
        match at {
            Some(i) => {
                vals.set(i, v);
                assert(keys.deep_view() =~= before.keys.deep_view());
            },
            None => {
                keys.push(k);
                vals.push(v);
                assert(keys.deep_view() =~= before.keys.deep_view().push(k@));
            },
        }
        *self = Table { keys, vals };
        proof {
            let ks = self.keys.deep_view();
            let old_ks = before.keys.deep_view();
            assert forall|x: Seq<char>| #[trigger] self@.contains_key(x) <==> before@.insert(k@, v.deep_view()).contains_key(x) by {
                if old_ks.contains(x) {
                    let j = choose|j: int| 0 <= j < old_ks.len() && old_ks[j] == x;
                    assert(ks[j] == x);
                }
                if ks.contains(x) && x != k@ {
                    let j = choose|j: int| 0 <= j < ks.len() && ks[j] == x;
                    assert(old_ks[j] == x);
                }
                if x == k@ {
                    match at {
                        Some(i) => {
                            assert(ks[i as int] == x);
                        },
                        None => {
                            assert(ks[ks.len() - 1] == x);
                        },
                    }
                }
            }
            assert forall|x: Seq<char>| #[trigger] self@.contains_key(x) implies self@[x] == before@.insert(k@, v.deep_view())[x] by {
                let j = self.slot(x);
                assert(0 <= j < ks.len() && ks[j] == x);
                if x != k@ {
                    assert(old_ks[j] == x);
                    assert(before.slot(x) == j);
                }
            }
            assert(self@ =~= before@.insert(k@, v.deep_view()));
        }
    }

    /// Takes the entry for `k` out and hands back what was stored for it.
    pub fn remove(&mut self, k: &UnitId) -> (r: Option<V>)
        ensures
            final(self)@ == old(self)@.remove(k@),
            match r {
                Some(v) => old(self)@.contains_key(k@) && v.deep_view() == old(self)@[k@],
                None => !old(self)@.contains_key(k@),
            },
    {
        proof {
            use_type_invariant(&*self);
        }
        let ghost before = *self;
        match self.position(k) {
            Some(i) => {
                let mut taken: Table<V> = Table { keys: Vec::new(), vals: Vec::new() };
                std::mem::swap(&mut taken, self);
                let Table { mut keys, mut vals } = taken;
                keys.remove(i);
                let v = vals.remove(i);
                assert(keys.deep_view() =~= before.keys.deep_view().remove(i as int));
                *self = Table { keys, vals };
                proof {
                    let ks = self.keys.deep_view();
                    let old_ks = before.keys.deep_view();
                    assert forall|x: Seq<char>| #[trigger] self@.contains_key(x) <==> before@.remove(k@).contains_key(x) by {
                        if ks.contains(x) {
                            let j = choose|j: int| 0 <= j < ks.len() && ks[j] == x;
                            if j < i {
                                assert(old_ks[j] == x);
                            } else {
                                assert(old_ks[j + 1] == x);
                            }
                        }
                        if old_ks.contains(x) && x != k@ {
                            let j = choose|j: int| 0 <= j < old_ks.len() && old_ks[j] == x;
                            if j < i {
                                assert(ks[j] == x);
                            } else {
                                assert(ks[j - 1] == x);
                            }
                        }
                    }
                    assert forall|x: Seq<char>| #[trigger] self@.contains_key(x) implies self@[x] == before@.remove(k@)[x] by {
                        let j = self.slot(x);
                        assert(0 <= j < ks.len() && ks[j] == x);
                        if j < i {
                            assert(old_ks[j] == x);
                            assert(before.slot(x) == j);
                        } else {
                            assert(old_ks[j + 1] == x);
                            assert(before.slot(x) == j + 1);
                        }
                    }
                    assert(self@ =~= before@.remove(k@));
                }
                Some(v)
            },
            None => {
                assert(self@ =~= before@.remove(k@));
                None
            },
        }
    }
}

} // verus!
