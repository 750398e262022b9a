//! A small table keyed by text and kept in the order of its keys.

use crate::text::{
    before, is_before, lemma_before_irreflexive, lemma_before_total, lemma_before_transitive, same,
};
use vstd::prelude::*;

verus! {

/// Keys stand in strictly rising order: none occurs twice.
pub open spec fn ordered(keys: Seq<Seq<char>>) -> bool {
    forall|i: int, j: int| 0 <= i < j < keys.len() ==> before(#[trigger] keys[i], #[trigger] keys[j])
}

/// Values by key, in the order of the keys.
pub struct Table<V> {
    keys: Vec<String>,
    values: Vec<V>,
}

impl<V> Table<V> {
    /// The keys, in order.
    pub closed spec fn keys(&self) -> Seq<Seq<char>> {
        self.keys.deep_view()
    }

    /// The values, in the order of their keys.
    pub closed spec fn values(&self) -> Seq<V> {
        self.values@
    }

    /// The keys are in strictly rising order, with one value each.
    #[verifier::type_invariant]
    spec fn wf(&self) -> bool {
        &&& self.keys().len() == self.values().len()
        &&& ordered(self.keys())
    }

    /// A table with nothing in it.
    pub fn new() -> (t: Self)
        ensures
            t.keys() == Seq::<Seq<char>>::empty(),
            t.values() == Seq::<V>::empty(),
    {
        Table { keys: Vec::new(), values: Vec::new() }
    }

    /// Where a key stands, or would have to stand, and whether it is there.
    pub fn slot(&self, key: &str) -> (r: (usize, bool))
        ensures
            ordered(self.keys()),
            self.keys().len() == self.values().len(),
            r.0 <= self.keys().len(),
            forall|j: int| 0 <= j < r.0 ==> before(#[trigger] self.keys()[j], key@),
            r.1 ==> r.0 < self.keys().len() && self.keys()[r.0 as int] == key@,
            !r.1 ==> forall|j: int|
                r.0 <= j < self.keys().len() ==> before(key@, #[trigger] self.keys()[j]),
            !r.1 ==> !self.keys().contains(key@),
    {
        proof {
            use_type_invariant(self);
        }
        let mut i: usize = 0;
        while i < self.keys.len() && is_before(self.keys[i].as_str(), key)
            invariant
                i <= self.keys.len(),
                forall|j: int| 0 <= j < i ==> before(#[trigger] self.keys()[j], key@),
            decreases self.keys.len() - i,
        {
            assert(self.keys()[i as int] == self.keys@[i as int]@);
            i += 1;
        }
        let found: bool = i < self.keys.len() && same(self.keys[i].as_str(), key);
        proof {
            let keys = self.keys();
            if i < keys.len() {
                assert(keys[i as int] == self.keys@[i as int]@);
            }
            if !found {
                assert forall|j: int| i <= j < keys.len() implies before(
                    key@,
                    #[trigger] keys[j],
                ) by {
                    lemma_before_total(key@, keys[i as int]);
                    if i < j {
                        lemma_before_transitive(key@, keys[i as int], keys[j]);
                    }
                }
                if keys.contains(key@) {
                    lemma_before_irreflexive(key@);
                }
            }
        }
        (i, found)
    }

    /// The value at an index.
    pub fn value(&self, i: usize) -> (v: &V)
        requires
            i < self.values().len(),
        ensures
            *v == self.values()[i as int],
    {
        &self.values[i]
    }

    /// Put a key where it has to stand.
    pub fn insert_at(&mut self, i: usize, key: String, value: V)
        requires
            i <= old(self).keys().len(),
            forall|j: int| 0 <= j < i ==> before(#[trigger] old(self).keys()[j], key@),
            forall|j: int|
                i <= j < old(self).keys().len() ==> before(key@, #[trigger] old(self).keys()[j]),
        ensures
            ordered(final(self).keys()),
            final(self).keys().len() == final(self).values().len(),
            final(self).keys() == old(self).keys().insert(i as int, key@),
            final(self).values() == old(self).values().insert(i as int, value),
    {
        proof {
            use_type_invariant(&*self);
        }
        let ghost was = self.keys();
        let ghost k = key@;
        let mut t = Table::new();
        std::mem::swap(self, &mut t);
        let Table { mut keys, mut values } = t;
        keys.insert(i, key);
        values.insert(i, value);
        assert(keys.deep_view() == was.insert(i as int, k));
        *self = Table { keys, values };
    }

    /// Put another value at an index.
    pub fn replace_at(&mut self, i: usize, value: V)
        requires
            i < old(self).keys().len(),
        ensures
            ordered(final(self).keys()),
            final(self).keys().len() == final(self).values().len(),
            final(self).keys() == old(self).keys(),
            final(self).values() == old(self).values().update(i as int, value),
    {
        proof {
            use_type_invariant(&*self);
        }
        let mut t = Table::new();
        std::mem::swap(self, &mut t);
        let Table { keys, mut values } = t;
        values.set(i, value);
        *self = Table { keys, values };
    }

    /// The table holds `value` under `key`.
    pub open spec fn holds(&self, key: Seq<char>, value: V) -> bool {
        exists|i: int|
            0 <= i < self.keys().len() && #[trigger] self.keys()[i] == key && self.values()[i]
                == value
    }

    /// Put a value under a key, in the place of what was there.
    pub fn insert(&mut self, key: String, value: V)
        ensures
            forall|k: Seq<char>, v: V| #[trigger]
                final(self).holds(k, v) <==> if k == key@ {
                    v == value
                } else {
                    old(self).holds(k, v)
                },
    {
        let ghost k0 = key@;
        let ghost was = *self;
        let (i, found) = self.slot(key.as_str());
        if found {
            self.replace_at(i, value);
        } else {
            self.insert_at(i, key, value);
        }
        proof {
            let at = i as int;
            assert forall|k: Seq<char>, v: V| #[trigger] self.holds(k, v) implies (if k == k0 {
                v == value
            } else {
                was.holds(k, v)
            }) by {
                let j = choose|j: int|
                    0 <= j < self.keys().len() && #[trigger] self.keys()[j] == k
                        && self.values()[j] == v;
                if found {
                    if j != at {
                        assert(was.keys()[j] == k && was.values()[j] == v);
                        lemma_before_irreflexive(k);
                        assert(k != k0);
                    }
                } else if j < at {
                    assert(was.keys()[j] == k && was.values()[j] == v);
                    assert(was.keys().contains(k));
                } else if j > at {
                    assert(was.keys()[j - 1] == k && was.values()[j - 1] == v);
                    assert(was.keys().contains(k));
                }
            }
            assert(self.keys()[at] == k0 && self.values()[at] == value);
            assert(self.holds(k0, value));
            assert forall|k: Seq<char>, v: V| k != k0 && was.holds(k, v) implies #[trigger]
                self.holds(k, v) by {
                let j = choose|j: int|
                    0 <= j < was.keys().len() && #[trigger] was.keys()[j] == k
                        && was.values()[j] == v;
                if found || j < at {
                    assert(self.keys()[j] == k && self.values()[j] == v);
                } else {
                    assert(self.keys()[j + 1] == k && self.values()[j + 1] == v);
                }
            }
        }
    }

    /// The values, in the order of their keys.
    pub fn into_values(self) -> (r: Vec<V>)
        ensures
            r@ == self.values(),
            ordered(self.keys()),
            self.keys().len() == self.values().len(),
    {
        proof {
            use_type_invariant(&self);
        }
        self.values
    }
}

} // verus!
