//! A small map from text keys to values that keeps its entries in insertion order.
//!
//! It stands where a hash map keyed by strings would: nothing occurs twice among
//! the keys, and an entry that is inserted again keeps its place.

use crate::text::str_equal;
use vstd::prelude::*;

verus! {

#[derive(Debug)]
pub struct Dict<V> {
    names: Vec<String>,
    items: Vec<V>,
}

impl<V> Dict<V> {
    #[verifier::type_invariant]
    spec fn inv(&self) -> bool {
        &&& self.names.len() == self.items.len()
        &&& forall|i: int, j: int|
            0 <= i < j < self.names.len() ==> self.names[i]@ != self.names[j]@
    }

    /// The keys, in the order in which they were first inserted.
    pub closed spec fn keys(&self) -> Seq<Seq<char>> {
        Seq::new(self.names.len() as nat, |i: int| self.names[i]@)
    }

    /// The values, each at the position of its key.
    pub closed spec fn values(&self) -> Seq<V> {
        self.items@
    }

    /// Position of a key among `keys()`, if it is present.
    pub open spec fn position(&self, key: Seq<char>) -> Option<int> {
        if self.keys().contains(key) {
            Some(self.keys().index_of(key))
        } else {
            None
        }
    }

    /// The dictionary as a mathematical map.
    pub open spec fn view(&self) -> Map<Seq<char>, V> {
        Map::new(|k: Seq<char>| self.keys().contains(k), |k: Seq<char>| self.values()[self.keys().index_of(k)])
    }

    /// What every dictionary satisfies: one value per key, and no key twice.
    pub open spec fn wf(&self) -> bool {
        &&& self.keys().len() == self.values().len()
        &&& self.keys().no_duplicates()
    }

    proof fn lemma_inv_wf(&self)
        requires
            self.inv(),
        ensures
            self.wf(),
    {
        assert forall|i: int, j: int|
            0 <= i < self.keys().len() && 0 <= j < self.keys().len() && i != j implies self.keys()[i]
                != self.keys()[j] by {
            if i < j {
                assert(self.names[i]@ != self.names[j]@);
            } else {
                assert(self.names[j]@ != self.names[i]@);
            }
        }
    }

    /// Makes `wf()` known of a dictionary at hand. It does nothing when run.
    pub fn observe(&self)
        ensures
            self.wf(),
    {
        proof {
            use_type_invariant(self);
            self.lemma_inv_wf();
        }
    }

    pub fn new() -> (r: Self)
        ensures
            r.keys() == Seq::<Seq<char>>::empty(),
            r.values() == Seq::<V>::empty(),
            r@ == Map::<Seq<char>, V>::empty(),
    {
        let r = Dict { names: Vec::new(), items: Vec::new() };
        assert(r.keys() =~= Seq::<Seq<char>>::empty());
        assert(r@ =~= Map::<Seq<char>, V>::empty());
        r
    }

    pub fn len(&self) -> (n: usize)
        ensures
            n == self.keys().len(),
            n == self.values().len(),
    {
        proof {
            use_type_invariant(self);
        }
        self.names.len()
    }

    pub fn is_empty(&self) -> (b: bool)
        ensures
            b == (self.keys().len() == 0),
            b == (self@ == Map::<Seq<char>, V>::empty()),
    {
        proof {
            use_type_invariant(self);
            if self.names.len() == 0 {
                assert(self@ =~= Map::<Seq<char>, V>::empty());
            } else {
                assert(self.keys()[0] == self.names[0]@);
                assert(self.keys().contains(self.names[0]@));
                assert(self@.contains_key(self.names[0]@));
            }
        }
        self.names.len() == 0
    }

    /// The key at a position.
    pub fn key_at(&self, i: usize) -> (k: &String)
        requires
            i < self.keys().len(),
        ensures
            k@ == self.keys()[i as int],
    {
        &self.names[i]
    }

    /// The value at a position: the value of the key at that position.
    pub fn value_at(&self, i: usize) -> (v: &V)
        requires
            i < self.values().len(),
        ensures
            *v == self.values()[i as int],
            i < self.keys().len(),
            self@.contains_key(self.keys()[i as int]),
            *v == self@[self.keys()[i as int]],
    {
        proof {
            use_type_invariant(self);
            self.lemma_inv_wf();
            let key = self.keys()[i as int];
            assert(self.keys().contains(key));
            let j = self.keys().index_of(key);
            assert(self.keys()[j] == key);
            assert(j == i);
        }
        &self.items[i]
    }

    /// The position of `key`, if the dictionary holds it.
    pub fn find(&self, key: &str) -> (r: Option<usize>)
        ensures
            match r {
                Some(i) => self.position(key@) == Some(i as int) && i < self.keys().len(),
                None => self.position(key@).is_none(),
            },
    {
        proof {
            use_type_invariant(self);
            self.lemma_inv_wf();
        }
        let mut i: usize = 0;
        while i < self.names.len()
            invariant
                i <= self.names.len(),
                self.wf(),
                forall|j: int| 0 <= j < i ==> self.keys()[j] != key@,
            decreases self.names.len() - i,
        {
            if str_equal(self.names[i].as_str(), key) {
                assert(self.keys()[i as int] == key@);
                return Some(i);
            }
            i += 1;
        }
        None
    }

    /// The value stored under `key`.
    pub fn get(&self, key: &str) -> (r: Option<&V>)
        ensures
            match r {
                Some(v) => self@.contains_key(key@) && *v == self@[key@],
                None => !self@.contains_key(key@),
            },
    {
        proof {
            use_type_invariant(self);
        }
        match self.find(key) {
            Some(i) => Some(&self.items[i]),
            None => None,
        }
    }

    /// Stores `value` under `key`. A key that is present keeps its place and gets
    /// the new value; a new key goes to the end.
    pub fn insert(&mut self, key: String, value: V)
        ensures
            final(self)@ == old(self)@.insert(key@, value),
            match old(self).position(key@) {
                Some(i) => final(self).keys() == old(self).keys() && final(self).values() == old(
                    self,
                ).values().update(i, value),
                None => final(self).keys() == old(self).keys().push(key@) && final(self).values()
                    == old(self).values().push(value),
            },
    {
        proof {
            use_type_invariant(&*self);
            self.lemma_inv_wf();
        }
        let found = self.find(key.as_str());
        let mut taken = Dict::new();
        core::mem::swap(self, &mut taken);
        let Dict { names, items } = taken;
        let mut names = names;
        let mut items = items;
        let ghost old_keys = old(self).keys();
        assert(old_keys =~= Seq::new(names.len() as nat, |i: int| names[i]@));
        match found {
            Some(i) => {
                items.set(i, value);
                *self = Dict { names, items };
                proof {
                    assert(self.keys() =~= old(self).keys());
                    assert(self@ =~= old(self)@.insert(key@, value));
                }
            },
            None => {
                names.push(key);
                items.push(value);
                proof {
                    assert forall|i: int, j: int| 0 <= i < j < names.len() implies names[i]@
                        != names[j]@ by {
                        if j == names.len() - 1 {
                            assert(old_keys[i] == names[i]@);
                        }
                    }
                }
                *self = Dict { names, items };
                proof {
                    assert(self.keys() =~= old(self).keys().push(key@));
                    let n = old(self).keys().len() as int;
                    assert(self.keys()[n] == key@);
                    assert forall|k: Seq<char>| self.keys().contains(k) <==> (old(
                        self,
                    ).keys().contains(k) || k == key@) by {
                        if old(self).keys().contains(k) {
                            let i = old(self).keys().index_of(k);
                            assert(self.keys()[i] == k);
                        }
                    }
                    assert forall|k: Seq<char>| old(self).keys().contains(k) implies self.keys().index_of(
                        k,
                    ) == old(self).keys().index_of(k) by {
                        let i = old(self).keys().index_of(k);
                        let j = self.keys().index_of(k);
                        assert(self.keys()[i] == k);
                        if i != j {
                            if i < j {
                                assert(self.names[i]@ != self.names[j]@);
                            } else {
                                assert(self.names[j]@ != self.names[i]@);
                            }
                        }
                    }
                    let m = self.keys().index_of(key@);
                    if m != n {
                        if m < n {
                            assert(self.names[m]@ != self.names[n]@);
                        } else {
                            assert(self.names[n]@ != self.names[m]@);
                        }
                    }
                    assert(self@ =~= old(self)@.insert(key@, value));
                }
            },
        }
    }
}

impl<V> Dict<V> {
    /// Takes the entry at a position out; the entries behind it move up.
    pub fn remove_at(&mut self, i: usize)
        requires
            i < old(self).keys().len(),
        ensures
            final(self).keys() == old(self).keys().remove(i as int),
            final(self).values() == old(self).values().remove(i as int),
            final(self)@ == old(self)@.remove(old(self).keys()[i as int]),
    {
        proof {
            use_type_invariant(&*self);
            self.lemma_inv_wf();
        }
        let mut taken = Dict::new();
        core::mem::swap(self, &mut taken);
        let Dict { names, items } = taken;
        let mut names = names;
        let mut items = items;
        let ghost old_keys = old(self).keys();
        let ghost old_values = old(self).values();
        assert(old_keys =~= Seq::new(names.len() as nat, |k: int| names[k]@));
        let ghost names_before = names@;
        names.remove(i);
        items.remove(i);
        proof {
            assert forall|a: int, b: int| 0 <= a < b < names.len() implies names[a]@ != names[b]@ by {
                let a0 = if a < i {
                    a
                } else {
                    a + 1
                };
                let b0 = if b < i {
                    b
                } else {
                    b + 1
                };
                assert(names[a] == names_before[a0]);
                assert(names[b] == names_before[b0]);
            }
        }
        *self = Dict { names, items };
        proof {
            let gone = old_keys[i as int];
            assert(self.keys() =~= old_keys.remove(i as int));
            assert(self.values() =~= old_values.remove(i as int));
            assert forall|k: Seq<char>| self.keys().contains(k) <==> (old_keys.contains(k) && k != gone) by {
                if self.keys().contains(k) {
                    let j = self.keys().index_of(k);
                    let j0 = if j < i {
                        j
                    } else {
                        j + 1
                    };
                    assert(old_keys[j0] == k);
                }
                if old_keys.contains(k) && k != gone {
                    let j0 = old_keys.index_of(k);
                    let j = if j0 < i {
                        j0
                    } else {
                        j0 - 1
                    };
                    assert(self.keys()[j] == k);
                }
            }
            assert forall|k: Seq<char>| self.keys().contains(k) implies self.values()[self.keys().index_of(
                k,
            )] == old_values[old_keys.index_of(k)] by {
                let j = self.keys().index_of(k);
                let j0 = if j < i {
                    j
                } else {
                    j + 1
                };
                assert(old_keys[j0] == k);
                assert(old_keys[old_keys.index_of(k)] == k);
                assert(old_keys.index_of(k) == j0);
            }
            assert(self@ =~= old(self)@.remove(gone));
        }
    }
}

impl Dict<String> {
    /// A dictionary with the same entries in the same order.
    pub fn duplicate(&self) -> (r: Self)
        ensures
            r.keys() == self.keys(),
            r.values() == self.values(),
            r@ == self@,
    {
        proof {
            use_type_invariant(self);
        }
        let mut names: Vec<String> = Vec::new();
        let mut items: Vec<String> = Vec::new();
        let mut i: usize = 0;
        while i < self.names.len()
            invariant
                i <= self.names.len(),
                self.names.len() == self.items.len(),
                names@ == self.names@.take(i as int),
                items@ == self.items@.take(i as int),
            decreases self.names.len() - i,
        {
            names.push(self.names[i].clone());
            items.push(self.items[i].clone());
            i += 1;
            assert(names@ =~= self.names@.take(i as int));
            assert(items@ =~= self.items@.take(i as int));
        }
        assert(names@ =~= self.names@);
        assert(items@ =~= self.items@);
        let r = Dict { names, items };
        assert(r.keys() =~= self.keys());
        assert(r@ =~= self@);
        r
    }
}

} // verus!
