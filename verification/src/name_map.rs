//! An association map keyed by name, the backing store for every
//! name-to-value lookup in the engine (inventories by commodity, strategies
//! by name). Viewed in specifications as a `Map<Seq<char>, T>`.

use vstd::map::*;
use vstd::prelude::*;

use crate::strings::str_eq;

verus! {

/// `names[i]` is the entry for `k` when `i` is in range and matches.
pub open spec fn has_key_at(names: Seq<String>, k: Seq<char>, i: int) -> bool {
    0 <= i < names.len() && names[i]@ == k
}

/// Some entry of `names` is the key `k`.
pub open spec fn seq_has_key(names: Seq<String>, k: Seq<char>) -> bool {
    exists|i: int| has_key_at(names, k, i)
}

/// The index of the entry for `k` (meaningful only when `seq_has_key`).
pub open spec fn index_of(names: Seq<String>, k: Seq<char>) -> int {
    choose|i: int| has_key_at(names, k, i)
}

/// A mapping from names to values of type `T`, with each name present at
/// most once. Lookups compare names character for character.
#[derive(Debug)]
pub struct NamedMap<T> {
    names: Vec<String>,
    values: Vec<T>,
}

impl<T> View for NamedMap<T> {
    type V = Map<Seq<char>, T>;

    closed spec fn view(&self) -> Map<Seq<char>, T> {
        Map::new(
            |k: Seq<char>| seq_has_key(self.names@, k),
            |k: Seq<char>| self.values@[index_of(self.names@, k)],
        )
    }
}

impl<T> NamedMap<T> {
    /// One value per name, and no name twice.
    pub closed spec fn wf(self) -> bool {
        &&& self.names@.len() == self.values@.len()
        &&& forall|i: int, j: int|
            0 <= i < j < self.names@.len() ==> self.names@[i]@ != self.names@[j]@
    }

    proof fn lemma_view_at(self, i: int)
        requires
            self.wf(),
            0 <= i < self.names@.len(),
        ensures
            self@.contains_key(self.names@[i]@),
            self@[self.names@[i]@] == self.values@[i],
    {
        let k = self.names@[i]@;
        assert(has_key_at(self.names@, k, i));
        let j = index_of(self.names@, k);
        assert(has_key_at(self.names@, k, j));
        if i != j {
            if i < j {
                assert(self.names@[i]@ != self.names@[j]@);
            } else {
                assert(self.names@[j]@ != self.names@[i]@);
            }
        }
    }

    /// An empty map.
    pub fn new() -> (r: Self)
        ensures
            r.wf(),
            r@ == Map::<Seq<char>, T>::empty(),
    {
        let r = NamedMap { names: Vec::new(), values: Vec::new() };
        proof {
            assert(r@ =~= Map::<Seq<char>, T>::empty());
        }
        r
    }

    fn find(&self, name: &str) -> (r: Option<usize>)
        requires
            self.wf(),
        ensures
            match r {
                Some(i) => has_key_at(self.names@, name@, i as int) && self@.contains_key(name@)
                    && self@[name@] == self.values@[i as int],
                None => !self@.contains_key(name@),
            },
    {
        let n = self.names.len();
        let mut i: usize = 0;
        while i < n
            invariant
                self.wf(),
                n == self.names@.len(),
                i <= n,
                forall|j: int| 0 <= j < i ==> self.names@[j]@ != name@,
            decreases n - i,
        {
            if str_eq(self.names[i].as_str(), name) {
                proof {
                    self.lemma_view_at(i as int);
                }
                return Some(i);
            }
            i = i + 1;
        }
        proof {
            assert(forall|j: int| !has_key_at(self.names@, name@, j));
        }
        None
    }

    /// Whether an entry under `name` exists.
    pub fn contains(&self, name: &str) -> (r: bool)
        requires
            self.wf(),
        ensures
            r == self@.contains_key(name@),
    {
        self.find(name).is_some()
    }

    /// The value stored under `name`, if any.
    pub fn get(&self, name: &str) -> (r: Option<&T>)
        requires
            self.wf(),
        ensures
            match r {
                Some(v) => self@.contains_key(name@) && *v == self@[name@],
                None => !self@.contains_key(name@),
            },
    {
        match self.find(name) {
            Some(i) => Some(&self.values[i]),
            None => None,
        }
    }

    /// Store `value` under `name`, replacing any previous value.
    pub fn insert(&mut self, name: String, value: T)
        requires
            old(self).wf(),
        ensures
            final(self).wf(),
            final(self)@ == old(self)@.insert(name@, value),
    {
        match self.find(name.as_str()) {
            Some(i) => {
                self.values[i] = value;
                proof {
                    let ghost idx = i as int;
                    assert(self.names@ == old(self).names@);
                    assert forall|k: Seq<char>| self@.contains_key(k) implies self@[k] == old(
                        self,
                    )@.insert(name@, value)[k] by {
                        let j = index_of(self.names@, k);
                        assert(has_key_at(self.names@, k, j));
                        if k == name@ {
                            if j != idx {
                                assert(self.names@[j]@ == name@ && self.names@[idx]@ == name@);
                                assert(false);
                            }
                        } else {
                            assert(j != idx);
                            old(self).lemma_view_at(j);
                        }
                    }
                    assert(self@ =~= old(self)@.insert(name@, value));
                }
            },
            None => {
                proof {
                    let ghost n = self.names@.len() as int;
                    assert(forall|j: int| !has_key_at(self.names@, name@, j));
                }
                self.names.push(name);
                self.values.push(value);
                proof {
                    let ghost n = old(self).names@.len() as int;
                    assert forall|i: int, j: int|
                        0 <= i < j < self.names@.len() implies self.names@[i]@
                        != self.names@[j]@ by {
                        if j < n {
                            assert(old(self).names@[i]@ != old(self).names@[j]@);
                        } else {
                            assert(self.names@[j]@ == name@);
                            assert(!has_key_at(old(self).names@, name@, i));
                        }
                    }
                    assert(self.wf());
                    assert(self.names@[n]@ == name@);
                    assert_maps_equal!(self@, old(self)@.insert(name@, value), k => {
                        if k == name@ {
                            assert(has_key_at(self.names@, k, n));
                            self.lemma_view_at(n);
                        } else {
                            if old(self)@.contains_key(k) {
                                let j = index_of(old(self).names@, k);
                                assert(has_key_at(old(self).names@, k, j));
                                assert(has_key_at(self.names@, k, j));
                                self.lemma_view_at(j);
                                old(self).lemma_view_at(j);
                            }
                            if self@.contains_key(k) {
                                let j = index_of(self.names@, k);
                                assert(has_key_at(self.names@, k, j));
                                assert(j < n);
                                assert(has_key_at(old(self).names@, k, j));
                                self.lemma_view_at(j);
                                old(self).lemma_view_at(j);
                            }
                        }
                    });
                }
            },
        }
    }

    /// Replace the value stored under an existing `name`.
    pub fn update(&mut self, name: &str, value: T)
        requires
            old(self).wf(),
            old(self)@.contains_key(name@),
        ensures
            final(self).wf(),
            final(self)@ == old(self)@.insert(name@, value),
    {
        match self.find(name) {
            Some(i) => {
                self.values[i] = value;
                proof {
                    let ghost idx = i as int;
                    assert(self.names@ == old(self).names@);
                    assert forall|k: Seq<char>| self@.contains_key(k) implies self@[k] == old(
                        self,
                    )@.insert(name@, value)[k] by {
                        let j = index_of(self.names@, k);
                        assert(has_key_at(self.names@, k, j));
                        if k == name@ {
                            if j != idx {
                                assert(self.names@[j]@ == name@ && self.names@[idx]@ == name@);
                                assert(false);
                            }
                        } else {
                            assert(j != idx);
                            old(self).lemma_view_at(j);
                        }
                    }
                    assert(self@ =~= old(self)@.insert(name@, value));
                }
            },
            None => {
                proof {
                    assert(false);
                }
            },
        }
    }
}

} // verus!
