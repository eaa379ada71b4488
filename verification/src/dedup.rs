//! Which dictionary values of a column are the same.

use std::collections::HashMap;

use vstd::prelude::*;

use crate::value_key::{digest, digest_key, same_key, KeyModel, ValueKey};

verus! {

broadcast use vstd::std_specs::hash::group_hash_axioms;

/// Keys in the order in which they were first seen, each once.
pub struct SeenKeys {
    keys: Vec<ValueKey>,
    /// The places of the keys of each digest.
    places: HashMap<u64, Vec<usize>>,
}

impl SeenKeys {
    /// The keys, in their order.
    pub closed spec fn view(&self) -> Seq<KeyModel> {
        Seq::new(self.keys.len() as nat, |i: int| self.keys[i]@)
    }

    /// No key occurs twice, and each is found by its digest.
    pub closed spec fn well_formed(&self) -> bool {
        &&& forall|i: int, j: int|
            0 <= i < j < self.keys.len() ==> (#[trigger] self.keys[i])@ != (#[trigger] self.keys[j])@
        &&& forall|i: int|
            0 <= i < self.keys.len() ==> {
                &&& self.places@.contains_key(digest((#[trigger] self.keys[i])@))
                &&& self.places@[digest(self.keys[i]@)]@.contains(i as usize)
            }
        &&& forall|d: u64, p: int|
            self.places@.contains_key(d) && 0 <= p < self.places@[d].len()
                ==> #[trigger] self.places@[d]@[p] < self.keys.len()
    }

    /// No keys.
    pub fn new() -> (r: Self)
        ensures
            r.well_formed(),
            r@ == Seq::<KeyModel>::empty(),
    {
        let r = SeenKeys { keys: Vec::new(), places: HashMap::new() };
        assert(r@ =~= Seq::<KeyModel>::empty());
        r
    }

    /// How many keys there are.
    pub fn len(&self) -> (r: usize)
        ensures
            r == self@.len(),
    {
        self.keys.len()
    }

    /// The place of a key, where it was seen before.
    fn find(&self, key: &ValueKey) -> (r: Option<usize>)
        requires
            self.well_formed(),
        ensures
            match r {
                Some(i) => i < self@.len() && self@[i as int] == key@,
                None => !self@.contains(key@),
            },
    {
        let d: u64 = digest_key(key);
        match self.places.get(&d) {
            Some(places) => {
                let mut p: usize = 0;
                while p < places.len()
                    invariant
                        p <= places.len(),
                        self.well_formed(),
                        self.places@.contains_key(d),
                        self.places@[d] == *places,
                        forall|q: int|
                            0 <= q < p ==> self.keys[#[trigger] places[q] as int]@ != key@,
                    decreases places.len() - p,
                {
                    let i: usize = places[p];
                    assert(self.places@[d]@[p as int] < self.keys.len());
                    if same_key(&self.keys[i], key) {
                        return Some(i);
                    }
                    p += 1;
                }
                proof {
                    if self@.contains(key@) {
                        let i = choose|i: int| 0 <= i < self@.len() && self@[i] == key@;
                        assert(self.keys[i]@ == key@);
                        assert(places@.contains(i as usize));
                        let q = choose|q: int| 0 <= q < places.len() && places@[q] == i as usize;
                        assert(places[q] as int == i);
                    }
                }
                None
            },
            None => {
                proof {
                    if self@.contains(key@) {
                        let i = choose|i: int| 0 <= i < self@.len() && self@[i] == key@;
                        assert(self.keys[i]@ == key@);
                    }
                }
                None
            },
        }
    }

    /// The place of a key; a key that was not seen before is added at the end.
    pub fn place(&mut self, key: ValueKey) -> (r: usize)
        requires
            old(self).well_formed(),
        ensures
            final(self).well_formed(),
            r < final(self)@.len(),
            final(self)@[r as int] == key@,
            final(self)@ == (if old(self)@.contains(key@) {
                old(self)@
            } else {
                old(self)@.push(key@)
            }),
    {
        match self.find(&key) {
            Some(i) => {
                assert(self@.contains(key@));
                i
            },
            None => {
                let id: usize = self.keys.len();
                let d: u64 = digest_key(&key);
                let mut places: Vec<usize> = match self.places.remove(&d) {
                    Some(places) => places,
                    None => Vec::new(),
                };
                let ghost before = places@;
                places.push(id);
                self.places.insert(d, places);
                let ghost k = key@;
                self.keys.push(key);
                proof {
                    assert(self@ =~= old(self)@.push(k));
                    assert forall|i: int| 0 <= i < self.keys.len() implies {
                        &&& self.places@.contains_key(digest((#[trigger] self.keys[i])@))
                        &&& self.places@[digest(self.keys[i]@)]@.contains(i as usize)
                    } by {
                        if i < id {
                            assert(self.keys[i] == old(self).keys[i]);
                            let d0 = digest(self.keys[i]@);
                            if d0 == d {
                                let q = choose|q: int|
                                    0 <= q < before.len() && before[q] == i as usize;
                                assert(self.places@[d]@[q] == i as usize);
                            }
                        } else {
                            assert(self.places@[d]@[before.len() as int] == id);
                        }
                    }
                    assert forall|i: int, j: int| 0 <= i < j < self.keys.len() implies (
                    #[trigger] self.keys[i])@ != (#[trigger] self.keys[j])@ by {
                        assert(self.keys[i] == old(self).keys[i]);
                        assert(old(self)@[i] == self.keys[i]@);
                        if j < id {
                            assert(self.keys[j] == old(self).keys[j]);
                        } else if self.keys[i]@ == k {
                            assert(old(self)@.contains(k));
                        }
                    }
                    assert forall|d0: u64, p: int|
                        self.places@.contains_key(d0) && 0 <= p
                            < self.places@[d0].len() implies #[trigger] self.places@[d0]@[p]
                        < self.keys.len() by {
                        if d0 == d {
                            if p < before.len() {
                                assert(before[p] == self.places@[d]@[p]);
                                assert(old(self).places@[d]@[p] < id);
                            }
                        } else {
                            assert(old(self).places@[d0]@[p] < id);
                        }
                    }
                }
                id
            },
        }
    }
}

} // verus!
