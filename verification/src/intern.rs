//! A set of byte strings, numbered in the order in which they were first seen.
use crate::order::bytes_eq;
use crate::outside::hashes::{xxh3_64, xxh3_64_of};
use crate::rows::{byte_rows, copy_bytes};
use std::collections::HashMap;
use vstd::prelude::*;

verus! {

broadcast use vstd::std_specs::hash::group_hash_axioms;

/// Numbers distinct byte strings. Lookups go through a hash index.
pub struct Interner {
    items: Vec<Vec<u8>>,
    index: HashMap<u64, Vec<usize>>,
}

/// No two items are equal.
pub open spec fn distinct(items: Seq<Seq<u8>>) -> bool {
    forall|i: int, j: int| 0 <= i < j < items.len() ==> items[i] != items[j]
}

impl Interner {
    /// The distinct strings in first-seen order.
    pub closed spec fn view(&self) -> Seq<Seq<u8>> {
        byte_rows(self.items@)
    }

    #[verifier::type_invariant]
    spec fn inv(&self) -> bool {
        &&& distinct(byte_rows(self.items@))
        &&& forall|i: int|
            #![trigger self.items@[i]]
            0 <= i < self.items@.len() ==> self.index@.contains_key(xxh3_64_of(self.items@[i]@))
                && self.index@[xxh3_64_of(self.items@[i]@)]@.contains(i as usize)
        &&& forall|h: u64, k: int|
            #![trigger self.index@[h]@[k]]
            self.index@.contains_key(h) && 0 <= k < self.index@[h]@.len() ==> self.index@[h]@[k]
                < self.items@.len()
    }

    pub fn new() -> (r: Self)
        ensures
            r@ == Seq::<Seq<u8>>::empty(),
    {
        let r = Interner { items: Vec::new(), index: HashMap::new() };
        assert(r@ =~= Seq::empty());
        r
    }

    pub fn len(&self) -> (r: usize)
        ensures
            r == self@.len(),
            distinct(self@),
    {
        proof {
            use_type_invariant(self);
        }
        self.items.len()
    }

    /// The string with the number `i`.
    pub fn get(&self, i: usize) -> (r: &Vec<u8>)
        requires
            i < self@.len(),
        ensures
            r@ == self@[i as int],
            distinct(self@),
    {
        proof {
            use_type_invariant(self);
        }
        &self.items[i]
    }

    /// All strings in first-seen order.
    pub fn into_items(self) -> (r: Vec<Vec<u8>>)
        ensures
            byte_rows(r@) == self@,
            distinct(self@),
    {
        proof {
            use_type_invariant(&self);
        }
        self.items
    }

    /// The number of `value`, if it was seen.
    fn find(&self, value: &[u8], h: u64) -> (r: Option<usize>)
        requires
            h == xxh3_64_of(value@),
        ensures
            match r {
                Some(i) => i < self@.len() && self@[i as int] == value@,
                None => !self@.contains(value@),
            },
    {
        proof {
            use_type_invariant(self);
        }
        let ghost items = byte_rows(self.items@);
        assert(self.items.len() == items.len());
        match self.index.get(&h) {
            Some(bucket) => {
                let mut k: usize = 0;
                while k < bucket.len()
                    invariant
                        k <= bucket@.len(),
                        items == byte_rows(self.items@),
                        items == self@,
                        forall|j: int|
                            0 <= j < bucket@.len() ==> #[trigger] bucket@[j] < self.items@.len(),
                        forall|j: int| 0 <= j < k ==> items[#[trigger] bucket@[j] as int] != value@,
                    decreases bucket.len() - k,
                {
                    let id: usize = bucket[k];
                    if bytes_eq(self.items[id].as_slice(), value) {
                        return Some(id);
                    }
                    k = k + 1;
                }
                proof {
                    if items.contains(value@) {
                        let i = choose|i: int| 0 <= i < items.len() && items[i] == value@;
                        assert(self.items@[i]@ == value@);
                        assert(bucket@.contains(i as usize));
                        let j = choose|j: int| 0 <= j < bucket@.len() && bucket@[j] == i as usize;
                        assert(items[bucket@[j] as int] != value@);
                    }
                }
                None
            },
            None => {
                proof {
                    if items.contains(value@) {
                        let i = choose|i: int| 0 <= i < items.len() && items[i] == value@;
                        assert(self.items@[i]@ == value@);
                    }
                }
                None
            },
        }
    }

    /// The number of `value`, and whether it was seen for the first time.
    pub fn find_or_add(&mut self, value: &[u8]) -> (r: (usize, bool))
        ensures
            r.0 < final(self)@.len(),
            final(self)@[r.0 as int] == value@,
            r.1 == !old(self)@.contains(value@),
            final(self)@ == (if r.1 {
                old(self)@.push(value@)
            } else {
                old(self)@
            }),
            r.1 ==> r.0 == old(self)@.len(),
            distinct(final(self)@),
    {
        proof {
            use_type_invariant(&*self);
        }
        let h: u64 = xxh3_64(value);
        match self.find(value, h) {
            Some(i) => (i, false),
            None => {
                let ghost old_items = self.items@;
                let ghost old_index = self.index@;
                let mut taken = Interner::new();
                std::mem::swap(self, &mut taken);
                let Interner { mut items, mut index } = taken;
                let id: usize = items.len();
                let mut bucket: Vec<usize> = match index.remove(&h) {
                    Some(b) => b,
                    None => Vec::new(),
                };
                let ghost old_bucket = bucket@;
                bucket.push(id);
                let ghost new_bucket = bucket@;
                index.insert(h, bucket);
                items.push(copy_bytes(value));
                proof {
                    assert(byte_rows(items@) =~= byte_rows(old_items).push(value@));
                    assert forall|i: int|
                        #![trigger items@[i]]
                        0 <= i < items@.len() implies index@.contains_key(xxh3_64_of(items@[i]@))
                        && index@[xxh3_64_of(items@[i]@)]@.contains(i as usize) by {
                        let g = xxh3_64_of(items@[i]@);
                        if i < id {
                            assert(items@[i] == old_items[i]);
                            assert(old_index[g]@.contains(i as usize));
                            if g == h {
                                let j = choose|j: int|
                                    0 <= j < old_bucket.len() && old_bucket[j] == i as usize;
                                assert(new_bucket[j] == i as usize);
                            } else {
                                assert(index@[g] == old_index[g]);
                            }
                        } else {
                            assert(new_bucket[old_bucket.len() as int] == id);
                        }
                    }
                    assert forall|g: u64, k: int|
                        #![trigger index@[g]@[k]]
                        index@.contains_key(g) && 0 <= k < index@[g]@.len() implies index@[g]@[k]
                        < items@.len() by {
                        if g == h {
                            if k < old_bucket.len() {
                                assert(old_index.contains_key(h));
                                assert(old_index[h]@[k] < old_items.len());
                            }
                        } else {
                            assert(old_index[g]@[k] < old_items.len());
                        }
                    }
                    assert(distinct(byte_rows(items@)));
                }
                *self = Interner { items, index };
                (id, true)
            },
        }
    }
}

} // verus!
