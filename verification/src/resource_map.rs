//! A map from resource identifiers, which are byte strings, to 64-bit values.
//!
//! Both the ownership table and the index from a resource to its open auction
//! are such maps. The entries live in a vector in which no key occurs twice.

use vstd::prelude::*;
use crate::assoc::{distinct_keys, to_map, lemma_to_map_domain, lemma_to_map_entry,
    lemma_to_map_absent, lemma_to_map_push, lemma_to_map_update, lemma_to_map_remove};
use crate::bytes::{bytes_eq, bytes_copy};

verus! {

/// One entry: a resource identifier and the value recorded for it.
struct ResourceEntry {
    key: Vec<u8>,
    value: u64,
}

/// A finite map from byte strings to `u64`.
pub struct ResourceMap {
    entries: Vec<ResourceEntry>,
}

impl View for ResourceMap {
    type V = Map<Seq<u8>, u64>;

    closed spec fn view(&self) -> Map<Seq<u8>, u64> {
        to_map(self.pairs())
    }
}

impl ResourceMap {
    /// The entries as pairs of plain values, in the order in which they are kept.
    pub closed spec fn pairs(&self) -> Seq<(Seq<u8>, u64)> {
        Seq::new(self.entries@.len(), |i: int| (self.entries@[i].key@, self.entries@[i].value))
    }

    /// No resource identifier is recorded twice.
    pub closed spec fn inv(&self) -> bool {
        distinct_keys(self.pairs())
    }

    /// The empty map.
    pub fn new() -> (m: ResourceMap)
        ensures
            m.inv(),
            m@ == Map::<Seq<u8>, u64>::empty(),
    {
        let m = ResourceMap { entries: Vec::new() };
        assert(m.pairs() =~= Seq::empty());
        m
    }

    /// The position of the key's entry, if it has one.
    fn find(&self, key: &Vec<u8>) -> (at: Option<usize>)
        requires
            self.inv(),
        ensures
            match at {
                Some(i) => i < self.entries@.len() && self.pairs()[i as int].0 == key@
                    && self@.contains_key(key@) && self@[key@] == self.pairs()[i as int].1,
                None => !self@.contains_key(key@),
            },
    {
        let mut i: usize = 0;
        while i < self.entries.len()
            invariant
                self.inv(),
                i <= self.entries@.len(),
                forall|j: int| 0 <= j < i ==> self.pairs()[j].0 != key@,
            decreases self.entries.len() - i,
        {
            if bytes_eq(&self.entries[i].key, key) {
                proof {
                    lemma_to_map_entry(self.pairs(), i as int);
                }
                return Some(i);
            }
            i += 1;
        }
        proof {
            lemma_to_map_absent(self.pairs(), key@);
        }
        None
    }

    /// Whether the key has an entry.
    pub fn contains_key(&self, key: &Vec<u8>) -> (present: bool)
        requires
            self.inv(),
        ensures
            present == self@.contains_key(key@),
    {
        self.find(key).is_some()
    }

    /// The value recorded for the key, if any.
    pub fn get(&self, key: &Vec<u8>) -> (value: Option<u64>)
        requires
            self.inv(),
        ensures
            value == (if self@.contains_key(key@) {
                Some(self@[key@])
            } else {
                None
            }),
    {
        match self.find(key) {
            Some(i) => Some(self.entries[i].value),
            None => None,
        }
    }

    /// Records the value for the key, in place of any earlier one.
    pub fn insert(&mut self, key: Vec<u8>, value: u64)
        requires
            old(self).inv(),
        ensures
            final(self).inv(),
            final(self)@ == old(self)@.insert(key@, value),
    {
        let ghost before = self.pairs();
        match self.find(&key) {
            Some(i) => {
                self.entries[i].value = value;
                proof {
                    lemma_to_map_update(before, i as int, value);
                    assert(self.pairs() =~= before.update(i as int, (before[i as int].0, value)));
                }
            },
            None => {
                self.entries.push(ResourceEntry { key, value });
                proof {
                    assert(self.pairs() =~= before.push((key@, value)));
                    lemma_to_map_push(before, key@, value);
                    assert forall|a: int, b: int| 0 <= a < b < self.pairs().len() implies self.pairs()[a].0
                        != self.pairs()[b].0 by {
                        if b == before.len() {
                            lemma_to_map_domain(before, key@);
                            assert(before[a].0 != key@);
                        } else {
                            assert(before[a].0 != before[b].0);
                        }
                    }
                }
            },
        }
    }

    /// Removes the key's entry, if it has one.
    pub fn remove(&mut self, key: &Vec<u8>)
        requires
            old(self).inv(),
        ensures
            final(self).inv(),
            final(self)@ == old(self)@.remove(key@),
    {
        let ghost before = self.pairs();
        match self.find(key) {
            Some(i) => {
                let _gone = self.entries.remove(i);
                proof {
                    lemma_to_map_remove(before, i as int);
                    assert(self.pairs() =~= before.remove(i as int));
                }
            },
            None => {
                assert(self@ =~= old(self)@.remove(key@));
            },
        }
    }

    /// A copy that stands for the same map.
    pub fn duplicate(&self) -> (copy: ResourceMap)
        requires
            self.inv(),
        ensures
            copy.inv(),
            copy@ == self@,
    {
        let mut entries: Vec<ResourceEntry> = Vec::new();
        let mut i: usize = 0;
        while i < self.entries.len()
            invariant
                i <= self.entries@.len(),
                entries@.len() == i,
                forall|j: int|
                    0 <= j < i ==> entries@[j].key@ == self.entries@[j].key@ && entries@[j].value
                        == self.entries@[j].value,
            decreases self.entries.len() - i,
        {
            entries.push(
                ResourceEntry { key: bytes_copy(&self.entries[i].key), value: self.entries[i].value },
            );
            i += 1;
        }
        let copy = ResourceMap { entries };
        assert(copy.pairs() =~= self.pairs());
        copy
    }
}

} // verus!
