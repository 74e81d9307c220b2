//! Positions grouped by hash value.

use std::collections::HashMap;
use vstd::prelude::*;

verus! {

broadcast use vstd::std_specs::hash::group_hash_axioms;

/// Maps each hash value to the positions that were filed under it, in the
/// order of filing.
#[derive(Debug)]
pub(crate) struct HashIndex {
    buckets: HashMap<u64, Vec<usize>>,
}

impl HashIndex {
    /// The positions filed under a hash value.
    pub closed spec fn positions(&self, hash: u64) -> Seq<usize> {
        if self.buckets@.contains_key(hash) {
            self.buckets@[hash]@
        } else {
            Seq::empty()
        }
    }

    pub fn new() -> (index: Self)
        ensures
            forall|hash: u64| #[trigger]
                index.positions(hash) == Seq::<usize>::empty(),
    {
        HashIndex { buckets: HashMap::new() }
    }

    /// Files a position under a hash value.
    pub fn add(&mut self, hash: u64, position: usize)
        ensures
            forall|other: u64| #[trigger]
                final(self).positions(other) == (if other == hash {
                    old(self).positions(hash).push(position)
                } else {
                    old(self).positions(other)
                }),
    {
        let mut bucket = match self.buckets.remove(&hash) {
            Some(bucket) => bucket,
            None => Vec::new(),
        };
        assert(bucket@ == old(self).positions(hash));
        bucket.push(position);
        self.buckets.insert(hash, bucket);
    }

    /// The positions filed under a hash value, if there are any.
    pub fn at(&self, hash: u64) -> (positions: Option<&Vec<usize>>)
        ensures
            match positions {
                Some(positions) => positions@ == self.positions(hash),
                None => self.positions(hash) == Seq::<usize>::empty(),
            },
    {
        self.buckets.get(&hash)
    }

    /// Forgets all positions.
    pub fn clear(&mut self)
        ensures
            forall|hash: u64| #[trigger]
                final(self).positions(hash) == Seq::<usize>::empty(),
    {
        self.buckets.clear();
    }
}

} // verus!
