//! Ordering stacks by the memory they hold.

use crate::aggregator::AllocationStats;
use crate::event::StackId;
use vstd::prelude::*;

verus! {

broadcast use vstd::seq_lib::group_to_multiset_ensures;

/// The statistics of a stack.
#[derive(Debug, Clone, Copy)]
pub struct StackStats {
    pub stack_id: StackId,
    pub stats: AllocationStats,
}

impl StackStats {
    /// Whether no entry holds fewer bytes than one that comes after it.
    pub open spec fn ranked(entries: Seq<StackStats>) -> bool {
        forall|i: int, j: int|
            0 <= i < j < entries.len() ==> (#[trigger] entries[i]).stats.current_bytes >= (
            #[trigger] entries[j]).stats.current_bytes
    }
}

/// Copies a part of the entries.
fn part(entries: &Vec<StackStats>, from: usize, to: usize) -> (copy: Vec<StackStats>)
    requires
        from <= to <= entries@.len(),
    ensures
        copy@ == entries@.subrange(from as int, to as int),
{
    let mut copy: Vec<StackStats> = Vec::new();
    for i in from..to
        invariant
            from <= i <= to <= entries@.len(),
            copy@ == entries@.subrange(from as int, i as int),
    {
        copy.push(entries[i]);
        assert(copy@ =~= entries@.subrange(from as int, i as int + 1));
    }
    copy
}

/// Merges two ranked sequences into one.
fn merge(left: Vec<StackStats>, right: Vec<StackStats>) -> (merged: Vec<StackStats>)
    requires
        StackStats::ranked(left@),
        StackStats::ranked(right@),
    ensures
        StackStats::ranked(merged@),
        merged@.to_multiset() == left@.to_multiset().add(right@.to_multiset()),
        merged@.len() == left@.len() + right@.len(),
{
    let mut merged: Vec<StackStats> = Vec::new();
    let mut i: usize = 0;
    let mut j: usize = 0;
    assert(left@.take(0) =~= Seq::<StackStats>::empty());
    assert(right@.take(0) =~= Seq::<StackStats>::empty());
    assert(merged@.to_multiset() =~= left@.take(0).to_multiset().add(right@.take(0).to_multiset()));
    while i < left.len() || j < right.len()
        invariant
            i <= left@.len(),
            j <= right@.len(),
            StackStats::ranked(left@),
            StackStats::ranked(right@),
            StackStats::ranked(merged@),
            merged@.len() == i + j,
            merged@.to_multiset() == left@.take(i as int).to_multiset().add(
                right@.take(j as int).to_multiset(),
            ),
            forall|k: int, l: int|
                0 <= k < merged@.len() && i <= l < left@.len() ==> (
                #[trigger] merged@[k]).stats.current_bytes >= (
                #[trigger] left@[l]).stats.current_bytes,
            forall|k: int, l: int|
                0 <= k < merged@.len() && j <= l < right@.len() ==> (
                #[trigger] merged@[k]).stats.current_bytes >= (
                #[trigger] right@[l]).stats.current_bytes,
        decreases left@.len() - i + right@.len() - j,
    {
        let ghost before = merged@;
        if j >= right.len() || (i < left.len() && left[i].stats.current_bytes
            >= right[j].stats.current_bytes) {
            assert(left@.take(i as int + 1) =~= left@.take(i as int).push(left@[i as int]));
            merged.push(left[i]);
            assert(merged@ =~= before.push(left@[i as int]));
            assert(merged@.to_multiset() =~= left@.take(i as int + 1).to_multiset().add(
                right@.take(j as int).to_multiset(),
            ));
            i = i + 1;
        } else {
            assert(right@.take(j as int + 1) =~= right@.take(j as int).push(right@[j as int]));
            merged.push(right[j]);
            assert(merged@ =~= before.push(right@[j as int]));
            assert(merged@.to_multiset() =~= left@.take(i as int).to_multiset().add(
                right@.take(j as int + 1).to_multiset(),
            ));
            j = j + 1;
        }
    }
    assert(left@.take(left@.len() as int) =~= left@);
    assert(right@.take(right@.len() as int) =~= right@);
    merged
}

/// Orders the entries by the bytes they hold, the most first.
pub(crate) fn rank(entries: Vec<StackStats>) -> (ranking: Vec<StackStats>)
    ensures
        StackStats::ranked(ranking@),
        ranking@.to_multiset() == entries@.to_multiset(),
        ranking@.len() == entries@.len(),
    decreases entries@.len(),
{
    let len: usize = entries.len();
    if len <= 1 {
        return entries;
    }
    let middle: usize = len / 2;
    let left = part(&entries, 0, middle);
    let right = part(&entries, middle, len);
    assert(entries@ =~= left@ + right@);
    proof {
        vstd::seq_lib::lemma_multiset_commutative(left@, right@);
    }
    merge(rank(left), rank(right))
}

} // verus!
