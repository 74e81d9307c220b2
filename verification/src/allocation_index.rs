//! The live allocations by address.

use crate::event::StackId;
use dashmap::DashMap;
use nohash_hasher::BuildNoHashHasher;
use vstd::prelude::*;

verus! {

/// What is remembered of a live allocation.
#[derive(Debug, Clone, Copy, PartialEq, Eq, Structural)]
pub struct AllocationRecord {
    pub size: usize,
    pub stack_id: StackId,
}

/// The sharded map of the `dashmap` crate.
#[verifier::external_type_specification]
#[verifier::external_body]
#[verifier::reject_recursive_types(K)]
#[verifier::reject_recursive_types(V)]
#[verifier::reject_recursive_types(S)]
pub struct ExDashMap<K, V, S>(dashmap::DashMap<K, V, S>);

/// The hasher of the `nohash_hasher` crate, by which an integer is its own
/// hash.
#[verifier::external_type_specification]
#[verifier::external_body]
#[verifier::reject_recursive_types(T)]
pub struct ExNoHashHasher<T>(nohash_hasher::NoHashHasher<T>);

/// What std builds default hashers with.
#[verifier::external_type_specification]
#[verifier::external_body]
#[verifier::reject_recursive_types(H)]
pub struct ExBuildHasherDefault<H>(core::hash::BuildHasherDefault<H>);

/// Live allocations by address.
pub type AllocationIndex = DashMap<usize, AllocationRecord, BuildNoHashHasher<usize>>;

/// The allocations that an index holds, by address.
pub uninterp spec fn index_records(index: DashMap<usize, AllocationRecord, BuildNoHashHasher<usize>>) -> Map<usize, AllocationRecord>;

/// The content of an empty index.
pub open spec fn no_records() -> Map<usize, AllocationRecord> {
    Map::empty()
}

/// `DashMap::with_hasher`: an empty index.
#[verifier::external_body]
pub(crate) fn index_new() -> (index: AllocationIndex)
    ensures
        index_records(index) == no_records(),
{
    DashMap::with_hasher(BuildNoHashHasher::<usize>::default())
}

/// `DashMap::insert` on an index that nobody else uses meanwhile: the record
/// is filed under the address, and the one that was there comes back.
#[verifier::external_body]
pub(crate) fn index_insert(index: &mut AllocationIndex, address: usize, record: AllocationRecord) -> (replaced: Option<AllocationRecord>)
    ensures
        index_records(*final(index)) == index_records(*old(index)).insert(address, record),
        replaced == (if index_records(*old(index)).contains_key(address) {
            Some(index_records(*old(index))[address])
        } else {
            None
        }),
{
    index.insert(address, record)
}

/// `DashMap::remove` on an index that nobody else uses meanwhile: the record
/// filed under the address leaves the index and comes back.
#[verifier::external_body]
pub(crate) fn index_remove(index: &mut AllocationIndex, address: usize) -> (removed: Option<AllocationRecord>)
    ensures
        index_records(*final(index)) == index_records(*old(index)).remove(address),
        removed == (if index_records(*old(index)).contains_key(address) {
            Some(index_records(*old(index))[address])
        } else {
            None
        }),
{
    index.remove(&address).map(|entry| entry.1)
}

/// `DashMap::clear` on an index that nobody else uses meanwhile: nothing stays
/// in the index.
#[verifier::external_body]
pub(crate) fn index_clear(index: &mut AllocationIndex)
    ensures
        index_records(*final(index)) == no_records(),
{
    index.clear()
}

} // verus!
