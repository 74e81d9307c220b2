//! Tables that number their keys by first appearance.

use crate::hash_index::HashIndex;
use vstd::prelude::*;

verus! {

/// A key that can be filed by a hash value.
pub trait HashedKey: Copy {
    spec fn hash_value(self) -> u64;

    fn hash_code(&self) -> (hash: u64)
        ensures
            hash == self.hash_value(),
    ;

    fn same(&self, other: &Self) -> (same: bool)
        ensures
            same == (*self == *other),
    ;
}

/// Numbering by first appearance.
pub struct Numbering {}

impl Numbering {
    /// The place of a key: where it stands, or the end of the table.
    pub open spec fn place<K>(table: Seq<K>, key: K) -> int {
        if table.contains(key) {
            table.index_of(key)
        } else {
            table.len() as int
        }
    }

    /// The table once the key has a place in it.
    pub open spec fn with<K>(table: Seq<K>, key: K) -> Seq<K> {
        if table.contains(key) {
            table
        } else {
            table.push(key)
        }
    }

    /// A key stands at its place, what stood in the table stays where it was,
    /// and nothing occurs twice.
    pub proof fn lemma_with<K>(table: Seq<K>, key: K)
        requires
            table.no_duplicates(),
        ensures
            Self::with(table, key).no_duplicates(),
            0 <= Self::place(table, key) < Self::with(table, key).len(),
            Self::with(table, key)[Self::place(table, key)] == key,
            table.len() <= Self::with(table, key).len(),
            forall|i: int|
                0 <= i < table.len() ==> #[trigger] Self::with(table, key)[i] == table[i],
            Self::with(table, key).contains(key),
            Self::place(Self::with(table, key), key) == Self::place(table, key),
    {
        let extended = Self::with(table, key);
        let place = Self::place(table, key);
        if table.contains(key) {
            assert(table[table.index_of(key)] == key);
        } else {
            assert(extended[place] == key);
        }
        assert(extended.contains(key));
        assert(extended[extended.index_of(key)] == key);
    }

    /// A key that stands in a table without duplicates has its place there.
    pub proof fn lemma_place<K>(table: Seq<K>, i: int)
        requires
            table.no_duplicates(),
            0 <= i < table.len(),
        ensures
            Self::place(table, table[i]) == i,
            Self::with(table, table[i]) == table,
    {
        assert(table.contains(table[i]));
        assert(table[table.index_of(table[i])] == table[i]);
    }
}

/// Keys in the order of their first appearance.
#[derive(Debug)]
pub(crate) struct KeyTable<K> {
    keys: Vec<K>,
    index: HashIndex,
}

impl<K> View for KeyTable<K> {
    type V = Seq<K>;

    closed spec fn view(&self) -> Seq<K> {
        self.keys@
    }
}

impl<K: HashedKey> KeyTable<K> {
    /// No key occurs twice, and each is filed under its hash.
    pub closed spec fn wf(&self) -> bool {
        &&& self.keys@.no_duplicates()
        &&& forall|i: int|
            0 <= i < self.keys@.len() ==> self.index.positions(
                (#[trigger] self.keys@[i]).hash_value(),
            ).contains(i as usize)
        &&& forall|hash: u64, k: int|
            0 <= k < self.index.positions(hash).len() ==> (#[trigger] self.index.positions(hash)[k])
                < self.keys@.len()
    }

    pub proof fn lemma_wf(&self)
        requires
            self.wf(),
        ensures
            self@.no_duplicates(),
            self@.len() <= usize::MAX,
    {
        assert(self.keys.len() == self.keys@.len());
    }

    pub fn new() -> (table: Self)
        ensures
            table.wf(),
            table@ == Seq::<K>::empty(),
    {
        KeyTable { keys: Vec::new(), index: HashIndex::new() }
    }

    /// The place of a key, which is given one where it has none.
    pub fn number(&mut self, key: K) -> (place: usize)
        requires
            old(self).wf(),
        ensures
            final(self).wf(),
            place == Numbering::place(old(self)@, key),
            final(self)@ == Numbering::with(old(self)@, key),
    {
        let hash: u64 = key.hash_code();
        let ghost before = *self;
        if let Some(positions) = self.index.at(hash) {
            for i in 0..positions.len()
                invariant
                    *self == before,
                    self.wf(),
                    positions@ == self.index.positions(hash),
                    forall|k: int|
                        0 <= k < i ==> self.keys@[(#[trigger] positions@[k]) as int] != key,
            {
                let position: usize = positions[i];
                assert(self.index.positions(hash)[i as int] < self.keys@.len());
                if self.keys[position].same(&key) {
                    proof {
                        Numbering::lemma_place(self.keys@, position as int);
                    }
                    return position;
                }
            }
        }
        proof {
            assert forall|i: int| 0 <= i < before.keys@.len() implies before.keys@[i] != key by {
                if before.keys@[i] == key {
                    assert(i < before.keys.len());
                    let filed = before.index.positions(hash);
                    assert(filed.contains(i as usize));
                    let k = choose|k: int| 0 <= k < filed.len() && filed[k] == i as usize;
                    assert(before.keys@[filed[k] as int] != key);
                }
            }
        }
        let place: usize = self.keys.len();
        self.index.add(hash, place);
        self.keys.push(key);
        proof {
            assert forall|i: int| 0 <= i < self.keys@.len() implies self.index.positions(
                (#[trigger] self.keys@[i]).hash_value(),
            ).contains(i as usize) by {
                let own = self.keys@[i].hash_value();
                if i < before.keys@.len() {
                    assert(self.keys@[i] == before.keys@[i]);
                    let filed = before.index.positions(own);
                    assert(filed.contains(i as usize));
                    let k = choose|k: int| 0 <= k < filed.len() && filed[k] == i as usize;
                    assert(self.index.positions(own)[k] == i as usize);
                } else {
                    let filed = self.index.positions(own);
                    assert(filed[filed.len() - 1] == i as usize);
                }
            }
        }
        place
    }

    pub fn len(&self) -> (len: usize)
        ensures
            len == self@.len(),
    {
        self.keys.len()
    }

    pub fn get(&self, place: usize) -> (key: K)
        requires
            place < self@.len(),
        ensures
            key == self@[place as int],
    {
        self.keys[place]
    }
}

} // verus!
