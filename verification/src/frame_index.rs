//! A map from sequences of frames to stack identifiers.

use crate::event::StackId;
use crate::frames::{FrameMetadata, FrameView, same_frames};
use crate::hash_index::HashIndex;
use std::collections::hash_map::DefaultHasher;
use std::hash::Hasher;
use vstd::prelude::*;

verus! {

/// The bytes of a line number, lowest first.
pub open spec fn line_bytes(lineno: u32) -> Seq<u8> {
    seq![lineno as u8, (lineno >> 8) as u8, (lineno >> 16) as u8, (lineno >> 24) as u8]
}

/// What goes into the hash of a sequence of frames.
pub open spec fn hashed_bytes(frames: Seq<FrameView>) -> Seq<Seq<u8>>
    decreases frames.len(),
{
    if frames.len() == 0 {
        Seq::empty()
    } else {
        hashed_bytes(frames.drop_last()).push(vstd::utf8::encode_utf8(frames.last().filename)).push(
            vstd::utf8::encode_utf8(frames.last().function),
        ).push(line_bytes(frames.last().lineno))
    }
}

/// The hash by which a sequence of frames is filed.
pub open spec fn frames_hash(frames: Seq<FrameView>) -> u64 {
    <DefaultHasher as vstd::std_specs::hash::DefaultHasherAdditionalSpecFns>::spec_finish(
        hashed_bytes(frames),
    )
}

fn hash_frames(frames: &[FrameMetadata]) -> (hash: u64)
    ensures
        hash == frames_hash(FrameView::all(frames@)),
{
    let mut hasher = DefaultHasher::new();
    for i in 0..frames.len()
        invariant
            hasher@ == hashed_bytes(FrameView::all(frames@.take(i as int))),
    {
        let frame = &frames[i];
        let line: [u8; 4] = [
            #[verifier::truncate]
            (frame.lineno as u8),
            #[verifier::truncate]
            ((frame.lineno >> 8) as u8),
            #[verifier::truncate]
            ((frame.lineno >> 16) as u8),
            #[verifier::truncate]
            ((frame.lineno >> 24) as u8),
        ];
        hasher.write(frame.filename.as_bytes());
        hasher.write(frame.function.as_bytes());
        hasher.write(&line);
        assert(line@ =~= line_bytes(frame.lineno));
        let ghost views = FrameView::all(frames@.take(i as int + 1));
        assert(views.drop_last() =~= FrameView::all(frames@.take(i as int)));
        assert(views.last() == frame@);
    }
    assert(frames@.take(frames@.len() as int) =~= frames@);
    hasher.finish()
}

/// A sequence of frames and the identifier that it stands for.
#[derive(Debug)]
struct FrameEntry {
    frames: Vec<FrameMetadata>,
    id: StackId,
}

impl FrameEntry {
    spec fn key(self) -> Seq<FrameView> {
        FrameView::all(self.frames@)
    }
}

/// Whether no two entries hold the same frames.
spec fn distinct_keys(entries: Seq<FrameEntry>) -> bool {
    forall|i: int, j: int|
        0 <= i < entries.len() && 0 <= j < entries.len() && (#[trigger] entries[i]).key() == (
        #[trigger] entries[j]).key() ==> i == j
}

/// The identifiers of the entries by their frames.
spec fn entry_map(entries: Seq<FrameEntry>) -> Map<Seq<FrameView>, StackId>
    decreases entries.len(),
{
    if entries.len() == 0 {
        Map::empty()
    } else {
        entry_map(entries.drop_last()).insert(entries.last().key(), entries.last().id)
    }
}

proof fn lemma_entry_map(entries: Seq<FrameEntry>)
    requires
        distinct_keys(entries),
    ensures
        entry_map(entries).dom().finite(),
        entry_map(entries).dom().len() == entries.len(),
        forall|i: int|
            0 <= i < entries.len() ==> entry_map(entries).contains_key(
                (#[trigger] entries[i]).key(),
            ) && entry_map(entries)[entries[i].key()] == entries[i].id,
        forall|key: Seq<FrameView>| #[trigger]
            entry_map(entries).contains_key(key) ==> exists|i: int|
                0 <= i < entries.len() && (#[trigger] entries[i]).key() == key,
    decreases entries.len(),
{
    if entries.len() > 0 {
        let rest = entries.drop_last();
        assert(distinct_keys(rest)) by {
            assert forall|i: int, j: int|
                0 <= i < rest.len() && 0 <= j < rest.len() && (#[trigger] rest[i]).key() == (
                #[trigger] rest[j]).key() implies i == j by {
                assert(entries[i] == rest[i] && entries[j] == rest[j]);
            }
        }
        lemma_entry_map(rest);
        let last = entries.last();
        assert(!entry_map(rest).contains_key(last.key())) by {
            if entry_map(rest).contains_key(last.key()) {
                let i = choose|i: int|
                    0 <= i < rest.len() && (#[trigger] rest[i]).key() == last.key();
                assert(entries[i] == rest[i]);
                assert(entries[i].key() == entries[entries.len() - 1].key());
            }
        }
        assert forall|i: int| 0 <= i < entries.len() implies entry_map(entries).contains_key(
            (#[trigger] entries[i]).key(),
        ) && entry_map(entries)[entries[i].key()] == entries[i].id by {
            if i < rest.len() {
                assert(rest[i] == entries[i]);
            }
        }
        assert forall|key: Seq<FrameView>| #[trigger]
            entry_map(entries).contains_key(key) implies exists|i: int|
            0 <= i < entries.len() && (#[trigger] entries[i]).key() == key by {
            if key == last.key() {
                assert(entries[entries.len() - 1].key() == key);
            } else {
                let i = choose|i: int| 0 <= i < rest.len() && (#[trigger] rest[i]).key() == key;
                assert(entries[i].key() == key);
            }
        }
    }
}

/// Maps sequences of frames to stack identifiers.
#[derive(Debug)]
pub(crate) struct FrameIndex {
    entries: Vec<FrameEntry>,
    index: HashIndex,
}

impl View for FrameIndex {
    type V = Map<Seq<FrameView>, StackId>;

    closed spec fn view(&self) -> Map<Seq<FrameView>, StackId> {
        entry_map(self.entries@)
    }
}

impl FrameIndex {
    /// No two entries hold the same frames, and each is filed under its hash.
    pub closed spec fn wf(&self) -> bool {
        &&& distinct_keys(self.entries@)
        &&& forall|i: int|
            0 <= i < self.entries@.len() ==> self.index.positions(
                frames_hash((#[trigger] self.entries@[i]).key()),
            ).contains(i as usize)
        &&& forall|hash: u64, k: int|
            0 <= k < self.index.positions(hash).len() ==> (#[trigger] self.index.positions(hash)[k])
                < self.entries@.len()
    }

    spec fn holds(&self, i: int, key: Seq<FrameView>) -> bool {
        0 <= i < self.entries@.len() && self.entries@[i].key() == key
    }

    pub fn new() -> (index: Self)
        ensures
            index.wf(),
            index@ == Map::<Seq<FrameView>, StackId>::empty(),
    {
        let index = FrameIndex { entries: Vec::new(), index: HashIndex::new() };
        assert(index@ =~= Map::<Seq<FrameView>, StackId>::empty());
        index
    }

    fn find(&self, frames: &[FrameMetadata]) -> (position: Option<usize>)
        requires
            self.wf(),
        ensures
            match position {
                Some(position) => self.holds(position as int, FrameView::all(frames@)),
                None => forall|i: int| !self.holds(i, FrameView::all(frames@)),
            },
    {
        let hash: u64 = hash_frames(frames);
        let ghost key = FrameView::all(frames@);
        match self.index.at(hash) {
            Some(positions) => {
                for i in 0..positions.len()
                    invariant
                        self.wf(),
                        positions@ == self.index.positions(hash),
                        key == FrameView::all(frames@),
                        forall|k: int|
                            0 <= k < i ==> !self.holds((#[trigger] positions@[k]) as int, key),
                {
                    let position: usize = positions[i];
                    assert(self.index.positions(hash)[i as int] < self.entries@.len());
                    if same_frames(&self.entries[position].frames, frames) {
                        return Some(position);
                    }
                }
                assert forall|i: int| !self.holds(i, key) by {
                    if self.holds(i, key) {
                        assert(i < self.entries.len());
                        assert(self.index.positions(frames_hash(self.entries@[i].key())).contains(
                            i as usize,
                        ));
                        let k = choose|k: int|
                            0 <= k < positions@.len() && positions@[k] == i as usize;
                        assert(!self.holds(positions@[k] as int, key));
                    }
                }
                None
            },
            None => {
                assert forall|i: int| !self.holds(i, key) by {
                    if self.holds(i, key) {
                        assert(self.index.positions(frames_hash(self.entries@[i].key())).contains(
                            i as usize,
                        ));
                    }
                }
                None
            },
        }
    }

    /// How many sequences of frames are known.
    pub fn len(&self) -> (len: usize)
        requires
            self.wf(),
        ensures
            len == self@.dom().len(),
    {
        proof {
            lemma_entry_map(self.entries@);
        }
        self.entries.len()
    }

    pub fn get(&self, frames: &[FrameMetadata]) -> (id: Option<StackId>)
        requires
            self.wf(),
        ensures
            id == (if self@.contains_key(FrameView::all(frames@)) {
                Some(self@[FrameView::all(frames@)])
            } else {
                None
            }),
    {
        proof {
            lemma_entry_map(self.entries@);
        }
        match self.find(frames) {
            Some(position) => Some(self.entries[position].id),
            None => {
                assert(!self@.contains_key(FrameView::all(frames@))) by {
                    if self@.contains_key(FrameView::all(frames@)) {
                        let i = choose|i: int|
                            0 <= i < self.entries@.len() && (#[trigger] self.entries@[i]).key()
                                == FrameView::all(frames@);
                        assert(self.holds(i, FrameView::all(frames@)));
                    }
                }
                None
            },
        }
    }

    pub fn insert(&mut self, frames: Vec<FrameMetadata>, id: StackId)
        requires
            old(self).wf(),
        ensures
            final(self).wf(),
            final(self)@ == old(self)@.insert(FrameView::all(frames@), id),
    {
        let ghost key = FrameView::all(frames@);
        let ghost before = *self;
        match self.find(&frames) {
            Some(position) => {
                self.entries[position].id = id;
                proof {
                    assert forall|i: int| 0 <= i < self.entries@.len() implies (
                    #[trigger] self.entries@[i]).key() == before.entries@[i].key() by {}
                    assert(distinct_keys(self.entries@));
                    lemma_entry_map(before.entries@);
                    lemma_entry_map(self.entries@);
                    assert forall|other: Seq<FrameView>|
                        self@.contains_key(other) == before@.insert(key, id).contains_key(other) by {
                        if self@.contains_key(other) {
                            let i = choose|i: int|
                                0 <= i < self.entries@.len() && (#[trigger] self.entries@[i]).key()
                                    == other;
                            assert(before.entries@[i].key() == other);
                        }
                        if before@.contains_key(other) {
                            let i = choose|i: int|
                                0 <= i < before.entries@.len() && (
                                #[trigger] before.entries@[i]).key() == other;
                            assert(self.entries@[i].key() == other);
                        }
                    }
                    assert forall|other: Seq<FrameView>| self@.contains_key(other) implies self@[other]
                        == before@.insert(key, id)[other] by {
                        let i = choose|i: int|
                            0 <= i < self.entries@.len() && (#[trigger] self.entries@[i]).key()
                                == other;
                        assert(before.entries@[i].key() == other);
                    }
                    assert(self@ =~= before@.insert(key, id));
                }
            },
            None => {
                let position: usize = self.entries.len();
                let hash: u64 = hash_frames(&frames);
                self.index.add(hash, position);
                self.entries.push(FrameEntry { frames, id });
                proof {
                    assert(self.entries@.drop_last() =~= before.entries@);
                    assert forall|i: int| 0 <= i < before.entries@.len() implies (
                    #[trigger] self.entries@[i]) == before.entries@[i] && !before.holds(i, key) by {}
                    assert forall|i: int| 0 <= i < self.entries@.len() implies self.index.positions(
                        frames_hash((#[trigger] self.entries@[i]).key()),
                    ).contains(i as usize) by {
                        let own = frames_hash(self.entries@[i].key());
                        if i < before.entries@.len() {
                            let filed = before.index.positions(own);
                            assert(filed.contains(i as usize));
                            let k = choose|k: int| 0 <= k < filed.len() && filed[k] == i as usize;
                            assert(self.index.positions(own)[k] == i as usize);
                        } else {
                            let filed = self.index.positions(own);
                            assert(filed[filed.len() - 1] == i as usize);
                        }
                    }
                }
            },
        }
    }

    pub fn clear(&mut self)
        ensures
            final(self).wf(),
            final(self)@ == Map::<Seq<FrameView>, StackId>::empty(),
    {
        self.entries.clear();
        self.index.clear();
        assert(self@ =~= Map::<Seq<FrameView>, StackId>::empty());
    }
}

} // verus!
