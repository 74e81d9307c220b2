//! Stack traces and the table that interns them.

use crate::event::StackId;
use crate::frame_index::FrameIndex;
use crate::frames::{FrameMetadata, FrameView, clone_frames};
use std::collections::HashMap;
use std::sync::Arc;
use vstd::prelude::*;

verus! {

broadcast use vstd::std_specs::hash::group_hash_axioms;

/// Resolved metadata for an interned stack trace.
#[derive(Debug)]
pub struct StackMetadata {
    frames: Vec<FrameMetadata>,
    id: StackId,
}

/// What a resolved stack trace says.
#[verifier::ext_equal]
pub struct StackView {
    pub frames: Seq<FrameView>,
    pub id: StackId,
}

impl View for StackMetadata {
    type V = StackView;

    closed spec fn view(&self) -> StackView {
        StackView { frames: FrameView::all(self.frames@), id: self.id }
    }
}

impl StackView {
    /// What a resolved stack trace says, where there is one.
    pub open spec fn optional(stack: Option<Arc<StackMetadata>>) -> Option<StackView> {
        match stack {
            Some(stack) => Some(stack@),
            None => None,
        }
    }
}

impl Clone for StackMetadata {
    fn clone(&self) -> (copy: Self)
        ensures
            copy@ == self@,
    {
        StackMetadata { frames: clone_frames(&self.frames), id: self.id }
    }
}

impl StackMetadata {
    #[must_use]
    pub fn frames(&self) -> (frames: &[FrameMetadata])
        ensures
            FrameView::all(frames@) == self@.frames,
    {
        &self.frames
    }

    #[must_use]
    pub fn id(&self) -> (id: StackId)
        ensures
            id == self@.id,
    {
        self.id
    }
}

/// The state of a stack table.
#[verifier::ext_equal]
pub struct StackTableView {
    /// The identifier under which frames are known.
    pub ids: Map<Seq<FrameView>, StackId>,
    /// The frames that an identifier resolves to.
    pub stacks: Map<StackId, Seq<FrameView>>,
    /// The identifier that the next unknown frames get.
    pub next_id: StackId,
}

impl StackTableView {
    /// The table that knows nothing.
    pub open spec fn initial() -> Self {
        StackTableView { ids: Map::empty(), stacks: Map::empty(), next_id: 1 }
    }

    /// The identifier that the frames have or would get.
    pub open spec fn id_of(self, frames: Seq<FrameView>) -> StackId {
        if self.ids.contains_key(frames) {
            self.ids[frames]
        } else {
            self.next_id
        }
    }

    /// The table once the frames are interned.
    pub open spec fn intern(self, frames: Seq<FrameView>) -> Self {
        if self.ids.contains_key(frames) {
            self
        } else {
            StackTableView {
                ids: self.ids.insert(frames, self.next_id),
                stacks: self.stacks.insert(self.next_id, frames),
                next_id: self.next_id.saturating_add(1),
            }
        }
    }

    /// The table once the frames are registered under a given identifier.
    pub open spec fn insert_with_id(self, stack_id: StackId, frames: Seq<FrameView>) -> Self {
        StackTableView {
            ids: self.ids.insert(frames, stack_id),
            stacks: self.stacks.insert(stack_id, frames),
            next_id: if self.next_id <= stack_id {
                stack_id.saturating_add(1)
            } else {
                self.next_id
            },
        }
    }

    /// Identifiers are handed out upwards from one: those in use lie below the
    /// next one, until the largest has been reached.
    pub open spec fn wf(self) -> bool {
        &&& 0 < self.next_id
        &&& forall|id: StackId| #[trigger]
            self.stacks.contains_key(id) ==> id < self.next_id || self.next_id == u64::MAX
        &&& forall|frames: Seq<FrameView>| #[trigger]
            self.ids.contains_key(frames) ==> self.stacks.contains_key(self.ids[frames])
    }
}

/// Interns stack traces and provides their resolved metadata.
#[derive(Debug)]
pub struct StackTable {
    by_frames: FrameIndex,
    by_id: HashMap<StackId, Arc<StackMetadata>>,
    next_id: StackId,
}

impl View for StackTable {
    type V = StackTableView;

    closed spec fn view(&self) -> StackTableView {
        StackTableView {
            ids: self.by_frames@,
            stacks: self.by_id@.map_values(|metadata: Arc<StackMetadata>| metadata@.frames),
            next_id: self.next_id,
        }
    }
}

impl StackTable {
    pub closed spec fn wf(&self) -> bool {
        &&& self.by_frames.wf()
        &&& self@.wf()
        &&& forall|id: StackId| #[trigger]
            self.by_id@.contains_key(id) ==> self.by_id@[id]@.id == id
    }

    /// What the table promises to whoever can see it.
    pub proof fn lemma_wf(&self)
        requires
            self.wf(),
        ensures
            self@.wf(),
    {
    }

    fn put(&mut self, stack_id: StackId, frames: Vec<FrameMetadata>)
        requires
            old(self).by_frames.wf(),
            forall|id: StackId| #[trigger]
                old(self).by_id@.contains_key(id) ==> old(self).by_id@[id]@.id == id,
        ensures
            final(self).by_frames.wf(),
            forall|id: StackId| #[trigger]
                final(self).by_id@.contains_key(id) ==> final(self).by_id@[id]@.id == id,
            final(self)@ == (StackTableView {
                ids: old(self)@.ids.insert(FrameView::all(frames@), stack_id),
                stacks: old(self)@.stacks.insert(stack_id, FrameView::all(frames@)),
                next_id: old(self)@.next_id,
            }),
    {
        let metadata = Arc::new(StackMetadata { frames: clone_frames(&frames), id: stack_id });
        self.by_frames.insert(frames, stack_id);
        self.by_id.insert(stack_id, metadata);
        assert(self@.stacks =~= old(self)@.stacks.insert(stack_id, FrameView::all(frames@)));
    }

    /// Explicitly associate metadata with a stack identifier.
    ///
    /// This helper is primarily intended for tests and for plumbing pre-existing
    /// stack identifiers gathered outside of the tracer.
    pub fn insert_with_id(&mut self, stack_id: StackId, frames: Vec<FrameMetadata>)
        requires
            old(self).wf(),
        ensures
            final(self).wf(),
            final(self)@ == old(self)@.insert_with_id(stack_id, FrameView::all(frames@)),
    {
        self.put(stack_id, frames);
        if self.next_id <= stack_id {
            self.next_id = stack_id.saturating_add(1);
        }
        assert(self@ =~= old(self)@.insert_with_id(stack_id, FrameView::all(frames@)));
    }

    /// Intern the provided stack frames and return their stable identifier.
    pub fn intern(&mut self, frames: Vec<FrameMetadata>) -> (stack_id: StackId)
        requires
            old(self).wf(),
        ensures
            final(self).wf(),
            stack_id == old(self)@.id_of(FrameView::all(frames@)),
            final(self)@ == old(self)@.intern(FrameView::all(frames@)),
    {
        match self.by_frames.get(&frames) {
            Some(existing) => existing,
            None => {
                let stack_id: StackId = self.next_id;
                self.put(stack_id, frames);
                self.next_id = stack_id.saturating_add(1);
                assert(self@ =~= old(self)@.intern(FrameView::all(frames@)));
                stack_id
            },
        }
    }

    #[must_use]
    pub fn new() -> (table: Self)
        ensures
            table.wf(),
            table@ == StackTableView::initial(),
    {
        let table = StackTable { by_frames: FrameIndex::new(), by_id: HashMap::new(), next_id: 1 };
        assert(table@ =~= StackTableView::initial());
        table
    }

    /// Resolve a stack identifier back into its metadata, if known.
    #[must_use]
    pub fn resolve(&self, stack_id: StackId) -> (metadata: Option<Arc<StackMetadata>>)
        requires
            self.wf(),
        ensures
            match metadata {
                Some(metadata) => self@.stacks.contains_key(stack_id) && metadata@ == (StackView {
                    frames: self@.stacks[stack_id],
                    id: stack_id,
                }),
                None => !self@.stacks.contains_key(stack_id),
            },
    {
        match self.by_id.get(&stack_id) {
            Some(metadata) => {
                assert(self.by_id@.contains_key(stack_id));
                Some(metadata.clone())
            },
            None => None,
        }
    }
}

impl Default for StackTable {
    fn default() -> (table: Self)
        ensures
            table.wf(),
            table@ == StackTableView::initial(),
    {
        StackTable::new()
    }
}

} // verus!
