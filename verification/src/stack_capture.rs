//! Capturing stack traces.

use crate::config::TracerConfig;
use crate::event::StackId;
use crate::frame_index::FrameIndex;
use crate::frames::{clone_frames, FrameMetadata, FrameView};
use crate::native::capture_native_frames;
use crate::origin::Origin;
use crate::stack::{StackTable, StackTableView};
use std::collections::HashMap;
use vstd::prelude::*;

verus! {

broadcast use vstd::std_specs::hash::group_hash_axioms;

/// How many stacks a thread remembers.
pub const STACK_CACHE_LIMIT: usize = 1024;

/// The stack identifiers that a thread remembers.
#[derive(Debug)]
struct StackIdCache {
    map: FrameIndex,
}

impl StackIdCache {
    spec fn wf(&self) -> bool {
        self.map.wf()
    }

    fn new() -> (cache: Self)
        ensures
            cache.wf(),
            cache.map@ == Map::<Seq<FrameView>, StackId>::empty(),
    {
        StackIdCache { map: FrameIndex::new() }
    }

    /// Remembers a stack. A full cache forgets all others first.
    fn insert(&mut self, frames: Vec<FrameMetadata>, stack_id: StackId)
        requires
            old(self).wf(),
        ensures
            final(self).wf(),
            final(self).map@ == CollectorView::remember(
                old(self).map@,
                FrameView::all(frames@),
                stack_id,
            ),
    {
        if self.map.len() >= STACK_CACHE_LIMIT {
            self.map.clear();
        }
        self.map.insert(frames, stack_id);
    }

    fn lookup(&self, frames: &[FrameMetadata]) -> (stack_id: Option<StackId>)
        requires
            self.wf(),
        ensures
            stack_id == (if self.map@.contains_key(FrameView::all(frames@)) {
                Some(self.map@[FrameView::all(frames@)])
            } else {
                None
            }),
    {
        self.map.get(frames)
    }
}

/// The state of a stack collector.
#[verifier::ext_equal]
pub struct CollectorView {
    pub capture_native: bool,
    pub max_depth: usize,
    pub native_skip_frames: usize,
    pub python_skip_frames: usize,
    pub table: StackTableView,
    /// What each thread remembers.
    pub caches: Map<u64, Map<Seq<FrameView>, StackId>>,
    /// The thread on whose behalf stacks are captured.
    pub thread: u64,
}

impl CollectorView {
    /// The collector that a configuration asks for.
    pub open spec fn initial(table: StackTableView, config: TracerConfig) -> Self {
        CollectorView {
            capture_native: config.capture_native,
            max_depth: if config.max_stack_depth == 0 {
                1
            } else {
                config.max_stack_depth as usize
            },
            native_skip_frames: config.native_skip_frames,
            python_skip_frames: config.python_skip_frames,
            table,
            caches: Map::empty(),
            thread: 0,
        }
    }

    /// The Python frames that go into a stack.
    pub open spec fn python_part(self, python: Option<Seq<FrameView>>) -> Seq<FrameView> {
        match python {
            Some(frames) => FrameView::window(
                frames,
                self.python_skip_frames as int,
                self.max_depth as int,
            ),
            None => Seq::empty(),
        }
    }

    /// Whether native frames are asked for: only where the Python frames leave
    /// room for them.
    pub open spec fn wants_native(self, python: Option<Seq<FrameView>>) -> bool {
        self.capture_native && self.python_part(python).len() < self.max_depth
    }

    /// The frames of a native stack that can go into a stack.
    pub open spec fn native_part(self, native: Seq<FrameView>) -> Seq<FrameView> {
        FrameView::window(native, self.native_skip_frames as int, self.max_depth as int)
    }

    /// The stack made of Python frames and, after them, as many of the captured
    /// native frames as there is room for. A stack without frames is shown by
    /// a placeholder.
    pub open spec fn stack_with(
        self,
        python: Option<Seq<FrameView>>,
        captured: Seq<FrameView>,
    ) -> Seq<FrameView> {
        let first = self.python_part(python);
        let all = if self.wants_native(python) {
            first + FrameView::window(captured, 0, self.max_depth - first.len())
        } else {
            first
        };
        if all.len() == 0 {
            seq![FrameView { filename: "<unknown>"@, function: "<unknown>"@, lineno: 0 }]
        } else {
            all
        }
    }

    /// The stack made of Python frames and, after them, the frames of a native
    /// stack.
    pub open spec fn stack_of(
        self,
        python: Option<Seq<FrameView>>,
        native: Seq<FrameView>,
    ) -> Seq<FrameView> {
        self.stack_with(python, self.native_part(native))
    }

    /// What the current thread remembers.
    pub open spec fn cache(self) -> Map<Seq<FrameView>, StackId> {
        if self.caches.contains_key(self.thread) {
            self.caches[self.thread]
        } else {
            Map::empty()
        }
    }

    /// A cache once it remembers a stack.
    pub open spec fn remember(
        cache: Map<Seq<FrameView>, StackId>,
        frames: Seq<FrameView>,
        stack_id: StackId,
    ) -> Map<Seq<FrameView>, StackId> {
        if cache.dom().len() >= STACK_CACHE_LIMIT {
            Map::empty().insert(frames, stack_id)
        } else {
            cache.insert(frames, stack_id)
        }
    }

    /// The identifier that a stack has or gets.
    pub open spec fn id_of(self, frames: Seq<FrameView>) -> StackId {
        if self.cache().contains_key(frames) {
            self.cache()[frames]
        } else {
            self.table.id_of(frames)
        }
    }

    /// The collector once a stack has its identifier.
    pub open spec fn intern(self, frames: Seq<FrameView>) -> Self {
        if self.cache().contains_key(frames) {
            self
        } else {
            CollectorView {
                table: self.table.intern(frames),
                caches: self.caches.insert(
                    self.thread,
                    Self::remember(self.cache(), frames, self.table.id_of(frames)),
                ),
                ..self
            }
        }
    }
}

/// Captures stack traces and interns them through the stack table.
#[derive(Debug)]
pub struct StackCollector {
    capture_native: bool,
    max_depth: usize,
    native_skip_frames: usize,
    python_skip_frames: usize,
    stack_table: StackTable,
    caches: HashMap<u64, StackIdCache>,
    thread: u64,
}

impl View for StackCollector {
    type V = CollectorView;

    closed spec fn view(&self) -> CollectorView {
        CollectorView {
            capture_native: self.capture_native,
            max_depth: self.max_depth,
            native_skip_frames: self.native_skip_frames,
            python_skip_frames: self.python_skip_frames,
            table: self.stack_table@,
            caches: self.caches@.map_values(|cache: StackIdCache| cache.map@),
            thread: self.thread,
        }
    }
}

impl StackCollector {
    pub closed spec fn wf(&self) -> bool {
        &&& self.stack_table.wf()
        &&& 0 < self.max_depth
        &&& forall|thread: u64| #[trigger]
            self.caches@.contains_key(thread) ==> self.caches@[thread].wf()
    }

    /// What the collector promises to whoever can see it.
    pub proof fn lemma_wf(&self)
        requires
            self.wf(),
        ensures
            0 < self@.max_depth,
            self@.table.wf(),
    {
        self.stack_table.lemma_wf();
    }

    /// The Python frames of a stack, followed by the frames of a native stack
    /// where they are asked for.
    #[must_use]
    pub fn assemble(
        &self,
        python_frames: Option<&[FrameMetadata]>,
        native_stack: &[FrameMetadata],
    ) -> (frames: Vec<FrameMetadata>)
        requires
            self.wf(),
        ensures
            FrameView::all(frames@) == self@.stack_of(
                FrameView::optional(python_frames),
                FrameView::all(native_stack@),
            ),
    {
        let mut captured: Vec<FrameMetadata> = Vec::new();
        append_window(&mut captured, native_stack, self.native_skip_frames, self.max_depth);
        assert(FrameView::all(captured@) =~= self@.native_part(FrameView::all(native_stack@)));
        self.join(python_frames, &captured)
    }

    /// The Python frames of a stack, followed by the captured native frames
    /// where they are asked for.
    fn join(
        &self,
        python_frames: Option<&[FrameMetadata]>,
        captured: &[FrameMetadata],
    ) -> (frames: Vec<FrameMetadata>)
        requires
            self.wf(),
        ensures
            FrameView::all(frames@) == self@.stack_with(
                FrameView::optional(python_frames),
                FrameView::all(captured@),
            ),
    {
        let mut frames: Vec<FrameMetadata> = Vec::new();
        if let Some(python) = python_frames {
            append_window(&mut frames, python, self.python_skip_frames, self.max_depth);
        }
        assert(FrameView::all(frames@) =~= self@.python_part(FrameView::optional(python_frames)));
        if self.capture_native && frames.len() < self.max_depth {
            let room: usize = self.max_depth - frames.len();
            append_window(&mut frames, captured, 0, room);
        }
        if frames.len() == 0 {
            frames.push(FrameMetadata::new("<unknown>", "<unknown>", 0));
            assert(FrameView::all(frames@) =~= seq![
                FrameView { filename: "<unknown>"@, function: "<unknown>"@, lineno: 0 },
            ]);
        }
        frames
    }

    /// The Python frames of a stack, followed by the native frames of the
    /// calling thread where they are asked for.
    #[must_use]
    pub fn capture(&self, python_frames: Option<&[FrameMetadata]>) -> (frames: Vec<FrameMetadata>)
        requires
            self.wf(),
        ensures
            exists|native: Seq<FrameView>|
                {
                    &&& self@.wants_native(FrameView::optional(python_frames)) ==> Origin::captured(
                        native,
                    )
                    &&& FrameView::all(frames@) == #[trigger] self@.stack_of(
                        FrameView::optional(python_frames),
                        native,
                    )
                },
    {
        let captured = self.native_frames_for(python_frames);
        proof {
            let python = FrameView::optional(python_frames);
            if self@.wants_native(python) {
                let native = choose|native: Seq<FrameView>|
                    Origin::captured(native) && FrameView::all(captured@)
                        == #[trigger] self@.native_part(native);
                assert(self@.stack_with(python, FrameView::all(captured@)) == self@.stack_of(
                    python,
                    native,
                ));
            } else {
                assert(self@.stack_with(python, FrameView::all(captured@)) == self@.stack_of(
                    python,
                    Seq::empty(),
                ));
            }
        }
        self.join(python_frames, &captured)
    }

    /// The identifier of a stack: the one that the current thread remembers,
    /// or else the one that the table gives it.
    pub fn intern(&mut self, frames: Vec<FrameMetadata>) -> (stack_id: StackId)
        requires
            old(self).wf(),
        ensures
            final(self).wf(),
            stack_id == old(self)@.id_of(FrameView::all(frames@)),
            final(self)@ == old(self)@.intern(FrameView::all(frames@)),
    {
        let ghost key = FrameView::all(frames@);
        let ghost before = *self;
        if let Some(cache) = self.caches.get(&self.thread) {
            assert(self.caches@.contains_key(self.thread));
            if let Some(stack_id) = cache.lookup(&frames) {
                return stack_id;
            }
        }
        assert(!self@.cache().contains_key(key));
        let stack_id: StackId = self.stack_table.intern(clone_frames(&frames));
        let mut cache = match self.caches.remove(&self.thread) {
            Some(cache) => cache,
            None => StackIdCache::new(),
        };
        cache.insert(frames, stack_id);
        self.caches.insert(self.thread, cache);
        assert(self@.caches =~= before@.intern(key).caches);
        stack_id
    }

    /// Captures the stack made of the given Python frames and the native frames
    /// of the calling thread, as far as either is asked for, and interns it.
    #[must_use]
    pub fn capture_and_intern(&mut self, python_frames: Option<&[FrameMetadata]>) -> (stack_id:
        StackId)
        requires
            old(self).wf(),
        ensures
            final(self).wf(),
            exists|native: Seq<FrameView>|
                {
                    let frames = #[trigger] old(self)@.stack_of(
                        FrameView::optional(python_frames),
                        native,
                    );
                    &&& old(self)@.wants_native(FrameView::optional(python_frames))
                        ==> Origin::captured(native)
                    &&& stack_id == old(self)@.id_of(frames)
                    &&& final(self)@ == old(self)@.intern(frames)
                },
    {
        let frames = self.capture(python_frames);
        self.intern(frames)
    }

    /// The native frames of the calling thread, where they are asked for.
    pub fn native_frames_for(&self, python_frames: Option<&[FrameMetadata]>) -> (frames: Vec<
        FrameMetadata,
    >)
        requires
            self.wf(),
        ensures
            if self@.wants_native(FrameView::optional(python_frames)) {
                exists|native: Seq<FrameView>|
                    Origin::captured(native) && FrameView::all(frames@)
                        == #[trigger] self@.native_part(native)
            } else {
                frames@.len() == 0
            },
    {
        let known: usize = match python_frames {
            Some(frames) => {
                if self.python_skip_frames < frames.len() {
                    frames.len() - self.python_skip_frames
                } else {
                    0
                }
            },
            None => 0,
        };
        if self.capture_native && known < self.max_depth {
            let frames = capture_native_frames(self.native_skip_frames, self.max_depth);
            proof {
                let native = choose|native: Seq<FrameView>|
                    Origin::captured(native) && FrameView::all(frames@)
                        == #[trigger] FrameView::window(
                        native,
                        self.native_skip_frames as int,
                        self.max_depth as int,
                    );
                assert(FrameView::all(frames@) == self@.native_part(native));
            }
            frames
        } else {
            Vec::new()
        }
    }

    #[must_use]
    pub fn new(stack_table: StackTable, config: &TracerConfig) -> (collector: Self)
        requires
            stack_table.wf(),
        ensures
            collector.wf(),
            collector@ == CollectorView::initial(stack_table@, *config),
    {
        let collector = StackCollector {
            capture_native: config.capture_native,
            max_depth: if config.max_stack_depth == 0 {
                1
            } else {
                config.max_stack_depth as usize
            },
            native_skip_frames: config.native_skip_frames,
            python_skip_frames: config.python_skip_frames,
            stack_table,
            caches: HashMap::new(),
            thread: 0,
        };
        assert(collector@.caches =~= Map::<u64, Map<Seq<FrameView>, StackId>>::empty());
        collector
    }

    /// The table through which stacks are interned.
    #[must_use]
    pub fn stack_table(&self) -> (table: &StackTable)
        requires
            self.wf(),
        ensures
            table.wf(),
            table@ == self@.table,
    {
        &self.stack_table
    }

    /// The table through which stacks are interned, for changing it.
    #[must_use]
    pub fn stack_table_mut(&mut self) -> (table: &mut StackTable)
        requires
            old(self).wf(),
        ensures
            table.wf(),
            table@ == old(self)@.table,
            final(table).wf() ==> final(self).wf(),
            final(self)@ == (CollectorView { table: final(table)@, ..old(self)@ }),
    {
        &mut self.stack_table
    }

    /// The thread on whose behalf stacks are captured.
    #[must_use]
    pub fn thread(&self) -> (thread: u64)
        ensures
            thread == self@.thread,
    {
        self.thread
    }

    /// Captures on behalf of another thread from now on.
    pub fn switch_thread(&mut self, thread: u64)
        requires
            old(self).wf(),
        ensures
            final(self).wf(),
            final(self)@ == (CollectorView { thread, ..old(self)@ }),
    {
        self.thread = thread;
    }

    /// Forgets what a thread remembers.
    pub fn forget_thread(&mut self, thread: u64)
        requires
            old(self).wf(),
        ensures
            final(self).wf(),
            final(self)@ == (CollectorView {
                caches: old(self)@.caches.remove(thread),
                ..old(self)@
            }),
    {
        self.caches.remove(&thread);
        assert(self@.caches =~= old(self)@.caches.remove(thread));
    }
}

/// Appends all but the first `skip` frames, and at most `limit` of them.
fn append_window(
    output: &mut Vec<FrameMetadata>,
    frames: &[FrameMetadata],
    skip: usize,
    limit: usize,
)
    ensures
        FrameView::all(final(output)@) == FrameView::all(old(output)@) + FrameView::window(
            FrameView::all(frames@),
            skip as int,
            limit as int,
        ),
{
    let len: usize = frames.len();
    let from: usize = if skip < len {
        skip
    } else {
        len
    };
    let to: usize = if limit < len - from {
        from + limit
    } else {
        len
    };
    let ghost views = FrameView::all(frames@);
    let ghost before = FrameView::all(output@);
    for i in from..to
        invariant
            from <= i <= to <= frames@.len(),
            views == FrameView::all(frames@),
            FrameView::all(output@) == before + views.subrange(from as int, i as int),
    {
        let ghost earlier = output@;
        output.push(frames[i].clone());
        assert(FrameView::all(output@) =~= FrameView::all(earlier).push(views[i as int]));
        assert(before + views.subrange(from as int, i as int + 1) =~= (before + views.subrange(
            from as int,
            i as int,
        )).push(views[i as int]));
    }
    assert(views.subrange(from as int, to as int) =~= FrameView::window(
        views,
        skip as int,
        limit as int,
    ));
}

} // verus!
