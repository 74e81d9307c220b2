//! The rules behind the hooks in the allocators of an interpreter.

use crate::config::TracerConfig;
use crate::frames::{FrameMetadata, FrameView};
use crate::state::{Surroundings, Tracer};
use crate::tracer_view::TracerView;
use std::collections::HashMap;
use vstd::prelude::*;

verus! {

broadcast use vstd::std_specs::hash::group_hash_axioms;

/// Keeps a thread that is inside the tracer from entering it again.
#[derive(Debug)]
pub struct ReentryGuard {
    active: bool,
}

/// Where a thread stands.
#[verifier::ext_equal]
pub struct GuardView {
    /// Whether the thread is inside the tracer.
    pub inside: bool,
}

impl View for ReentryGuard {
    type V = GuardView;

    closed spec fn view(&self) -> GuardView {
        GuardView { inside: self.active }
    }
}

impl GuardView {
    /// Whether a thread that asks to enter may do so.
    pub open spec fn admits(self) -> bool {
        !self.inside
    }

    /// Where the thread stands once it has asked to enter.
    pub open spec fn enter(self) -> Self {
        GuardView { inside: true }
    }

    /// Where the thread stands once it has left.
    pub open spec fn leave(self) -> Self {
        GuardView { inside: false }
    }

    /// Whether a function that is called where the thread stands can return
    /// the value.
    pub open spec fn allows<R, F: FnOnce(&mut ReentryGuard) -> R>(self, func: F, value: R) -> bool {
        exists|guard: &mut ReentryGuard|
            guard@ == self && #[trigger] call_ensures(func, (guard,), value)
    }

    /// Where the thread stands once it has asked to enter a number of times.
    pub open spec fn enter_times(self, n: nat) -> Self
        decreases n,
    {
        if n == 0 {
            self
        } else {
            self.enter_times((n - 1) as nat).enter()
        }
    }
}

impl ReentryGuard {
    #[must_use]
    pub fn new() -> (guard: Self)
        ensures
            !guard@.inside,
    {
        ReentryGuard { active: false }
    }

    /// Enters, unless the thread is inside already. Returns whether it entered.
    #[must_use]
    pub fn enter(&mut self) -> (entered: bool)
        ensures
            entered == old(self)@.admits(),
            final(self)@ == old(self)@.enter(),
    {
        let entered: bool = !self.active;
        self.active = true;
        entered
    }

    /// Leaves again, once whoever entered is done.
    pub fn leave(&mut self)
        ensures
            final(self)@ == old(self)@.leave(),
    {
        self.active = false;
    }

    /// Calls a function inside the tracer, unless the thread is inside already:
    /// then the function is not called. The function is handed the guard, with
    /// the thread inside; afterwards the thread stands where it stood.
    pub fn with_guard<R, F: FnOnce(&mut ReentryGuard) -> R>(&mut self, func: F) -> (result: Option<
        R,
    >)
        requires
            old(self)@.admits() ==> forall|inside: &mut ReentryGuard|
                inside@ == old(self)@.enter() ==> #[trigger] call_requires(func, (inside,)),
        ensures
            final(self)@ == old(self)@,
            match result {
                Some(value) => old(self)@.admits() && old(self)@.enter().allows(func, value),
                None => !old(self)@.admits(),
            },
    {
        if !self.enter() {
            return None;
        }
        let value = func(self);
        assert(old(self)@.enter().allows(func, value));
        self.leave();
        Some(value)
    }
}

impl Default for ReentryGuard {
    fn default() -> (guard: Self)
        ensures
            !guard@.inside,
    {
        ReentryGuard::new()
    }
}

/// Work under the guard, with the work under the guard that it leads to.
pub struct GuardedWork {
    pub inner: Seq<GuardedWork>,
}

impl GuardView {
    /// Where the thread stands after some work under the guard, and how much
    /// of it was done: work that is not admitted is passed over, and other
    /// work is done between entering and leaving.
    pub open spec fn run(self, work: GuardedWork) -> (GuardView, nat)
        decreases work,
    {
        if self.admits() {
            let (after, done) = self.enter().run_all(work.inner);
            (after.leave(), done + 1)
        } else {
            (self.enter(), 0)
        }
    }

    /// The same for work done one after the other.
    pub open spec fn run_all(self, works: Seq<GuardedWork>) -> (GuardView, nat)
        decreases works,
    {
        if works.len() == 0 {
            (self, 0)
        } else {
            let (first, done) = self.run(works[0]);
            let (rest, more) = first.run_all(works.subrange(1, works.len() as int));
            (rest, done + more)
        }
    }

    /// A thread that has entered is not admitted again, however often it asks,
    /// until it leaves; then it is.
    pub proof fn law_nobody_enters_twice(self, n: nat)
        ensures
            !self.enter().enter_times(n).admits(),
            self.enter().enter_times(n).leave().admits(),
        decreases n,
    {
        if n > 0 {
            self.law_nobody_enters_twice((n - 1) as nat);
        }
    }

    proof fn lemma_nothing_is_done_inside(self, works: Seq<GuardedWork>)
        requires
            self.inside,
        ensures
            self.run_all(works) == (self, 0nat),
        decreases works.len(),
    {
        if works.len() > 0 {
            assert(self.enter() == self);
            assert(self.run(works[0]) == (self, 0nat));
            self.lemma_nothing_is_done_inside(works.subrange(1, works.len() as int));
        }
    }

    /// Of work under the guard, the outermost alone is done, once, and only
    /// where the thread is outside; whatever work under the guard it leads to
    /// is passed over, and afterwards the thread stands where it stood.
    pub proof fn law_only_the_outermost_work_is_done(self, work: GuardedWork)
        ensures
            self.run(work) == (self, if self.admits() {
                1nat
            } else {
                0
            }),
    {
        if self.admits() {
            self.enter().lemma_nothing_is_done_inside(work.inner);
        }
    }
}

/// What a call of an allocator gives to record. An address of zero stands for
/// a null pointer.
#[derive(Debug, Clone, Copy, PartialEq, Eq, Structural)]
pub enum Recording {
    Nothing,
    Allocation { address: usize, size: usize },
    Deallocation { address: usize },
    Reallocation { old_address: usize, new_address: usize, new_size: usize },
}

impl Recording {
    /// The size of a number of elements, or the largest size there is.
    pub open spec fn size_of_all(nelem: usize, elsize: usize) -> usize {
        if nelem * elsize <= usize::MAX {
            (nelem * elsize) as usize
        } else {
            usize::MAX
        }
    }

    /// What a call of `malloc` gives to record, given what it returned.
    #[must_use]
    pub fn of_malloc(size: usize, result: usize) -> (recording: Self)
        ensures
            recording == (if result == 0 {
                Recording::Nothing
            } else {
                Recording::Allocation { address: result, size }
            }),
    {
        if result == 0 {
            Recording::Nothing
        } else {
            Recording::Allocation { address: result, size }
        }
    }

    /// What a call of `calloc` gives to record, given what it returned.
    #[must_use]
    pub fn of_calloc(nelem: usize, elsize: usize, result: usize) -> (recording: Self)
        ensures
            recording == (if result == 0 {
                Recording::Nothing
            } else {
                Recording::Allocation {
                    address: result,
                    size: Recording::size_of_all(nelem, elsize),
                }
            }),
            result != 0 && nelem * elsize <= usize::MAX ==> recording
                == (Recording::Allocation { address: result, size: (nelem * elsize) as usize }),
            result != 0 && nelem * elsize > usize::MAX ==> recording
                == (Recording::Allocation { address: result, size: usize::MAX }),
    {
        let size: usize = match nelem.checked_mul(elsize) {
            Some(size) => size,
            None => usize::MAX,
        };
        Self::of_malloc(size, result)
    }

    /// What a call of `realloc` gives to record, given what it returned.
    #[must_use]
    pub fn of_realloc(address: usize, new_size: usize, result: usize) -> (recording: Self)
        ensures
            recording == (if address == 0 {
                if result == 0 {
                    Recording::Nothing
                } else {
                    Recording::Allocation { address: result, size: new_size }
                }
            } else if new_size == 0 {
                Recording::Deallocation { address }
            } else if result == 0 {
                Recording::Nothing
            } else {
                Recording::Reallocation { old_address: address, new_address: result, new_size }
            }),
    {
        if address == 0 {
            return Self::of_malloc(new_size, result);
        }
        if new_size == 0 {
            return Recording::Deallocation { address };
        }
        if result == 0 {
            return Recording::Nothing;
        }
        Recording::Reallocation { old_address: address, new_address: result, new_size }
    }

    /// What a call of `free` gives to record.
    #[must_use]
    pub fn of_free(address: usize) -> (recording: Self)
        ensures
            recording == (if address == 0 {
                Recording::Nothing
            } else {
                Recording::Deallocation { address }
            }),
    {
        if address == 0 {
            Recording::Nothing
        } else {
            Recording::Deallocation { address }
        }
    }
}

/// The state behind the hooks.
#[verifier::ext_equal]
pub struct ShimView {
    pub tracer: TracerView,
    /// The sizes of the live allocations, by address.
    pub sizes: Map<usize, usize>,
    /// How many Python frames go into a stack.
    pub frame_depth: usize,
    /// How many of the innermost Python frames are left out.
    pub frame_skip: usize,
}

impl ShimView {
    /// The state around a tracer.
    pub open spec fn initial(tracer: TracerView) -> Self {
        ShimView {
            tracer,
            sizes: Map::empty(),
            frame_depth: if tracer.config.max_stack_depth == 0 {
                1
            } else {
                tracer.config.max_stack_depth as usize
            },
            frame_skip: tracer.config.python_skip_frames,
        }
    }

    /// The Python frames, where there are any.
    pub open spec fn python(frames: Seq<FrameView>) -> Option<Seq<FrameView>> {
        if frames.len() == 0 {
            None
        } else {
            Some(frames)
        }
    }

    /// The size of a live allocation, or zero where it is not known.
    pub open spec fn size_at(self, address: usize) -> usize {
        if self.sizes.contains_key(address) {
            self.sizes[address]
        } else {
            0
        }
    }

    /// The state after an allocation. One of size zero is passed over.
    pub open spec fn allocation(
        self,
        address: usize,
        size: usize,
        frames: Seq<FrameView>,
        number: u64,
        native: Seq<FrameView>,
    ) -> Self {
        if size == 0 || !self.tracer.enabled {
            self
        } else {
            ShimView {
                tracer: self.tracer.allocation(
                    address,
                    size,
                    Self::python(frames),
                    number,
                    native,
                ),
                sizes: self.sizes.insert(address, size),
                ..self
            }
        }
    }

    /// The state after a deallocation.
    pub open spec fn deallocation(self, address: usize) -> Self {
        ShimView {
            tracer: self.tracer.deallocation(address, self.size_at(address)),
            sizes: self.sizes.remove(address),
            ..self
        }
    }

    /// The state after a reallocation.
    pub open spec fn reallocation(
        self,
        old_address: usize,
        new_address: usize,
        new_size: usize,
        frames: Seq<FrameView>,
        number: u64,
        native: Seq<FrameView>,
    ) -> Self {
        let sizes = self.sizes.remove(old_address);
        ShimView {
            tracer: self.tracer.reallocation(
                old_address,
                self.size_at(old_address),
                new_address,
                new_size,
                Self::python(frames),
                number,
                native,
            ),
            sizes: if new_size > 0 {
                sizes.insert(new_address, new_size)
            } else {
                sizes
            },
            ..self
        }
    }

    /// The state after what a call of an allocator gave to record.
    pub open spec fn record(
        self,
        recording: Recording,
        frames: Seq<FrameView>,
        number: u64,
        native: Seq<FrameView>,
    ) -> Self {
        match recording {
            Recording::Nothing => self,
            Recording::Allocation { address, size } => self.allocation(
                address,
                size,
                frames,
                number,
                native,
            ),
            Recording::Deallocation { address } => self.deallocation(address),
            Recording::Reallocation { old_address, new_address, new_size } => self.reallocation(
                old_address,
                new_address,
                new_size,
                frames,
                number,
                native,
            ),
        }
    }

    /// Whether the number was drawn and the native stack captured, as far as
    /// what is recorded needs either.
    pub open spec fn genuine(
        self,
        recording: Recording,
        frames: Seq<FrameView>,
        number: u64,
        native: Seq<FrameView>,
    ) -> bool {
        self.tracer.enabled ==> match recording {
            Recording::Allocation { size, .. } => size > 0 ==> self.tracer.genuine(
                size,
                Self::python(frames),
                number,
                native,
            ),
            Recording::Reallocation { old_address, new_size, .. } => self.tracer.genuine_move(
                old_address,
                new_size,
                Self::python(frames),
                number,
                native,
            ),
            _ => true,
        }
    }

    /// Whether Python frames make a difference to a recording.
    pub open spec fn wants_frames(self, recording: Recording) -> bool {
        self.tracer.enabled && match recording {
            Recording::Allocation { size, .. } => size > 0,
            Recording::Reallocation { .. } => true,
            _ => false,
        }
    }
}

/// A tracer together with the sizes of the live allocations, which the hooks
/// are not told again.
#[derive(Debug)]
pub struct ShimState {
    tracer: Tracer,
    frame_depth: usize,
    frame_skip: usize,
    allocations: HashMap<usize, usize>,
    exporters: Vec<String>,
}

impl View for ShimState {
    type V = ShimView;

    closed spec fn view(&self) -> ShimView {
        ShimView {
            tracer: self.tracer@,
            sizes: self.allocations@,
            frame_depth: self.frame_depth,
            frame_skip: self.frame_skip,
        }
    }
}

impl ShimState {
    pub closed spec fn wf(&self) -> bool {
        &&& self.tracer.wf()
        &&& 0 < self.frame_depth
    }

    /// The names of the exporters that were asked for.
    pub closed spec fn exporter_names(&self) -> Seq<String> {
        self.exporters@
    }

    #[must_use]
    pub fn new(tracer: Tracer, exporters: Vec<String>) -> (shim: Self)
        requires
            tracer.wf(),
        ensures
            shim.wf(),
            shim@ == ShimView::initial(tracer@),
            shim@.frame_depth == (if tracer@.config.max_stack_depth == 0 {
                1
            } else {
                tracer@.config.max_stack_depth as int
            }),
            shim@.frame_skip == tracer@.config.python_skip_frames,
            shim.exporter_names() == exporters@,
    {
        let depth: u16 = tracer.config().max_stack_depth;
        let frame_skip: usize = tracer.config().python_skip_frames;
        let frame_depth: usize = if depth == 0 {
            1
        } else {
            depth as usize
        };
        ShimState { tracer, frame_depth, frame_skip, allocations: HashMap::new(), exporters }
    }

    #[must_use]
    pub fn exporters(&self) -> (exporters: &Vec<String>)
        ensures
            exporters@ == self.exporter_names(),
    {
        &self.exporters
    }

    /// The tracer behind the hooks.
    #[must_use]
    pub fn tracer(&mut self) -> (tracer: &mut Tracer)
        requires
            old(self).wf(),
        ensures
            tracer.wf(),
            tracer@ == old(self)@.tracer,
            final(tracer).wf() ==> final(self).wf(),
            final(self)@ == (ShimView { tracer: final(tracer)@, ..old(self)@ }),
            final(self).exporter_names() == old(self).exporter_names(),
    {
        &mut self.tracer
    }

    /// Whether the tracer records.
    #[must_use]
    pub fn is_tracing(&self) -> (tracing: bool)
        ensures
            tracing == self@.tracer.enabled,
    {
        self.tracer.enabled()
    }

    /// Forgets the sizes of the live allocations.
    pub fn clear_allocations(&mut self)
        requires
            old(self).wf(),
        ensures
            final(self).wf(),
            final(self)@ == (ShimView { sizes: Map::empty(), ..old(self)@ }),
            final(self).exporter_names() == old(self).exporter_names(),
    {
        self.allocations.clear();
        assert(self@.sizes =~= Map::empty());
    }

    /// Stops tracing.
    pub fn stop(&mut self)
        requires
            old(self).wf(),
        ensures
            final(self).wf(),
            final(self)@ == (ShimView {
                tracer: TracerView { enabled: false, ..old(self)@.tracer },
                sizes: Map::empty(),
                ..old(self)@
            }),
            final(self).exporter_names() == old(self).exporter_names(),
    {
        self.tracer.disable();
        self.clear_allocations();
    }

    /// Whether Python frames make a difference to a recording.
    #[must_use]
    pub fn wants_frames(&self, recording: Recording) -> (wants: bool)
        ensures
            wants == self@.wants_frames(recording),
    {
        if !self.tracer.enabled() {
            return false;
        }
        match recording {
            Recording::Allocation { size, .. } => size > 0,
            Recording::Reallocation { .. } => true,
            _ => false,
        }
    }

    fn size_at(&self, address: usize) -> (size: usize)
        ensures
            size == self@.size_at(address),
    {
        match self.allocations.get(&address) {
            Some(size) => *size,
            None => 0,
        }
    }

    /// Records an allocation, with the Python frames that led to it.
    pub fn record_allocation(&mut self, address: usize, size: usize, frames: &[FrameMetadata])
        requires
            old(self).wf(),
        ensures
            final(self).wf(),
            exists|number: u64, native: Seq<FrameView>|
                old(self)@.genuine(
                    (Recording::Allocation { address, size }),
                    FrameView::all(frames@),
                    number,
                    native,
                ) && final(self)@ == #[trigger] old(self)@.allocation(
                    address,
                    size,
                    FrameView::all(frames@),
                    number,
                    native,
                ),
            final(self).exporter_names() == old(self).exporter_names(),
    {
        if size == 0 || !self.tracer.enabled() {
            assert(self@ == old(self)@.allocation(
                address,
                size,
                FrameView::all(frames@),
                0,
                Seq::empty(),
            ));
            return;
        }
        let ghost before = self.tracer@;
        if frames.len() == 0 {
            self.tracer.record_allocation(address, size);
        } else {
            self.tracer.record_allocation_with_frames(address, size, frames);
        }
        self.allocations.insert(address, size);
        proof {
            let python = ShimView::python(FrameView::all(frames@));
            let (number, native) = choose|number: u64, native: Seq<FrameView>|
                (before.enabled ==> before.genuine(size, python, number, native)) && self.tracer@
                    == #[trigger] before.allocation(
                    address,
                    size,
                    python,
                    number,
                    native,
                );
            assert(self@ =~= old(self)@.allocation(
                address,
                size,
                FrameView::all(frames@),
                number,
                native,
            ));
        }
    }

    /// Records an allocation in given surroundings, in place of drawing a
    /// number and walking up the native stack.
    pub fn record_allocation_in(
        &mut self,
        address: usize,
        size: usize,
        frames: &[FrameMetadata],
        surroundings: Surroundings,
    )
        requires
            old(self).wf(),
        ensures
            final(self).wf(),
            final(self)@ == old(self)@.allocation(
                address,
                size,
                FrameView::all(frames@),
                surroundings.number,
                FrameView::all(surroundings.native@),
            ),
            final(self).exporter_names() == old(self).exporter_names(),
    {
        if size == 0 || !self.tracer.enabled() {
            return;
        }
        if frames.len() == 0 {
            self.tracer.record_allocation_in(address, size, None, surroundings);
        } else {
            self.tracer.record_allocation_in(address, size, Some(frames), surroundings);
        }
        self.allocations.insert(address, size);
    }

    /// Records a deallocation. The hooks are told no size, so the one of the
    /// allocation is used.
    pub fn record_deallocation(&mut self, address: usize)
        requires
            old(self).wf(),
        ensures
            final(self).wf(),
            final(self)@ == old(self)@.deallocation(address),
            final(self).exporter_names() == old(self).exporter_names(),
    {
        let size: usize = self.size_at(address);
        self.allocations.remove(&address);
        if self.tracer.enabled() {
            self.tracer.record_deallocation(address, size);
        }
        assert(self@ =~= old(self)@.deallocation(address));
    }

    fn move_size(&mut self, old_address: usize, new_address: usize, new_size: usize)
        requires
            old(self).wf(),
        ensures
            final(self).wf(),
            final(self)@ == (ShimView {
                sizes: if new_size > 0 {
                    old(self)@.sizes.remove(old_address).insert(new_address, new_size)
                } else {
                    old(self)@.sizes.remove(old_address)
                },
                ..old(self)@
            }),
            final(self).exporter_names() == old(self).exporter_names(),
    {
        self.allocations.remove(&old_address);
        if new_size > 0 {
            self.allocations.insert(new_address, new_size);
        }
    }

    /// Records a reallocation, with the Python frames that led to it. The old
    /// size is the one of the allocation.
    pub fn record_reallocation(
        &mut self,
        old_address: usize,
        new_address: usize,
        new_size: usize,
        frames: &[FrameMetadata],
    )
        requires
            old(self).wf(),
        ensures
            final(self).wf(),
            exists|number: u64, native: Seq<FrameView>|
                old(self)@.genuine(
                    (Recording::Reallocation { old_address, new_address, new_size }),
                    FrameView::all(frames@),
                    number,
                    native,
                ) && final(self)@ == #[trigger] old(self)@.reallocation(
                    old_address,
                    new_address,
                    new_size,
                    FrameView::all(frames@),
                    number,
                    native,
                ),
            final(self).exporter_names() == old(self).exporter_names(),
    {
        let old_size: usize = self.size_at(old_address);
        let ghost before = self.tracer@;
        if frames.len() == 0 {
            self.tracer.record_reallocation(old_address, old_size, new_address, new_size);
        } else {
            self.tracer.record_reallocation_with_frames(
                old_address,
                old_size,
                new_address,
                new_size,
                frames,
            );
        }
        let ghost after = self.tracer@;
        self.move_size(old_address, new_address, new_size);
        proof {
            let python = ShimView::python(FrameView::all(frames@));
            let (number, native) = choose|number: u64, native: Seq<FrameView>|
                (before.enabled ==> before.genuine_move(
                    old_address,
                    new_size,
                    python,
                    number,
                    native,
                )) && after == #[trigger] before.reallocation(
                    old_address,
                    old_size,
                    new_address,
                    new_size,
                    python,
                    number,
                    native,
                );
            assert(self@ =~= old(self)@.reallocation(
                old_address,
                new_address,
                new_size,
                FrameView::all(frames@),
                number,
                native,
            ));
        }
    }

    /// Records a reallocation in given surroundings, in place of drawing a
    /// number and walking up the native stack.
    pub fn record_reallocation_in(
        &mut self,
        old_address: usize,
        new_address: usize,
        new_size: usize,
        frames: &[FrameMetadata],
        surroundings: Surroundings,
    )
        requires
            old(self).wf(),
        ensures
            final(self).wf(),
            final(self)@ == old(self)@.reallocation(
                old_address,
                new_address,
                new_size,
                FrameView::all(frames@),
                surroundings.number,
                FrameView::all(surroundings.native@),
            ),
            final(self).exporter_names() == old(self).exporter_names(),
    {
        let old_size: usize = self.size_at(old_address);
        let python: Option<&[FrameMetadata]> = if frames.len() == 0 {
            None
        } else {
            Some(frames)
        };
        self.tracer.record_reallocation_in(
            old_address,
            old_size,
            new_address,
            new_size,
            python,
            surroundings,
        );
        self.move_size(old_address, new_address, new_size);
    }

    /// Records what a call of an allocator gave to record, with the Python
    /// frames that led to it.
    pub fn record(&mut self, recording: Recording, frames: &[FrameMetadata])
        requires
            old(self).wf(),
        ensures
            final(self).wf(),
            exists|number: u64, native: Seq<FrameView>|
                old(self)@.genuine(recording, FrameView::all(frames@), number, native)
                    && final(self)@ == #[trigger] old(self)@.record(
                    recording,
                    FrameView::all(frames@),
                    number,
                    native,
                ),
            final(self).exporter_names() == old(self).exporter_names(),
    {
        let ghost views = FrameView::all(frames@);
        match recording {
            Recording::Nothing => {
                assert(self@ == old(self)@.record(recording, views, 0, Seq::empty()));
            },
            Recording::Allocation { address, size } => {
                self.record_allocation(address, size, frames);
                proof {
                    let (number, native) = choose|number: u64, native: Seq<FrameView>|
                        old(self)@.genuine(recording, views, number, native) && self@
                            == #[trigger] old(self)@.allocation(
                            address,
                            size,
                            views,
                            number,
                            native,
                        );
                    assert(self@ == old(self)@.record(recording, views, number, native));
                }
            },
            Recording::Deallocation { address } => {
                self.record_deallocation(address);
                assert(self@ == old(self)@.record(recording, views, 0, Seq::empty()));
            },
            Recording::Reallocation { old_address, new_address, new_size } => {
                self.record_reallocation(old_address, new_address, new_size, frames);
                proof {
                    let (number, native) = choose|number: u64, native: Seq<FrameView>|
                        old(self)@.genuine(recording, views, number, native) && self@
                            == #[trigger] old(self)@.reallocation(
                            old_address,
                            new_address,
                            new_size,
                            views,
                            number,
                            native,
                        );
                    assert(self@ == old(self)@.record(recording, views, number, native));
                }
            },
        }
    }

    /// A walk over the Python frames of a thread, as far as they go into a
    /// stack.
    #[must_use]
    pub fn frame_walk(&self) -> (walk: FrameWalk)
        requires
            self.wf(),
        ensures
            walk@ == WalkView::initial(self@.frame_depth, self@.frame_skip),
            walk@.depth == self@.frame_depth,
            walk@.skip == self@.frame_skip,
    {
        FrameWalk::new(self.frame_depth, self.frame_skip)
    }
}

/// The state of a walk over Python frames.
#[verifier::ext_equal]
pub struct WalkView {
    pub depth: usize,
    pub skip: usize,
    /// How many frames have been visited.
    pub visited: usize,
    /// The frames that were kept.
    pub frames: Seq<FrameView>,
}

impl WalkView {
    pub open spec fn initial(depth: usize, skip: usize) -> Self {
        WalkView { depth, skip, visited: 0, frames: Seq::empty() }
    }

    /// Whether the next outer frame is to be visited.
    pub open spec fn wants_more(self) -> bool {
        self.frames.len() < self.depth && self.visited < self.depth + self.skip
    }

    /// The walk once a frame has been visited. Nothing may be known of it.
    pub open spec fn visit(self, frame: Option<FrameView>) -> Self {
        WalkView {
            visited: self.visited.saturating_add(1),
            frames: match frame {
                Some(frame) if self.visited >= self.skip => self.frames.push(frame),
                _ => self.frames,
            },
            ..self
        }
    }

    /// The walk over a stack, innermost frame first, as far as it goes.
    pub open spec fn walk(self, stack: Seq<Option<FrameView>>) -> Self
        decreases stack.len(),
    {
        if stack.len() == 0 || !self.wants_more() {
            self
        } else {
            self.visit(stack[0]).walk(stack.skip(1))
        }
    }

    /// The frames of a stack of which something is known.
    pub open spec fn known(stack: Seq<Option<FrameView>>) -> Seq<FrameView>
        decreases stack.len(),
    {
        if stack.len() == 0 {
            Seq::empty()
        } else {
            match stack[0] {
                Some(frame) => seq![frame] + Self::known(stack.skip(1)),
                None => Self::known(stack.skip(1)),
            }
        }
    }

    /// All but the first `skip` frames, and at most `limit` of them.
    pub open spec fn window(
        stack: Seq<Option<FrameView>>,
        skip: int,
        limit: int,
    ) -> Seq<Option<FrameView>> {
        let rest = if skip <= stack.len() {
            stack.skip(skip)
        } else {
            Seq::empty()
        };
        if limit <= rest.len() {
            rest.take(limit)
        } else {
            rest
        }
    }

    proof fn lemma_known_is_no_longer(stack: Seq<Option<FrameView>>)
        ensures
            Self::known(stack).len() <= stack.len(),
        decreases stack.len(),
    {
        if stack.len() > 0 {
            Self::lemma_known_is_no_longer(stack.skip(1));
        }
    }

    proof fn lemma_walk(self, stack: Seq<Option<FrameView>>)
        requires
            self.visited + stack.len() < usize::MAX,
            self.visited <= self.skip ==> self.frames.len() == 0,
            self.visited > self.skip ==> self.frames.len() <= self.visited - self.skip,
        ensures
            ({
                let skip = if self.visited <= self.skip {
                    self.skip - self.visited
                } else {
                    0
                };
                let limit = if self.visited <= self.skip {
                    self.depth as int
                } else if self.visited <= self.depth + self.skip {
                    self.depth + self.skip - self.visited
                } else {
                    0
                };
                self.walk(stack).frames == self.frames + Self::known(
                    Self::window(stack, skip, limit),
                )
            }),
        decreases stack.len(),
    {
        let skip = if self.visited <= self.skip {
            self.skip - self.visited
        } else {
            0
        };
        let limit = if self.visited <= self.skip {
            self.depth as int
        } else if self.visited <= self.depth + self.skip {
            self.depth + self.skip - self.visited
        } else {
            0
        };
        let window = Self::window(stack, skip, limit);
        if stack.len() == 0 || !self.wants_more() {
            assert(window.len() == 0);
            assert(self.frames + Self::known(window) =~= self.frames);
        } else {
            let next = self.visit(stack[0]);
            let rest = stack.skip(1);
            next.lemma_walk(rest);
            if self.visited < self.skip {
                assert(window =~= Self::window(rest, skip - 1, limit));
            } else {
                let rest_window = Self::window(rest, 0, limit - 1);
                assert(window.skip(1) =~= rest_window);
                assert(window[0] == stack[0]);
                assert(next.walk(rest).frames =~= self.frames + Self::known(window));
            }
        }
    }

    /// A walk keeps what is known of the frames in a window of the stack: the
    /// innermost frames are left out, and no more are taken than asked for.
    pub proof fn law_walks_take_a_window(
        depth: usize,
        skip: usize,
        stack: Seq<Option<FrameView>>,
    )
        requires
            stack.len() < usize::MAX,
        ensures
            Self::initial(depth, skip).walk(stack).frames == Self::known(
                Self::window(stack, skip as int, depth as int),
            ),
            Self::initial(depth, skip).walk(stack).frames.len() <= depth,
    {
        let start = Self::initial(depth, skip);
        start.lemma_walk(stack);
        let window = Self::window(stack, skip as int, depth as int);
        assert(start.frames + Self::known(window) =~= Self::known(window));
        Self::lemma_known_is_no_longer(window);
    }
}

impl WalkView {
    /// A window leaves out as many of the first frames as asked for, and holds
    /// the next ones in order, up to the limit or the last.
    pub proof fn law_windows(stack: Seq<Option<FrameView>>, skip: int, limit: int)
        requires
            0 <= skip,
            0 <= limit,
        ensures
            ({
                let window = Self::window(stack, skip, limit);
                &&& stack.len() <= skip ==> window.len() == 0
                &&& skip <= stack.len() <= skip + limit ==> window.len() == stack.len() - skip
                &&& skip + limit <= stack.len() ==> window.len() == limit
                &&& forall|i: int|
                    0 <= i < window.len() ==> #[trigger] window[i] == stack[skip + i]
            }),
    {
    }

    /// The known frames of a stack are those of its parts, and of a single
    /// frame it is the frame itself, where it is known.
    pub proof fn law_known_frames_come_in_parts(
        first: Seq<Option<FrameView>>,
        frame: Option<FrameView>,
        second: Seq<Option<FrameView>>,
    )
        ensures
            Self::known(Seq::empty()) == Seq::<FrameView>::empty(),
            Self::known(seq![frame]) == (match frame {
                Some(frame) => seq![frame],
                None => Seq::empty(),
            }),
            Self::known(first + second) == Self::known(first) + Self::known(second),
        decreases first.len(),
    {
        let one = seq![frame];
        assert(one.skip(1) =~= Seq::empty());
        assert(Self::known(one.skip(1)) =~= Seq::empty());
        assert(Self::known(one) =~= (match frame {
            Some(frame) => seq![frame],
            None => Seq::empty(),
        }));
        if first.len() == 0 {
            assert(first + second =~= second);
            assert(Self::known(first) + Self::known(second) =~= Self::known(second));
        } else {
            Self::law_known_frames_come_in_parts(first.skip(1), frame, second);
            assert((first + second).skip(1) =~= first.skip(1) + second);
            assert((first + second)[0] == first[0]);
            assert(Self::known(first + second) =~= Self::known(first) + Self::known(second));
        }
    }

    proof fn lemma_all_known(stack: Seq<Option<FrameView>>)
        requires
            forall|i: int| 0 <= i < stack.len() ==> (#[trigger] stack[i]) is Some,
        ensures
            Self::known(stack).len() == stack.len(),
            forall|i: int|
                0 <= i < stack.len() ==> Some(#[trigger] Self::known(stack)[i]) == stack[i],
        decreases stack.len(),
    {
        if stack.len() > 0 {
            let rest = stack.skip(1);
            assert forall|i: int| 0 <= i < rest.len() implies (#[trigger] rest[i]) is Some by {
                assert(rest[i] == stack[i + 1]);
            }
            Self::lemma_all_known(rest);
            assert(stack[0] is Some);
            assert forall|i: int| 0 <= i < stack.len() implies Some(
                #[trigger] Self::known(stack)[i],
            ) == stack[i] by {
                if i > 0 {
                    assert(Self::known(stack)[i] == Self::known(rest)[i - 1]);
                    assert(rest[i - 1] == stack[i]);
                }
            }
        }
    }

    /// A walk over a stack of which every frame is known keeps the frames after
    /// the first `skip`, one for one, and exactly `depth` of them where there
    /// are as many.
    pub proof fn law_walks_keep_known_frames(
        depth: usize,
        skip: usize,
        stack: Seq<Option<FrameView>>,
    )
        requires
            stack.len() < usize::MAX,
            forall|i: int| 0 <= i < stack.len() ==> (#[trigger] stack[i]) is Some,
        ensures
            ({
                let frames = Self::initial(depth, skip).walk(stack).frames;
                &&& stack.len() <= skip ==> frames.len() == 0
                &&& skip <= stack.len() <= skip + depth ==> frames.len() == stack.len() - skip
                &&& skip + depth <= stack.len() ==> frames.len() == depth
                &&& forall|i: int|
                    0 <= i < frames.len() ==> Some(#[trigger] frames[i]) == stack[skip + i]
            }),
    {
        let window = Self::window(stack, skip as int, depth as int);
        Self::law_walks_take_a_window(depth, skip, stack);
        assert forall|i: int| 0 <= i < window.len() implies (#[trigger] window[i]) is Some by {
            assert(window[i] == stack[skip + i]);
        }
        Self::lemma_all_known(window);
        assert forall|i: int| 0 <= i < Self::known(window).len() implies Some(
            #[trigger] Self::known(window)[i],
        ) == stack[skip + i] by {
            assert(window[i] == stack[skip + i]);
        }
    }

    /// A walk asks for one more frame as long as it has kept fewer than asked
    /// for and has not passed the end of the window. What it visits counts
    /// whether it is known or not, and is kept where it is known and not one of
    /// those to leave out.
    pub proof fn law_walks_visit_frame_by_frame(self, frame: Option<FrameView>)
        requires
            self.visited < usize::MAX,
        ensures
            self.wants_more() <==> self.frames.len() < self.depth && self.visited < self.depth
                + self.skip,
            self.visit(frame).visited == self.visited + 1,
            self.visit(frame).depth == self.depth,
            self.visit(frame).skip == self.skip,
            frame is None || self.visited < self.skip ==> self.visit(frame).frames == self.frames,
            frame is Some && self.skip <= self.visited ==> self.visit(frame).frames
                == self.frames.push(frame->0),
    {
    }
}

/// A walk over the Python frames of a thread, from the innermost outward.
#[derive(Debug)]
pub struct FrameWalk {
    depth: usize,
    skip: usize,
    visited: usize,
    frames: Vec<FrameMetadata>,
}

impl View for FrameWalk {
    type V = WalkView;

    closed spec fn view(&self) -> WalkView {
        WalkView {
            depth: self.depth,
            skip: self.skip,
            visited: self.visited,
            frames: FrameView::all(self.frames@),
        }
    }
}

impl FrameWalk {
    #[must_use]
    pub fn new(depth: usize, skip: usize) -> (walk: Self)
        ensures
            walk@ == WalkView::initial(depth, skip),
    {
        let walk = FrameWalk { depth, skip, visited: 0, frames: Vec::new() };
        assert(walk@ =~= WalkView::initial(depth, skip));
        walk
    }

    /// Whether the next outer frame is to be visited.
    #[must_use]
    pub fn wants_more(&self) -> (wants: bool)
        ensures
            wants == self@.wants_more(),
    {
        self.frames.len() < self.depth && (self.visited < self.skip || self.visited - self.skip
            < self.depth)
    }

    /// Visits a frame, of which nothing may be known.
    pub fn visit(&mut self, frame: Option<FrameMetadata>)
        ensures
            final(self)@ == old(self)@.visit(FrameView::of(frame)),
    {
        if self.visited >= self.skip {
            if let Some(frame) = frame {
                let ghost before = self.frames@;
                self.frames.push(frame);
                assert(FrameView::all(self.frames@) =~= FrameView::all(before).push(frame@));
            }
        }
        self.visited = self.visited.saturating_add(1);
    }

    /// The frames that were kept.
    #[must_use]
    pub fn into_frames(self) -> (frames: Vec<FrameMetadata>)
        ensures
            FrameView::all(frames@) == self@.frames,
    {
        self.frames
    }
}

/// What is known of a Python frame. What is not known is shown by a
/// placeholder.
#[must_use]
pub fn frame_metadata(
    filename: Option<String>,
    function: Option<String>,
    lineno: Option<u32>,
) -> (frame: FrameMetadata)
    ensures
        frame@.filename == (match filename {
            Some(filename) => filename@,
            None => "<unknown>"@,
        }),
        frame@.function == (match function {
            Some(function) => function@,
            None => "<unknown>"@,
        }),
        frame@.lineno == (match lineno {
            Some(lineno) => lineno,
            None => 0,
        }),
{
    let filename: &str = match &filename {
        Some(filename) => filename.as_str(),
        None => "<unknown>",
    };
    let function: &str = match &function {
        Some(function) => function.as_str(),
        None => "<unknown>",
    };
    let lineno: u32 = match lineno {
        Some(lineno) => lineno,
        None => 0,
    };
    FrameMetadata::new(filename, function, lineno)
}

impl ShimView {
    /// The walk of the hooks takes as many Python frames as the tracer puts into
    /// a stack, and leaves out as many of the innermost as are to be left out.
    pub proof fn law_walks_go_as_deep_as_stacks(config: TracerConfig)
        ensures
            ({
                let tracer = TracerView::initial(config);
                let shim = Self::initial(tracer);
                let walk = WalkView::initial(shim.frame_depth, shim.frame_skip);
                &&& walk.depth == tracer.collector.max_depth
                &&& walk.skip == tracer.collector.python_skip_frames
                &&& 0 < config.max_stack_depth ==> walk.depth == config.max_stack_depth
                &&& config.max_stack_depth == 0 ==> walk.depth == 1
                &&& walk.skip == config.python_skip_frames
                &&& walk.visited == 0
                &&& walk.frames.len() == 0
            }),
    {
    }

    /// The hooks go by the configuration of the tracer that they are given, and
    /// start without any allocation.
    pub proof fn law_hooks_follow_the_tracer(tracer: TracerView)
        ensures
            ({
                let shim = Self::initial(tracer);
                &&& shim.tracer == tracer
                &&& shim.sizes == Map::<usize, usize>::empty()
                &&& 0 < tracer.config.max_stack_depth ==> shim.frame_depth
                    == tracer.config.max_stack_depth
                &&& tracer.config.max_stack_depth == 0 ==> shim.frame_depth == 1
                &&& shim.frame_skip == tracer.config.python_skip_frames
            }),
    {
    }

    /// From a stack of which every frame is known, the walk of the hooks takes
    /// the frames after those to leave out, as many as the configured depth.
    pub proof fn law_hooks_take_the_configured_frames(
        config: TracerConfig,
        stack: Seq<Option<FrameView>>,
    )
        requires
            stack.len() < usize::MAX,
            forall|i: int| 0 <= i < stack.len() ==> (#[trigger] stack[i]) is Some,
            0 < config.max_stack_depth,
        ensures
            ({
                let shim = Self::initial(TracerView::initial(config));
                let frames = WalkView::initial(shim.frame_depth, shim.frame_skip).walk(
                    stack,
                ).frames;
                let depth = config.max_stack_depth as int;
                let skip = config.python_skip_frames as int;
                &&& stack.len() <= skip ==> frames.len() == 0
                &&& skip <= stack.len() <= skip + depth ==> frames.len() == stack.len() - skip
                &&& skip + depth <= stack.len() ==> frames.len() == depth
                &&& forall|i: int|
                    0 <= i < frames.len() ==> Some(#[trigger] frames[i]) == stack[skip + i]
            }),
    {
        let shim = Self::initial(TracerView::initial(config));
        WalkView::law_walks_keep_known_frames(shim.frame_depth, shim.frame_skip, stack);
    }

    /// An allocation that is not empty is handed to an enabled tracer as it is,
    /// with the Python frames where there are any, and its size is kept. Any
    /// other allocation is passed over.
    pub proof fn law_allocations_are_handed_on(
        self,
        address: usize,
        size: usize,
        frames: Seq<FrameView>,
        number: u64,
        native: Seq<FrameView>,
    )
        ensures
            ({
                let recording = Recording::Allocation { address, size };
                let after = self.record(recording, frames, number, native);
                &&& size == 0 || !self.tracer.enabled ==> after == self
                &&& size > 0 && self.tracer.enabled ==> {
                    &&& after.sizes == self.sizes.insert(address, size)
                    &&& after.frame_depth == self.frame_depth
                    &&& after.frame_skip == self.frame_skip
                    &&& frames.len() > 0 ==> after.tracer == self.tracer.allocation(
                        address,
                        size,
                        Some(frames),
                        number,
                        native,
                    )
                    &&& frames.len() == 0 ==> after.tracer == self.tracer.allocation(
                        address,
                        size,
                        None,
                        number,
                        native,
                    )
                }
            }),
    {
    }

    /// A deallocation is handed on with the size that is kept, or with zero
    /// where none is, and no size is kept from then on.
    pub proof fn law_deallocations_are_handed_on(
        self,
        address: usize,
        frames: Seq<FrameView>,
        number: u64,
        native: Seq<FrameView>,
    )
        ensures
            ({
                let recording = Recording::Deallocation { address };
                let after = self.record(recording, frames, number, native);
                &&& after.sizes == self.sizes.remove(address)
                &&& after.frame_depth == self.frame_depth
                &&& after.frame_skip == self.frame_skip
                &&& self.sizes.contains_key(address) ==> after.tracer == self.tracer.deallocation(
                    address,
                    self.sizes[address],
                )
                &&& !self.sizes.contains_key(address) ==> after.tracer == self.tracer.deallocation(
                    address,
                    0,
                )
            }),
    {
    }

    /// A reallocation is handed on with the size that is kept of the old
    /// allocation, or with zero where none is. From then on the new size is kept
    /// under the new address, unless it is zero.
    pub proof fn law_reallocations_are_handed_on(
        self,
        old_address: usize,
        new_address: usize,
        new_size: usize,
        frames: Seq<FrameView>,
        number: u64,
        native: Seq<FrameView>,
    )
        ensures
            ({
                let recording = Recording::Reallocation { old_address, new_address, new_size };
                let after = self.record(recording, frames, number, native);
                let old_size = if self.sizes.contains_key(old_address) {
                    self.sizes[old_address]
                } else {
                    0
                };
                &&& after.frame_depth == self.frame_depth
                &&& after.frame_skip == self.frame_skip
                &&& new_size == 0 ==> after.sizes == self.sizes.remove(old_address)
                &&& new_size > 0 ==> after.sizes == self.sizes.remove(old_address).insert(
                    new_address,
                    new_size,
                )
                &&& frames.len() > 0 ==> after.tracer == self.tracer.reallocation(
                    old_address,
                    old_size,
                    new_address,
                    new_size,
                    Some(frames),
                    number,
                    native,
                )
                &&& frames.len() == 0 ==> after.tracer == self.tracer.reallocation(
                    old_address,
                    old_size,
                    new_address,
                    new_size,
                    None,
                    number,
                    native,
                )
            }),
    {
    }

    /// Frames are asked for by an enabled tracer, for an allocation that is not
    /// empty and for a reallocation. Where none are asked for, they make no
    /// difference.
    pub proof fn law_frames_are_asked_for_where_they_matter(
        self,
        recording: Recording,
        frames: Seq<FrameView>,
        others: Seq<FrameView>,
        number: u64,
        native: Seq<FrameView>,
    )
        ensures
            !self.tracer.enabled ==> !self.wants_frames(recording),
            self.tracer.enabled && recording is Reallocation ==> self.wants_frames(recording),
            self.tracer.enabled && recording is Allocation && recording->Allocation_size > 0
                ==> self.wants_frames(recording),
            !self.wants_frames(recording) ==> self.record(recording, frames, number, native)
                == self.record(recording, others, number, native),
            recording is Nothing ==> self.record(recording, frames, number, native) == self,
            recording is Nothing || recording is Deallocation ==> !self.wants_frames(recording),
            recording is Allocation && recording->Allocation_size == 0 ==> !self.wants_frames(
                recording,
            ),
    {
    }

    /// A reallocation is recorded with the size that the allocation had.
    pub proof fn law_reallocations_use_the_recorded_size(
        self,
        old_address: usize,
        size: usize,
        new_address: usize,
        new_size: usize,
        frames: Seq<FrameView>,
        number: u64,
        native: Seq<FrameView>,
    )
        requires
            self.tracer.enabled,
            0 < size,
        ensures
            ({
                let allocated = self.allocation(old_address, size, frames, number, native);
                allocated.reallocation(
                    old_address,
                    new_address,
                    new_size,
                    frames,
                    number,
                    native,
                ).tracer == allocated.tracer.reallocation(
                    old_address,
                    size,
                    new_address,
                    new_size,
                    Self::python(frames),
                    number,
                    native,
                )
            }),
    {
    }

    /// A deallocation is recorded with the size that the allocation had, and
    /// nothing is left of it.
    pub proof fn law_deallocations_use_the_recorded_size(
        self,
        address: usize,
        size: usize,
        frames: Seq<FrameView>,
        number: u64,
        native: Seq<FrameView>,
    )
        requires
            self.tracer.enabled,
            0 < size,
        ensures
            ({
                let allocated = self.allocation(address, size, frames, number, native);
                &&& allocated.deallocation(address).tracer == allocated.tracer.deallocation(
                    address,
                    size,
                )
                &&& allocated.deallocation(address).sizes == self.sizes.remove(address)
            }),
    {
        let allocated = self.allocation(address, size, frames, number, native);
        assert(allocated.sizes.remove(address) =~= self.sizes.remove(address));
    }

    /// Whether the sizes are those of the live allocations that the tracer
    /// knows.
    pub open spec fn mirrors_live_allocations(self) -> bool {
        &&& self.sizes.dom() == self.tracer.live.dom()
        &&& forall|address: usize| #[trigger]
            self.sizes.contains_key(address) ==> self.tracer.live[address].size
                == self.sizes[address]
    }

    /// The sizes are those of the live allocations that the tracer knows, as
    /// long as it records all of them and is told of no reallocation that
    /// started elsewhere.
    pub proof fn law_sizes_mirror_live_allocations(
        self,
        recording: Recording,
        frames: Seq<FrameView>,
        number: u64,
        native: Seq<FrameView>,
    )
        requires
            self.mirrors_live_allocations(),
            self.tracer.enabled,
            !self.tracer.sampling.enabled(),
            recording matches Recording::Reallocation { old_address, .. }
                ==> self.sizes.contains_key(old_address),
        ensures
            self.record(recording, frames, number, native).mirrors_live_allocations(),
    {
        let after = self.record(recording, frames, number, native);
        assert(after.sizes.dom() =~= after.tracer.live.dom());
    }
}

} // verus!
