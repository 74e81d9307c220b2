//! The tracer.

use crate::aggregator::Aggregator;
use crate::allocation_index::{
    index_clear, index_insert, index_new, index_remove, AllocationIndex, AllocationRecord,
};
use crate::config::{TracerConfig, SAMPLING_RATE_ONE};
use crate::event::{AllocationEvent, EventKind, EventView, StackId};
use crate::frames::{FrameMetadata, FrameView};
use crate::key_table::Numbering;
use crate::origin::Origin;
use crate::ring_buffer::{DrainAction, ThreadBuffer};
use crate::sampling::SamplingState;
use crate::snapshot::Snapshot;
use crate::stack::StackTable;
use crate::stack_capture::{CollectorView, StackCollector};
use crate::tracer_view::{BufferView, TracerView};
use vstd::prelude::*;

verus! {

/// The buffer of a thread.
#[derive(Debug)]
struct ThreadLocalBuffer {
    buffer: ThreadBuffer,
    thread: u64,
}

impl View for ThreadLocalBuffer {
    type V = BufferView;

    closed spec fn view(&self) -> BufferView {
        BufferView {
            thread: self.thread,
            events: EventView::all(self.buffer.events()),
            dropped: self.buffer.dropped(),
        }
    }
}

impl ThreadLocalBuffer {
    spec fn fits(&self, config: TracerConfig) -> bool {
        let slots = ThreadBuffer::slots_in(config.ring_buffer_bytes);
        &&& self.buffer.wf()
        &&& self.buffer.capacity() == slots
        &&& self.buffer.threshold() == ThreadBuffer::threshold_of(slots)
    }
}

/// Moves what waits in a buffer behind the events: the waiting events and,
/// where events found no room, one that says how many.
fn drain_buffer(buffer: &mut ThreadBuffer, events: &mut Vec<AllocationEvent>)
    requires
        old(buffer).wf(),
    ensures
        final(buffer).wf(),
        final(buffer).capacity() == old(buffer).capacity(),
        final(buffer).events() == Seq::<AllocationEvent>::empty(),
        final(buffer).dropped() == 0,
        EventView::all(final(events)@) == EventView::all(old(events)@) + BufferView::output(
            (BufferView {
                thread: 0,
                events: EventView::all(old(buffer).events()),
                dropped: old(buffer).dropped(),
            }),
        ),
{
    let ghost waiting = EventView::all(buffer.events());
    let ghost before = EventView::all(events@);
    let dropped: u64 = buffer.drain_into(events);
    assert(EventView::all(events@) =~= before + waiting);
    if dropped > 0 {
        let ghost earlier = events@;
        let event = AllocationEvent::from(EventKind::Dropped { count: dropped });
        events.push(event);
        assert(EventView::all(events@) =~= EventView::all(earlier).push(event@));
        assert(EventView::all(events@) =~= before + waiting.push(event@));
    }
}

/// What comes of preparing an event.
enum HotEvent {
    /// The event concerns an allocation that should be known and is not.
    Missing,
    Sampled(AllocationEvent),
    Skipped,
}

impl HotEvent {
    /// Whether this is what comes of an allocation, and what the tracer is
    /// afterwards: a sampled one is among the live ones, and its event is not
    /// recorded yet.
    spec fn of_allocation(
        self,
        before: TracerView,
        after: TracerView,
        address: usize,
        size: usize,
        python: Option<Seq<FrameView>>,
        number: u64,
        native: Seq<FrameView>,
    ) -> bool {
        let observed = before.observe(size);
        if before.sampling.samples(size, number) {
            &&& self matches HotEvent::Sampled(event)
            &&& event@ == observed.allocation_event(address, size, python, native)
            &&& after == observed.admit_allocation(address, size, python, native)
        } else {
            &&& self is Skipped
            &&& after == observed
        }
    }

    /// Whether this is what comes of a deallocation, and what the tracer is
    /// afterwards: a known allocation is no longer among the live ones, and
    /// the event is not recorded yet.
    spec fn of_deallocation(
        self,
        before: TracerView,
        after: TracerView,
        address: usize,
        size: usize,
    ) -> bool {
        if before.live.contains_key(address) {
            &&& self matches HotEvent::Sampled(event)
            &&& event@ == before.deallocation_event(address, size)
            &&& after == before.release(address)
        } else {
            &&& after == before
            &&& if before.sampling.enabled() {
                self is Skipped
            } else {
                self is Missing
            }
        }
    }
}

/// What comes of preparing a reallocation.
enum PreparedReallocation {
    Events { allocation: Option<AllocationEvent>, deallocation: AllocationEvent },
    /// The reallocation concerns an allocation that should be known and is not.
    Missing,
    Skipped,
}

impl PreparedReallocation {
    /// Whether this is what comes of a reallocation, and what the tracer is
    /// afterwards: the old allocation is no longer among the live ones, the
    /// new one is among them where it is sampled, and the events are not
    /// recorded yet.
    spec fn of_reallocation(
        self,
        before: TracerView,
        after: TracerView,
        old_address: usize,
        old_size: usize,
        new_address: usize,
        new_size: usize,
        python: Option<Seq<FrameView>>,
        number: u64,
        native: Seq<FrameView>,
    ) -> bool {
        let released = before.release(old_address);
        let observed = released.observe(new_size);
        if !before.live.contains_key(old_address) {
            &&& after == before
            &&& if before.sampling.enabled() {
                self is Skipped
            } else {
                self is Missing
            }
        } else {
            &&& self matches PreparedReallocation::Events { allocation, deallocation }
            &&& deallocation@ == before.deallocation_event(old_address, old_size)
            &&& if new_size == 0 {
                allocation is None && after == released
            } else if !before.sampling.samples(new_size, number) {
                allocation is None && after == observed
            } else {
                &&& allocation matches Some(allocation)
                &&& allocation@ == observed.allocation_event(new_address, new_size, python, native)
                &&& after == observed.admit_allocation(new_address, new_size, python, native)
            }
        }
    }
}

/// What a recording depends on besides its arguments.
#[derive(Debug, Clone, Copy)]
pub struct Surroundings<'a> {
    /// The number that is drawn where chance decides on sampling.
    pub number: u64,
    /// The native stack of the calling thread, innermost frame first.
    pub native: &'a [FrameMetadata],
}

impl<'a> Surroundings<'a> {
    /// Whether the surroundings are the given ones, where any are given, and
    /// otherwise genuine ones.
    spec fn agree(
        given: Option<Surroundings<'a>>,
        genuine: bool,
        number: u64,
        native: Seq<FrameView>,
    ) -> bool {
        match given {
            Some(given) => number == given.number && native == FrameView::all(given.native@),
            None => genuine,
        }
    }
}

/// What the worker that drains the buffers does next.
#[derive(Debug, Clone, Copy, PartialEq, Eq, Structural)]
pub enum WorkerAction {
    /// Drain again at once.
    Continue,
    /// End the work.
    Exit,
    /// Wait for the drain interval, or until it is woken.
    Wait,
}

/// Records allocation events and produces snapshots.
///
/// Events go into a bounded buffer for each thread, from which they are
/// drained into the aggregator.
#[derive(Debug)]
pub struct Tracer {
    aggregator: Aggregator,
    allocation_index: AllocationIndex,
    buffers: Vec<ThreadLocalBuffer>,
    config: TracerConfig,
    enabled: bool,
    pending_flush: bool,
    wake: bool,
    sampling: SamplingState,
    stack_collector: StackCollector,
    stop_flag: bool,
}

impl View for Tracer {
    type V = TracerView;

    closed spec fn view(&self) -> TracerView {
        TracerView {
            aggregator: self.aggregator@,
            live: crate::allocation_index::index_records(self.allocation_index),
            buffers: self.buffers@.map_values(|buffer: ThreadLocalBuffer| buffer@),
            config: self.config,
            enabled: self.enabled,
            pending_flush: self.pending_flush,
            wake: self.wake,
            sampling: self.sampling,
            collector: self.stack_collector@,
            stopped: self.stop_flag,
        }
    }
}

impl Tracer {
    /// Every thread has at most one buffer, and all are of the configured size.
    pub closed spec fn wf(&self) -> bool {
        &&& forall|i: int|
            0 <= i < self.buffers@.len() ==> (#[trigger] self.buffers@[i]).fits(self.config)
        &&& BufferView::threads(self@.buffers).no_duplicates()
        &&& ThreadBuffer::addressable(self.config.ring_buffer_bytes)
        &&& self.sampling.wf()
        &&& self.stack_collector.wf()
    }

    /// What the tracer promises to whoever can see it.
    pub proof fn lemma_wf(&self)
        requires
            self.wf(),
        ensures
            self@.wf(),
    {
        ThreadBuffer::lemma_slots(self.config.ring_buffer_bytes);
        self.stack_collector.lemma_wf();
        assert forall|i: int| 0 <= i < self@.buffers.len() implies (
        #[trigger] self@.buffers[i]).events.len() <= self@.capacity() by {
            assert(self.buffers@[i].fits(self.config));
        }
    }

    /// Where the buffer of the current thread stands. A thread without a
    /// buffer gets one.
    fn thread_buffer(&mut self) -> (position: usize)
        requires
            old(self).wf(),
        ensures
            final(self).wf(),
            position == old(self)@.position(),
            position < final(self).buffers@.len(),
            final(self)@ == (TracerView {
                buffers: old(self)@.buffers_with_current(),
                ..old(self)@
            }),
    {
        let thread: u64 = self.stack_collector.thread();
        let ghost threads = BufferView::threads(self@.buffers);
        for i in 0..self.buffers.len()
            invariant
                *self == *old(self),
                self.wf(),
                threads == BufferView::threads(self@.buffers),
                thread == self@.collector.thread,
                forall|j: int| 0 <= j < i ==> threads[j] != thread,
        {
            assert(threads[i as int] == self.buffers@[i as int].thread);
            if self.buffers[i].thread == thread {
                proof {
                    Numbering::lemma_place(threads, i as int);
                }
                return i;
            }
        }
        assert(!threads.contains(thread));
        let position: usize = self.buffers.len();
        let buffer = ThreadBuffer::new(&self.config);
        self.buffers.push(ThreadLocalBuffer { buffer, thread });
        proof {
            Numbering::lemma_with(threads, thread);
            let ghost added = self.buffers@[position as int]@;
            assert(added =~= BufferView::empty(thread));
            assert(self@.buffers =~= old(self)@.buffers_with_current());
            assert(BufferView::threads(self@.buffers) =~= threads.push(thread));
            assert forall|i: int| 0 <= i < self.buffers@.len() implies (
            #[trigger] self.buffers@[i]).fits(self.config) by {
                if i < old(self).buffers@.len() {
                    assert(self.buffers@[i] == old(self).buffers@[i]);
                }
            }
        }
        position
    }

    /// Asks for a drain.
    fn notify_flush(&mut self)
        requires
            old(self).wf(),
        ensures
            final(self).wf(),
            final(self)@ == old(self)@.notify_flush(),
    {
        if !self.pending_flush {
            self.pending_flush = true;
            self.wake = true;
        }
    }

    fn enqueue_event(&mut self, event: AllocationEvent)
        requires
            old(self).wf(),
        ensures
            final(self).wf(),
            final(self)@ == old(self)@.enqueue(event@),
    {
        let position: usize = self.thread_buffer();
        let ghost before = *self;
        assert(before.buffers@[position as int].fits(before.config));
        assert(before@.buffers[position as int] == before.buffers@[position as int]@);
        let action = self.buffers[position].buffer.record(event);
        proof {
            let buffer = before.buffers@[position as int];
            let after = self.buffers@[position as int];
            assert(EventView::all(buffer.buffer.events().push(event)) =~= EventView::all(
                buffer.buffer.events(),
            ).push(event@));
            assert(after@ =~= buffer@.record(event@, before@.capacity()));
            assert(self@.buffers =~= before@.buffers.update(position as int, after@));
            assert(BufferView::threads(self@.buffers) =~= BufferView::threads(before@.buffers));
            assert forall|i: int| 0 <= i < self.buffers@.len() implies (
            #[trigger] self.buffers@[i]).fits(self.config) by {
                if i != position {
                    assert(self.buffers@[i] == before.buffers@[i]);
                }
            }
        }
        if let DrainAction::FlushPending = action {
            self.notify_flush();
        }
    }

    /// Moves all waiting events into the aggregator.
    fn drain_buffers(&mut self)
        requires
            old(self).wf(),
        ensures
            final(self).wf(),
            final(self)@ == old(self)@.drain(),
    {
        let mut events: Vec<AllocationEvent> = Vec::new();
        let ghost buffers = self@.buffers;
        let ghost before = *self;
        let len: usize = self.buffers.len();
        assert(EventView::all(events@) =~= BufferView::output_of_all(buffers.take(0)));
        for i in 0..len
            invariant
                len == self.buffers@.len() == before.buffers@.len(),
                buffers == before@.buffers,
                before.wf(),
                *self == (Tracer { buffers: self.buffers, ..before }),
                EventView::all(events@) == BufferView::output_of_all(buffers.take(i as int)),
                forall|j: int|
                    i <= j < len ==> #[trigger] self.buffers@[j] == before.buffers@[j],
                forall|j: int|
                    0 <= j < i ==> {
                        &&& (#[trigger] self.buffers@[j]).fits(before.config)
                        &&& self.buffers@[j]@ == BufferView::empty(before.buffers@[j].thread)
                    },
        {
            let ghost waiting = EventView::all(events@);
            let ghost drained = self.buffers@[i as int];
            let ghost prefix = events@;
            assert(self.buffers@[i as int] == before.buffers@[i as int]);
            assert(drained.fits(before.config));
            assert(buffers[i as int] == drained@);
            drain_buffer(&mut self.buffers[i].buffer, &mut events);
            assert(self.buffers@[i as int]@ =~= BufferView::empty(drained.thread));
            assert(buffers.take(i as int + 1).drop_last() =~= buffers.take(i as int));
            assert(buffers.take(i as int + 1).last() == drained@);
            assert(self.buffers@[i as int]@ =~= BufferView::empty(drained.thread));
        }
        assert(buffers.take(len as int) =~= buffers);
        assert(self@.buffers =~= BufferView::emptied(buffers));
        assert(BufferView::threads(self@.buffers) =~= BufferView::threads(buffers));
        self.aggregator.ingest(events);
    }

    /// Whether an allocation is sampled. The number that is not given is
    /// drawn.
    fn sample(&mut self, size: usize, given: Option<Surroundings>) -> (sampled: bool)
        requires
            old(self).wf(),
        ensures
            final(self).wf(),
            final(self)@ == old(self)@.observe(size),
            match given {
                Some(given) => sampled == old(self)@.sampling.samples(size, given.number),
                None => exists|number: u64|
                    {
                        &&& old(self)@.sampling.by_chance() ==> Origin::drawn(number)
                        &&& sampled == #[trigger] old(self)@.sampling.samples(size, number)
                    },
            },
    {
        match given {
            Some(given) => self.sampling.should_sample_at(size, given.number),
            None => self.sampling.should_sample(size),
        }
    }

    /// Takes a sampled allocation among the live ones and builds its event.
    /// Native frames that are not given are captured.
    fn admit_allocation(
        &mut self,
        address: usize,
        size: usize,
        frames: Option<&[FrameMetadata]>,
        given: Option<Surroundings>,
    ) -> (event: AllocationEvent)
        requires
            old(self).wf(),
        ensures
            final(self).wf(),
            exists|native: Seq<FrameView>|
                {
                    &&& match given {
                        Some(given) => native == FrameView::all(given.native@),
                        None => old(self)@.collector.wants_native(FrameView::optional(frames))
                            ==> Origin::captured(native),
                    }
                    &&& final(self)@ == #[trigger] old(self)@.admit_allocation(
                        address,
                        size,
                        FrameView::optional(frames),
                        native,
                    )
                    &&& event@ == old(self)@.allocation_event(
                        address,
                        size,
                        FrameView::optional(frames),
                        native,
                    )
                },
    {
        let ghost python = FrameView::optional(frames);
        let stack = match given {
            Some(given) => self.stack_collector.assemble(frames, given.native),
            None => self.stack_collector.capture(frames),
        };
        let ghost native = match given {
            Some(given) => FrameView::all(given.native@),
            None => choose|native: Seq<FrameView>|
                {
                    &&& self.stack_collector@.wants_native(python) ==> Origin::captured(native)
                    &&& FrameView::all(stack@) == #[trigger] self.stack_collector@.stack_of(
                        python,
                        native,
                    )
                },
        };
        assert(FrameView::all(stack@) == self.stack_collector@.stack_of(python, native));
        let stack_id: StackId = self.stack_collector.intern(stack);
        let _ = index_insert(
            &mut self.allocation_index,
            address,
            AllocationRecord { size, stack_id },
        );
        let event = AllocationEvent::new(EventKind::Allocation).address(address).size(
            size,
        ).stack_id(stack_id);
        assert(self@ =~= old(self)@.admit_allocation(
            address,
            size,
            python,
            native,
        ));
        event
    }

    /// Prepares the event of an allocation or a deallocation.
    fn prepare_hot_event(
        &mut self,
        kind: EventKind,
        address: usize,
        size: usize,
        frames: Option<&[FrameMetadata]>,
        given: Option<Surroundings>,
    ) -> (hot: HotEvent)
        requires
            old(self).wf(),
        ensures
            final(self).wf(),
            kind is Allocation ==> exists|number: u64, native: Seq<FrameView>|
                Surroundings::agree(
                    given,
                    old(self)@.genuine(size, FrameView::optional(frames), number, native),
                    number,
                    native,
                ) && #[trigger] hot.of_allocation(
                    old(self)@,
                    final(self)@,
                    address,
                    size,
                    FrameView::optional(frames),
                    number,
                    native,
                ),
            kind is Deallocation ==> hot.of_deallocation(
                old(self)@,
                final(self)@,
                address,
                size,
            ),
            kind is Dropped ==> hot is Skipped && final(self)@ == old(self)@,
    {
        let ghost python = FrameView::optional(frames);
        match kind {
            EventKind::Allocation => {
                let sampled: bool = self.sample(size, given);
                let ghost number = match given {
                    Some(given) => given.number,
                    None => choose|number: u64|
                        {
                            &&& old(self)@.sampling.by_chance() ==> Origin::drawn(number)
                            &&& sampled == #[trigger] old(self)@.sampling.samples(size, number)
                        },
                };
                let ghost observed = self@;
                if !sampled {
                    proof {
                        let native = match given {
                            Some(given) => FrameView::all(given.native@),
                            None => Seq::empty(),
                        };
                        assert(Surroundings::agree(
                            given,
                            old(self)@.genuine(size, FrameView::optional(frames), number, native),
                            number,
                            native,
                        ));
                        assert(HotEvent::Skipped.of_allocation(
                            old(self)@,
                            self@,
                            address,
                            size,
                            python,
                            number,
                            native,
                        ));
                    }
                    return HotEvent::Skipped;
                }
                let event = self.admit_allocation(address, size, frames, given);
                proof {
                    let native = choose|native: Seq<FrameView>|
                        {
                            &&& match given {
                                Some(given) => native == FrameView::all(given.native@),
                                None => observed.collector.wants_native(python)
                                    ==> Origin::captured(native),
                            }
                            &&& self@ == #[trigger] observed.admit_allocation(
                                address,
                                size,
                                python,
                                native,
                            )
                            &&& event@ == observed.allocation_event(address, size, python, native)
                        };
                    assert(Surroundings::agree(
                        given,
                        old(self)@.genuine(size, FrameView::optional(frames), number, native),
                        number,
                        native,
                    ));
                    assert(HotEvent::Sampled(event).of_allocation(
                        old(self)@,
                        self@,
                        address,
                        size,
                        python,
                        number,
                        native,
                    ));
                }
                HotEvent::Sampled(event)
            },
            EventKind::Deallocation => {
                match index_remove(&mut self.allocation_index, address) {
                    None => {
                        assert(self@ =~= old(self)@);
                        if self.sampling.is_enabled() {
                            HotEvent::Skipped
                        } else {
                            HotEvent::Missing
                        }
                    },
                    Some(record) => {
                        let size: usize = if size == 0 {
                            record.size
                        } else {
                            size
                        };
                        let event = AllocationEvent::new(kind).address(address).size(size).stack_id(
                            record.stack_id,
                        );
                        assert(self@ =~= old(self)@.release(address));
                        HotEvent::Sampled(event)
                    },
                }
            },
            EventKind::Dropped { count: _ } => HotEvent::Skipped,
        }
    }

    /// Prepares the events of a reallocation.
    fn prepare_reallocation(
        &mut self,
        old_address: usize,
        old_size: usize,
        new_address: usize,
        new_size: usize,
        frames: Option<&[FrameMetadata]>,
        given: Option<Surroundings>,
    ) -> (prepared: PreparedReallocation)
        requires
            old(self).wf(),
        ensures
            final(self).wf(),
            exists|number: u64, native: Seq<FrameView>|
                Surroundings::agree(
                    given,
                    old(self)@.genuine_move(
                        old_address,
                        new_size,
                        FrameView::optional(frames),
                        number,
                        native,
                    ),
                    number,
                    native,
                ) && #[trigger] prepared.of_reallocation(
                    old(self)@,
                    final(self)@,
                    old_address,
                    old_size,
                    new_address,
                    new_size,
                    FrameView::optional(frames),
                    number,
                    native,
                ),
    {
        let ghost python = FrameView::optional(frames);
        let ghost any_number = match given {
            Some(given) => given.number,
            None => 0,
        };
        let ghost any_native = match given {
            Some(given) => FrameView::all(given.native@),
            None => Seq::empty(),
        };
        let record = match index_remove(&mut self.allocation_index, old_address) {
            None => {
                assert(self@ =~= old(self)@);
                let prepared = if self.sampling.is_enabled() {
                    PreparedReallocation::Skipped
                } else {
                    PreparedReallocation::Missing
                };
                assert(Surroundings::agree(
                    given,
                    old(self)@.genuine_move(
                        old_address,
                        new_size,
                        FrameView::optional(frames),
                        any_number,
                        any_native,
                    ),
                    any_number,
                    any_native,
                ));
                assert(prepared.of_reallocation(
                    old(self)@,
                    self@,
                    old_address,
                    old_size,
                    new_address,
                    new_size,
                    python,
                    any_number,
                    any_native,
                ));
                return prepared;
            },
            Some(record) => record,
        };
        let recorded_old_size: usize = if old_size == 0 {
            record.size
        } else {
            old_size
        };
        let deallocation = AllocationEvent::new(EventKind::Deallocation).address(old_address).size(
            recorded_old_size,
        ).stack_id(record.stack_id);
        let ghost released = old(self)@.release(old_address);
        assert(self@ =~= released);
        if new_size == 0 {
            let prepared = PreparedReallocation::Events { allocation: None, deallocation };
            assert(Surroundings::agree(
                given,
                old(self)@.genuine_move(
                    old_address,
                    new_size,
                    FrameView::optional(frames),
                    any_number,
                    any_native,
                ),
                any_number,
                any_native,
            ));
            assert(prepared.of_reallocation(
                old(self)@,
                self@,
                old_address,
                old_size,
                new_address,
                new_size,
                python,
                any_number,
                any_native,
            ));
            return prepared;
        }
        let sampled: bool = self.sample(new_size, given);
        let ghost number = match given {
            Some(given) => given.number,
            None => choose|number: u64|
                {
                    &&& old(self)@.sampling.by_chance() ==> Origin::drawn(number)
                    &&& sampled == #[trigger] old(self)@.sampling.samples(new_size, number)
                },
        };
        let ghost observed = self@;
        if !sampled {
            let prepared = PreparedReallocation::Events { allocation: None, deallocation };
            proof {
                assert(Surroundings::agree(
                    given,
                    old(self)@.genuine_move(
                        old_address,
                        new_size,
                        FrameView::optional(frames),
                        number,
                        any_native,
                    ),
                    number,
                    any_native,
                ));
                assert(prepared.of_reallocation(
                    old(self)@,
                    self@,
                    old_address,
                    old_size,
                    new_address,
                    new_size,
                    python,
                    number,
                    any_native,
                ));
            }
            return prepared;
        }
        let allocation = self.admit_allocation(new_address, new_size, frames, given);
        let prepared = PreparedReallocation::Events { allocation: Some(allocation), deallocation };
        proof {
            let native = choose|native: Seq<FrameView>|
                {
                    &&& match given {
                        Some(given) => native == FrameView::all(given.native@),
                        None => observed.collector.wants_native(python) ==> Origin::captured(
                            native,
                        ),
                    }
                    &&& self@ == #[trigger] observed.admit_allocation(
                        new_address,
                        new_size,
                        python,
                        native,
                    )
                    &&& allocation@ == observed.allocation_event(
                        new_address,
                        new_size,
                        python,
                        native,
                    )
                };
            assert(Surroundings::agree(
                given,
                old(self)@.genuine_move(
                    old_address,
                    new_size,
                    FrameView::optional(frames),
                    number,
                    native,
                ),
                number,
                native,
            ));
            assert(prepared.of_reallocation(
                old(self)@,
                self@,
                old_address,
                old_size,
                new_address,
                new_size,
                python,
                number,
                native,
            ));
        }
        prepared
    }

    fn record_hot_event(
        &mut self,
        kind: EventKind,
        address: usize,
        size: usize,
        frames: Option<&[FrameMetadata]>,
        given: Option<Surroundings>,
    )
        requires
            old(self).wf(),
            !(kind is Dropped),
        ensures
            final(self).wf(),
            kind is Allocation ==> exists|number: u64, native: Seq<FrameView>|
                Surroundings::agree(
                    given,
                    old(self)@.enabled ==> old(self)@.genuine(
                        size,
                        FrameView::optional(frames),
                        number,
                        native,
                    ),
                    number,
                    native,
                ) && final(self)@
                    == #[trigger] old(self)@.allocation(
                    address,
                    size,
                    FrameView::optional(frames),
                    number,
                    native,
                ),
            kind is Deallocation ==> final(self)@ == old(self)@.deallocation(address, size),
    {
        if !self.enabled {
            proof {
                let number = match given {
                    Some(given) => given.number,
                    None => 0,
                };
                let native = match given {
                    Some(given) => FrameView::all(given.native@),
                    None => Seq::empty(),
                };
                assert(Surroundings::agree(
                    given,
                    old(self)@.enabled ==> old(self)@.genuine(
                        size,
                        FrameView::optional(frames),
                        number,
                        native,
                    ),
                    number,
                    native,
                ));
                assert(old(self)@.allocation(
                    address,
                    size,
                    FrameView::optional(frames),
                    number,
                    native,
                ) == self@);
            }
            return;
        }
        let hot = self.prepare_hot_event(kind, address, size, frames, given);
        let ghost prepared = self@;
        match hot {
            HotEvent::Sampled(event) => self.enqueue_event(event),
            HotEvent::Skipped => {},
            HotEvent::Missing => self.record_dropped_event(1),
        }
        proof {
            let python = FrameView::optional(frames);
            if kind is Allocation {
                let (number, native) = choose|number: u64, native: Seq<FrameView>|
                    Surroundings::agree(
                        given,
                        old(self)@.genuine(size, FrameView::optional(frames), number, native),
                        number,
                        native,
                    ) && #[trigger] hot.of_allocation(
                        old(self)@,
                        prepared,
                        address,
                        size,
                        python,
                        number,
                        native,
                    );
                assert(self@ == old(self)@.allocation(address, size, python, number, native));
            }
        }
    }

    fn record_dropped_event(&mut self, count: u64)
        requires
            old(self).wf(),
        ensures
            final(self).wf(),
            final(self)@ == old(self)@.enqueue(EventView::blank(EventKind::Dropped { count })),
    {
        self.enqueue_event(AllocationEvent::from(EventKind::Dropped { count }));
    }

    fn record_any_reallocation(
        &mut self,
        old_address: usize,
        old_size: usize,
        new_address: usize,
        new_size: usize,
        frames: Option<&[FrameMetadata]>,
        given: Option<Surroundings>,
    )
        requires
            old(self).wf(),
        ensures
            final(self).wf(),
            exists|number: u64, native: Seq<FrameView>|
                Surroundings::agree(
                    given,
                    old(self)@.enabled ==> old(self)@.genuine_move(
                        old_address,
                        new_size,
                        FrameView::optional(frames),
                        number,
                        native,
                    ),
                    number,
                    native,
                ) && final(self)@
                    == #[trigger] old(self)@.reallocation(
                    old_address,
                    old_size,
                    new_address,
                    new_size,
                    FrameView::optional(frames),
                    number,
                    native,
                ),
    {
        if !self.enabled {
            proof {
                let number = match given {
                    Some(given) => given.number,
                    None => 0,
                };
                let native = match given {
                    Some(given) => FrameView::all(given.native@),
                    None => Seq::empty(),
                };
                assert(Surroundings::agree(
                    given,
                    old(self)@.enabled ==> old(self)@.genuine_move(
                        old_address,
                        new_size,
                        FrameView::optional(frames),
                        number,
                        native,
                    ),
                    number,
                    native,
                ));
                assert(old(self)@.reallocation(
                    old_address,
                    old_size,
                    new_address,
                    new_size,
                    FrameView::optional(frames),
                    number,
                    native,
                ) == self@);
            }
            return;
        }
        let prepared = self.prepare_reallocation(
            old_address,
            old_size,
            new_address,
            new_size,
            frames,
            given,
        );
        let ghost after = self@;
        match prepared {
            PreparedReallocation::Events { allocation, deallocation } => {
                self.enqueue_event(deallocation);
                if let Some(event) = allocation {
                    self.enqueue_event(event);
                }
            },
            PreparedReallocation::Skipped => {},
            PreparedReallocation::Missing => self.record_dropped_event(2),
        }
        proof {
            let python = FrameView::optional(frames);
            let (number, native) = choose|number: u64, native: Seq<FrameView>|
                Surroundings::agree(
                    given,
                    old(self)@.genuine_move(
                        old_address,
                        new_size,
                        FrameView::optional(frames),
                        number,
                        native,
                    ),
                    number,
                    native,
                ) && #[trigger] prepared.of_reallocation(
                    old(self)@,
                    after,
                    old_address,
                    old_size,
                    new_address,
                    new_size,
                    python,
                    number,
                    native,
                );
            assert(self@ == old(self)@.reallocation(
                old_address,
                old_size,
                new_address,
                new_size,
                python,
                number,
                native,
            ));
        }
    }

    /// A builder with the default configuration.
    #[must_use]
    pub fn builder() -> (builder: TracerBuilder)
        ensures
            builder@ == TracerConfig::initial(),
    {
        TracerBuilder::new()
    }

    #[must_use]
    pub fn config(&self) -> (config: &TracerConfig)
        ensures
            *config == self@.config,
    {
        &self.config
    }

    pub fn disable(&mut self)
        requires
            old(self).wf(),
        ensures
            final(self).wf(),
            final(self)@ == (TracerView { enabled: false, ..old(self)@ }),
    {
        self.enabled = false;
    }

    pub fn enable(&mut self)
        requires
            old(self).wf(),
        ensures
            final(self).wf(),
            final(self)@ == (TracerView { enabled: true, ..old(self)@ }),
    {
        self.enabled = true;
    }

    #[must_use]
    pub fn enabled(&self) -> (enabled: bool)
        ensures
            enabled == self@.enabled,
    {
        self.enabled
    }

    /// A tracer with the default configuration.
    #[must_use]
    pub fn new() -> (tracer: Self)
        ensures
            tracer.wf(),
            tracer@ == TracerView::initial(TracerConfig::initial()),
    {
        Self::with_config(TracerConfig::default())
    }

    /// Captures the current stack trace and records an allocation event keyed
    /// by the interned stack identifier.
    pub fn record_allocation(&mut self, address: usize, size: usize)
        requires
            old(self).wf(),
        ensures
            final(self).wf(),
            exists|number: u64, native: Seq<FrameView>|
                (old(self)@.enabled ==> old(self)@.genuine(size, None, number, native))
                    && final(self)@ == #[trigger] old(self)@.allocation(
                    address,
                    size,
                    None,
                    number,
                    native,
                ),
    {
        self.record_hot_event(EventKind::Allocation, address, size, None, None);
    }

    /// Variant of `record_allocation` that uses Python-provided frames when
    /// available. This is intended to be called from the `CPython` allocator
    /// hooks once they have captured the interpreter stack.
    pub fn record_allocation_with_frames(
        &mut self,
        address: usize,
        size: usize,
        frames: &[FrameMetadata],
    )
        requires
            old(self).wf(),
        ensures
            final(self).wf(),
            exists|number: u64, native: Seq<FrameView>|
                (old(self)@.enabled ==> old(self)@.genuine(
                    size,
                    Some(FrameView::all(frames@)),
                    number,
                    native,
                )) && final(self)@ == #[trigger] old(self)@.allocation(
                    address,
                    size,
                    Some(FrameView::all(frames@)),
                    number,
                    native,
                ),
    {
        self.record_hot_event(EventKind::Allocation, address, size, Some(frames), None);
    }

    /// Records an allocation in given surroundings, in place of drawing a
    /// number and walking up the native stack.
    pub fn record_allocation_in(
        &mut self,
        address: usize,
        size: usize,
        frames: Option<&[FrameMetadata]>,
        surroundings: Surroundings,
    )
        requires
            old(self).wf(),
        ensures
            final(self).wf(),
            final(self)@ == old(self)@.allocation(
                address,
                size,
                FrameView::optional(frames),
                surroundings.number,
                FrameView::all(surroundings.native@),
            ),
    {
        self.record_hot_event(EventKind::Allocation, address, size, frames, Some(surroundings));
    }

    /// Updates the statistics for a released allocation, using the stack
    /// identifier recorded for it.
    pub fn record_deallocation(&mut self, address: usize, size: usize)
        requires
            old(self).wf(),
        ensures
            final(self).wf(),
            final(self)@ == old(self)@.deallocation(address, size),
    {
        self.record_hot_event(EventKind::Deallocation, address, size, None, None);
    }

    /// Deallocation variant that is handed Python frames. A deallocation is
    /// attributed to the stack of its allocation, so they make no difference.
    pub fn record_deallocation_with_frames(
        &mut self,
        address: usize,
        size: usize,
        frames: &[FrameMetadata],
    )
        requires
            old(self).wf(),
        ensures
            final(self).wf(),
            final(self)@ == old(self)@.deallocation(address, size),
    {
        self.record_hot_event(EventKind::Deallocation, address, size, Some(frames), None);
    }

    /// Feeds a pre-built event directly into the buffer of the current thread.
    pub fn record_event(&mut self, event: AllocationEvent)
        requires
            old(self).wf(),
        ensures
            final(self).wf(),
            final(self)@ == old(self)@.recorded(event@),
    {
        if !self.enabled {
            return;
        }
        self.enqueue_event(event);
    }

    /// Updates the statistics for a reallocation (`PyMem_Realloc` style).
    ///
    /// Generates both a deallocation for the old pointer and an allocation for
    /// the new pointer. Callers should supply the old allocation size when
    /// available; otherwise the tracer falls back to the previously recorded
    /// size.
    pub fn record_reallocation(
        &mut self,
        old_address: usize,
        old_size: usize,
        new_address: usize,
        new_size: usize,
    )
        requires
            old(self).wf(),
        ensures
            final(self).wf(),
            exists|number: u64, native: Seq<FrameView>|
                (old(self)@.enabled ==> old(self)@.genuine_move(
                    old_address,
                    new_size,
                    None,
                    number,
                    native,
                )) && final(self)@ == #[trigger] old(self)@.reallocation(
                    old_address,
                    old_size,
                    new_address,
                    new_size,
                    None,
                    number,
                    native,
                ),
    {
        self.record_any_reallocation(old_address, old_size, new_address, new_size, None, None);
    }

    /// Reallocation helper with Python frame metadata supplied by the caller.
    pub fn record_reallocation_with_frames(
        &mut self,
        old_address: usize,
        old_size: usize,
        new_address: usize,
        new_size: usize,
        frames: &[FrameMetadata],
    )
        requires
            old(self).wf(),
        ensures
            final(self).wf(),
            exists|number: u64, native: Seq<FrameView>|
                (old(self)@.enabled ==> old(self)@.genuine_move(
                    old_address,
                    new_size,
                    Some(FrameView::all(frames@)),
                    number,
                    native,
                )) && final(self)@ == #[trigger] old(self)@.reallocation(
                    old_address,
                    old_size,
                    new_address,
                    new_size,
                    Some(FrameView::all(frames@)),
                    number,
                    native,
                ),
    {
        self.record_any_reallocation(
            old_address,
            old_size,
            new_address,
            new_size,
            Some(frames),
            None,
        );
    }

    /// Records a reallocation in given surroundings, in place of drawing a
    /// number and walking up the native stack.
    pub fn record_reallocation_in(
        &mut self,
        old_address: usize,
        old_size: usize,
        new_address: usize,
        new_size: usize,
        frames: Option<&[FrameMetadata]>,
        surroundings: Surroundings,
    )
        requires
            old(self).wf(),
        ensures
            final(self).wf(),
            final(self)@ == old(self)@.reallocation(
                old_address,
                old_size,
                new_address,
                new_size,
                FrameView::optional(frames),
                surroundings.number,
                FrameView::all(surroundings.native@),
            ),
    {
        self.record_any_reallocation(
            old_address,
            old_size,
            new_address,
            new_size,
            frames,
            Some(surroundings),
        );
    }

    /// Forgets all that was traced.
    pub fn reset(&mut self)
        requires
            old(self).wf(),
        ensures
            final(self).wf(),
            final(self)@ == old(self)@.reset(),
    {
        self.drain_buffers();
        self.aggregator.reset();
        index_clear(&mut self.allocation_index);
        assert(self@ =~= old(self)@.reset());
    }

    /// Produce a point-in-time snapshot of the aggregated allocations.
    #[must_use]
    pub fn snapshot(&mut self) -> (snapshot: Snapshot)
        requires
            old(self).wf(),
        ensures
            final(self).wf(),
            final(self)@ == old(self)@.drain(),
            final(self)@.aggregator.shown_by(snapshot@, old(self)@.collector.table.stacks),
    {
        self.drain_buffers();
        self.aggregator.snapshot_with_stacks(self.stack_collector.stack_table())
    }

    /// The table through which stacks are interned.
    #[must_use]
    pub fn stack_table(&mut self) -> (table: &mut StackTable)
        requires
            old(self).wf(),
        ensures
            table.wf(),
            table@ == old(self)@.collector.table,
            final(table).wf() ==> final(self).wf(),
            final(self)@ == (TracerView {
                collector: CollectorView { table: final(table)@, ..old(self)@.collector },
                ..old(self)@
            }),
    {
        self.stack_collector.stack_table_mut()
    }

    /// Records on behalf of another thread from now on.
    pub fn switch_thread(&mut self, thread: u64)
        requires
            old(self).wf(),
        ensures
            final(self).wf(),
            final(self)@ == (TracerView {
                collector: CollectorView { thread, ..old(self)@.collector },
                ..old(self)@
            }),
    {
        self.stack_collector.switch_thread(thread);
    }

    /// Forgets a thread that has ended, with the stacks that it remembers. The
    /// events that still wait in its buffer go into the aggregator.
    pub fn forget_thread(&mut self, thread: u64)
        requires
            old(self).wf(),
        ensures
            final(self).wf(),
            final(self)@ == old(self)@.forget_thread(thread),
    {
        let ghost threads = BufferView::threads(self@.buffers);
        let ghost before = *self;
        self.stack_collector.forget_thread(thread);
        let len: usize = self.buffers.len();
        for i in 0..len
            invariant
                len == before.buffers@.len(),
                before.wf(),
                before == *old(self),
                *self == (Tracer { stack_collector: self.stack_collector, ..before }),
                self.stack_collector.wf(),
                self.stack_collector@ == (CollectorView {
                    caches: before@.collector.caches.remove(thread),
                    ..before@.collector
                }),
                threads == BufferView::threads(before@.buffers),
                forall|j: int| 0 <= j < i ==> threads[j] != thread,
        {
            assert(threads[i as int] == self.buffers@[i as int].thread);
            if self.buffers[i].thread == thread {
                let ended = self.buffers.remove(i);
                let ghost waiting = ended@;
                assert(before.buffers@[i as int].fits(before.config));
                assert(waiting == before@.buffers[i as int]);
                let mut buffer = ended.buffer;
                let mut events: Vec<AllocationEvent> = Vec::new();
                drain_buffer(&mut buffer, &mut events);
                assert(EventView::all(events@) =~= waiting.output());
                self.aggregator.ingest(events);
                proof {
                    Numbering::lemma_place(threads, i as int);
                    assert(self@.buffers =~= before@.buffers.remove(i as int));
                    assert(BufferView::threads(self@.buffers) =~= threads.remove(i as int));
                    assert forall|j: int| 0 <= j < self.buffers@.len() implies (
                    #[trigger] self.buffers@[j]).fits(self.config) by {
                        assert(self.buffers@[j] == before.buffers@[if j < i {
                            j
                        } else {
                            j + 1
                        }]);
                    }
                }
                return;
            }
        }
        assert(!threads.contains(thread));
    }

    /// Whether the worker is to be woken because a drain has been asked for
    /// since the last call.
    pub fn take_wakeup(&mut self) -> (wake: bool)
        requires
            old(self).wf(),
        ensures
            final(self).wf(),
            wake == old(self)@.wake,
            final(self)@ == (TracerView { wake: false, ..old(self)@ }),
    {
        let wake: bool = self.wake;
        self.wake = false;
        wake
    }

    /// One turn of the worker: drains the buffers and decides what comes next.
    pub fn worker_turn(&mut self) -> (action: WorkerAction)
        requires
            old(self).wf(),
        ensures
            final(self).wf(),
            old(self)@.stopped ==> action == WorkerAction::Exit && final(self)@
                == old(self)@.drain(),
            !old(self)@.stopped ==> {
                &&& final(self)@ == (TracerView { pending_flush: false, ..old(self)@.drain() })
                &&& action == (if old(self)@.pending_flush {
                    WorkerAction::Continue
                } else {
                    WorkerAction::Wait
                })
            },
    {
        self.drain_buffers();
        if self.stop_flag {
            return WorkerAction::Exit;
        }
        if self.pending_flush {
            self.pending_flush = false;
            WorkerAction::Continue
        } else {
            WorkerAction::Wait
        }
    }

    /// Asks the worker to stop. Returns whether this is the first time.
    pub fn request_shutdown(&mut self) -> (first: bool)
        requires
            old(self).wf(),
        ensures
            final(self).wf(),
            first == !old(self)@.stopped,
            final(self)@ == (TracerView { stopped: true, ..old(self)@ }),
    {
        let first: bool = !self.stop_flag;
        self.stop_flag = true;
        first
    }

    /// A tracer with the given configuration.
    #[must_use]
    pub fn with_config(config: TracerConfig) -> (tracer: Self)
        requires
            ThreadBuffer::addressable(config.ring_buffer_bytes),
        ensures
            tracer.wf(),
            tracer@ == TracerView::initial(config),
    {
        let tracer = Tracer {
            aggregator: Aggregator::new(),
            allocation_index: index_new(),
            buffers: Vec::new(),
            config,
            enabled: config.start_enabled,
            pending_flush: false,
            wake: false,
            sampling: SamplingState::new(&config),
            stack_collector: StackCollector::new(StackTable::new(), &config),
            stop_flag: false,
        };
        assert(tracer@ =~= TracerView::initial(config));
        tracer
    }
}

impl Default for Tracer {
    fn default() -> (tracer: Self)
        ensures
            tracer.wf(),
            tracer@ == TracerView::initial(TracerConfig::initial()),
    {
        Tracer::new()
    }
}

/// Thin builder that customizes `TracerConfig` without exposing all knobs up front.
#[derive(Debug)]
pub struct TracerBuilder {
    config: TracerConfig,
}

impl View for TracerBuilder {
    type V = TracerConfig;

    closed spec fn view(&self) -> TracerConfig {
        self.config
    }
}

impl Default for TracerBuilder {
    fn default() -> (builder: Self)
        ensures
            builder@ == TracerConfig::initial(),
    {
        TracerBuilder::new()
    }
}

impl TracerBuilder {
    #[must_use]
    pub fn capture_native(self, capture: bool) -> (builder: Self)
        ensures
            builder@ == (TracerConfig { capture_native: capture, ..self@ }),
    {
        TracerBuilder { config: TracerConfig { capture_native: capture, ..self.config } }
    }

    /// Whether the memory of the buffers can be addressed.
    #[must_use]
    pub fn fits(&self) -> (fits: bool)
        ensures
            fits == ThreadBuffer::addressable(self@.ring_buffer_bytes),
    {
        ThreadBuffer::fits(&self.config)
    }

    /// The tracer that the builder describes.
    #[must_use]
    pub fn finish(self) -> (tracer: Tracer)
        requires
            ThreadBuffer::addressable(self@.ring_buffer_bytes),
        ensures
            tracer.wf(),
            tracer@ == TracerView::initial(self@),
    {
        Tracer::with_config(self.config)
    }

    #[must_use]
    pub fn max_stack_depth(self, depth: u16) -> (builder: Self)
        ensures
            builder@ == (TracerConfig { max_stack_depth: depth, ..self@ }),
    {
        TracerBuilder { config: TracerConfig { max_stack_depth: depth, ..self.config } }
    }

    #[must_use]
    pub fn native_skip_frames(self, skip: usize) -> (builder: Self)
        ensures
            builder@ == (TracerConfig { native_skip_frames: skip, ..self@ }),
    {
        TracerBuilder { config: TracerConfig { native_skip_frames: skip, ..self.config } }
    }

    #[must_use]
    pub fn new() -> (builder: Self)
        ensures
            builder@ == TracerConfig::initial(),
    {
        TracerBuilder { config: TracerConfig::default() }
    }

    #[must_use]
    pub fn python_skip_frames(self, skip: usize) -> (builder: Self)
        ensures
            builder@ == (TracerConfig { python_skip_frames: skip, ..self@ }),
    {
        TracerBuilder { config: TracerConfig { python_skip_frames: skip, ..self.config } }
    }

    /// The size of the buffers, which is at least one byte.
    #[must_use]
    pub fn ring_buffer_bytes(self, bytes: usize) -> (builder: Self)
        ensures
            builder@ == (TracerConfig {
                ring_buffer_bytes: if bytes == 0 {
                    1
                } else {
                    bytes
                },
                ..self@
            }),
    {
        let ring_buffer_bytes: usize = if bytes == 0 {
            1
        } else {
            bytes
        };
        TracerBuilder { config: TracerConfig { ring_buffer_bytes, ..self.config } }
    }

    #[must_use]
    pub fn sampling_bytes(self, bytes: Option<u64>) -> (builder: Self)
        ensures
            builder@ == (TracerConfig { sampling_bytes: bytes, ..self@ }),
    {
        TracerBuilder { config: TracerConfig { sampling_bytes: bytes, ..self.config } }
    }

    /// The sampling rate, which is at most one.
    #[must_use]
    pub fn sampling_rate(self, rate: u64) -> (builder: Self)
        ensures
            builder@ == (TracerConfig {
                sampling_rate: if rate > SAMPLING_RATE_ONE {
                    SAMPLING_RATE_ONE
                } else {
                    rate
                },
                ..self@
            }),
    {
        let sampling_rate: u64 = if rate > SAMPLING_RATE_ONE {
            SAMPLING_RATE_ONE
        } else {
            rate
        };
        TracerBuilder { config: TracerConfig { sampling_rate, ..self.config } }
    }

    #[must_use]
    pub fn start_enabled(self, enabled: bool) -> (builder: Self)
        ensures
            builder@ == (TracerConfig { start_enabled: enabled, ..self@ }),
    {
        TracerBuilder { config: TracerConfig { start_enabled: enabled, ..self.config } }
    }

    #[must_use]
    pub fn with_config(self, config: TracerConfig) -> (builder: Self)
        ensures
            builder@ == config,
    {
        TracerBuilder { config }
    }
}

} // verus!
