//! What a tracer does, step by step.

use crate::aggregator::AggregatorView;
use crate::allocation_index::AllocationRecord;
use crate::config::TracerConfig;
use crate::event::{EventKind, EventView, StackId};
use crate::frames::FrameView;
use crate::key_table::Numbering;
use crate::origin::Origin;
use crate::ring_buffer::ThreadBuffer;
use crate::sampling::SamplingState;
use crate::stack::StackTableView;
use crate::stack_capture::CollectorView;
use vstd::prelude::*;

verus! {

/// The buffer of a thread.
#[verifier::ext_equal]
pub struct BufferView {
    pub thread: u64,
    /// The waiting events, oldest first.
    pub events: Seq<EventView>,
    /// How many events found no room.
    pub dropped: u64,
}

impl BufferView {
    pub open spec fn empty(thread: u64) -> Self {
        BufferView { thread, events: Seq::empty(), dropped: 0 }
    }

    /// The buffer once an event has been offered to it.
    pub open spec fn record(self, event: EventView, capacity: int) -> Self {
        if self.events.len() < capacity {
            BufferView { events: self.events.push(event), ..self }
        } else {
            BufferView { dropped: self.dropped.wrapping_add(1), ..self }
        }
    }

    /// Whether a buffer to which an event is offered asks for a drain.
    pub open spec fn asks_for_drain(self, capacity: int) -> bool {
        self.events.len() >= capacity || self.events.len() + 1 >= ThreadBuffer::threshold_of(
            capacity,
        )
    }

    /// What comes out of a buffer: the waiting events and, where events found
    /// no room, one that says how many.
    pub open spec fn output(self) -> Seq<EventView> {
        if self.dropped > 0 {
            self.events.push(EventView::blank(EventKind::Dropped { count: self.dropped }))
        } else {
            self.events
        }
    }

    /// What comes out of all buffers, one after the other.
    pub open spec fn output_of_all(buffers: Seq<BufferView>) -> Seq<EventView>
        decreases buffers.len(),
    {
        if buffers.len() == 0 {
            Seq::empty()
        } else {
            Self::output_of_all(buffers.drop_last()) + buffers.last().output()
        }
    }

    /// The buffers once all has come out of them.
    pub open spec fn emptied(buffers: Seq<BufferView>) -> Seq<BufferView> {
        buffers.map_values(|buffer: BufferView| BufferView::empty(buffer.thread))
    }

    /// The threads that have a buffer.
    pub open spec fn threads(buffers: Seq<BufferView>) -> Seq<u64> {
        buffers.map_values(|buffer: BufferView| buffer.thread)
    }
}

/// The state of a tracer.
#[verifier::ext_equal]
pub struct TracerView {
    pub aggregator: AggregatorView,
    /// The live allocations that were sampled, by address.
    pub live: Map<usize, AllocationRecord>,
    /// The buffers of the threads, in the order of their first events.
    pub buffers: Seq<BufferView>,
    pub config: TracerConfig,
    pub enabled: bool,
    /// Whether a drain has been asked for.
    pub pending_flush: bool,
    /// Whether the worker is to be woken.
    pub wake: bool,
    pub sampling: SamplingState,
    pub collector: CollectorView,
    /// Whether the worker is to stop.
    pub stopped: bool,
}

impl TracerView {
    /// The tracer that a configuration asks for.
    pub open spec fn initial(config: TracerConfig) -> Self {
        TracerView {
            aggregator: AggregatorView::initial(),
            live: Map::empty(),
            buffers: Seq::empty(),
            config,
            enabled: config.start_enabled,
            pending_flush: false,
            wake: false,
            sampling: SamplingState::initial(config),
            collector: CollectorView::initial(StackTableView::initial(), config),
            stopped: false,
        }
    }

    /// How many events a buffer holds.
    pub open spec fn capacity(self) -> int {
        ThreadBuffer::slots_in(self.config.ring_buffer_bytes)
    }

    /// Where the buffer of the current thread stands, or will stand.
    pub open spec fn position(self) -> int {
        Numbering::place(BufferView::threads(self.buffers), self.collector.thread)
    }

    /// The buffers, with one for the current thread.
    pub open spec fn buffers_with_current(self) -> Seq<BufferView> {
        if BufferView::threads(self.buffers).contains(self.collector.thread) {
            self.buffers
        } else {
            self.buffers.push(BufferView::empty(self.collector.thread))
        }
    }

    /// The tracer once a drain has been asked for. The worker is woken the
    /// first time only.
    pub open spec fn notify_flush(self) -> Self {
        TracerView { pending_flush: true, wake: self.wake || !self.pending_flush, ..self }
    }

    /// The tracer once the current thread has recorded an event.
    pub open spec fn enqueue(self, event: EventView) -> Self {
        let buffers = self.buffers_with_current();
        let buffer = buffers[self.position()];
        let after = TracerView {
            buffers: buffers.update(self.position(), buffer.record(event, self.capacity())),
            ..self
        };
        if buffer.asks_for_drain(self.capacity()) {
            after.notify_flush()
        } else {
            after
        }
    }

    /// The tracer once the buffers are drained into the aggregator.
    pub open spec fn drain(self) -> Self {
        TracerView {
            aggregator: self.aggregator.see_all(BufferView::output_of_all(self.buffers)),
            buffers: BufferView::emptied(self.buffers),
            ..self
        }
    }

    /// The event of an allocation or a deallocation.
    pub open spec fn event(
        kind: EventKind,
        address: usize,
        size: usize,
        stack_id: StackId,
    ) -> EventView {
        EventView { kind, address, size, stack_id }
    }

    /// The tracer once it knows of a new live allocation, whose stack is made
    /// of Python frames and a native stack.
    pub open spec fn admit_allocation(
        self,
        address: usize,
        size: usize,
        python: Option<Seq<FrameView>>,
        native: Seq<FrameView>,
    ) -> Self {
        let frames = self.collector.stack_of(python, native);
        TracerView {
            live: self.live.insert(
                address,
                AllocationRecord { size, stack_id: self.collector.id_of(frames) },
            ),
            collector: self.collector.intern(frames),
            ..self
        }
    }

    /// The event of a new live allocation.
    pub open spec fn allocation_event(
        self,
        address: usize,
        size: usize,
        python: Option<Seq<FrameView>>,
        native: Seq<FrameView>,
    ) -> EventView {
        Self::event(
            EventKind::Allocation,
            address,
            size,
            self.collector.id_of(self.collector.stack_of(python, native)),
        )
    }

    /// The tracer once it has decided whether to sample an allocation.
    pub open spec fn observe(self, size: usize) -> Self {
        TracerView { sampling: self.sampling.observe(size), ..self }
    }

    /// Whether the number was drawn and the native stack captured, as far as
    /// an allocation needs either.
    pub open spec fn genuine(
        self,
        size: usize,
        python: Option<Seq<FrameView>>,
        number: u64,
        native: Seq<FrameView>,
    ) -> bool {
        &&& self.sampling.by_chance() ==> Origin::drawn(number)
        &&& self.sampling.samples(size, number) && self.collector.wants_native(python)
            ==> Origin::captured(native)
    }

    /// The same for the new allocation of a reallocation.
    pub open spec fn genuine_move(
        self,
        old_address: usize,
        new_size: usize,
        python: Option<Seq<FrameView>>,
        number: u64,
        native: Seq<FrameView>,
    ) -> bool {
        self.live.contains_key(old_address) && 0 < new_size ==> self.genuine(
            new_size,
            python,
            number,
            native,
        )
    }

    /// The tracer after an allocation, given the number that is drawn and the
    /// native stack of the thread.
    pub open spec fn allocation(
        self,
        address: usize,
        size: usize,
        python: Option<Seq<FrameView>>,
        number: u64,
        native: Seq<FrameView>,
    ) -> Self {
        if !self.enabled {
            self
        } else if !self.sampling.samples(size, number) {
            self.observe(size)
        } else {
            self.observe(size).admit_allocation(address, size, python, native).enqueue(
                self.allocation_event(address, size, python, native),
            )
        }
    }

    /// The tracer once it no longer holds an allocation for live.
    pub open spec fn release(self, address: usize) -> Self {
        TracerView { live: self.live.remove(address), ..self }
    }

    /// The event that ends a live allocation. A size of zero stands for the
    /// size that was recorded.
    pub open spec fn deallocation_event(self, address: usize, size: usize) -> EventView {
        Self::event(
            EventKind::Deallocation,
            address,
            if size == 0 {
                self.live[address].size
            } else {
                size
            },
            self.live[address].stack_id,
        )
    }

    /// The tracer after something was done to an allocation that it does not
    /// know: events are missing, unless the allocation may not have been
    /// sampled.
    pub open spec fn unknown_allocation(self, missing: u64) -> Self {
        if self.sampling.enabled() {
            self
        } else {
            self.enqueue(EventView::blank(EventKind::Dropped { count: missing }))
        }
    }

    /// The tracer after a deallocation.
    pub open spec fn deallocation(self, address: usize, size: usize) -> Self {
        if !self.enabled {
            self
        } else if !self.live.contains_key(address) {
            self.unknown_allocation(1)
        } else {
            self.release(address).enqueue(self.deallocation_event(address, size))
        }
    }

    /// The tracer after a reallocation, given the number that is drawn and the
    /// native stack of the thread.
    pub open spec fn reallocation(
        self,
        old_address: usize,
        old_size: usize,
        new_address: usize,
        new_size: usize,
        python: Option<Seq<FrameView>>,
        number: u64,
        native: Seq<FrameView>,
    ) -> Self {
        if !self.enabled {
            self
        } else if !self.live.contains_key(old_address) {
            self.unknown_allocation(2)
        } else {
            let released = self.release(old_address);
            let freed = self.deallocation_event(old_address, old_size);
            if new_size == 0 {
                released.enqueue(freed)
            } else if !self.sampling.samples(new_size, number) {
                released.observe(new_size).enqueue(freed)
            } else {
                released.observe(new_size).admit_allocation(
                    new_address,
                    new_size,
                    python,
                    native,
                ).enqueue(freed).enqueue(
                    self.allocation_event(new_address, new_size, python, native),
                )
            }
        }
    }

    /// The tracer after an event that was built elsewhere.
    pub open spec fn recorded(self, event: EventView) -> Self {
        if self.enabled {
            self.enqueue(event)
        } else {
            self
        }
    }

    /// The tracer once a thread that has ended is forgotten: what still waits
    /// in its buffer goes into the aggregator.
    pub open spec fn forget_thread(self, thread: u64) -> Self {
        let threads = BufferView::threads(self.buffers);
        let place = Numbering::place(threads, thread);
        let collector = CollectorView {
            caches: self.collector.caches.remove(thread),
            ..self.collector
        };
        if threads.contains(thread) {
            TracerView {
                aggregator: self.aggregator.see_all(self.buffers[place].output()),
                buffers: self.buffers.remove(place),
                collector,
                ..self
            }
        } else {
            TracerView { collector, ..self }
        }
    }

    /// The tracer after all that was traced is forgotten.
    pub open spec fn reset(self) -> Self {
        TracerView { aggregator: AggregatorView::initial(), live: Map::empty(), ..self.drain() }
    }
}

} // verus!
