//! What holds of a tracer from one call to the next.

use crate::aggregator::AggregatorView;
use crate::allocation_index::AllocationRecord;
use crate::config::TracerConfig;
use crate::event::{AllocationEvent, EventKind, EventView, StackId};
use crate::frames::FrameView;
use crate::key_table::Numbering;
use crate::ring_buffer::ThreadBuffer;
use crate::sampling::{SamplingRate, SamplingState};
use crate::snapshot::SnapshotView;
use crate::stack::StackView;
use crate::tracer_view::{BufferView, TracerView};
use vstd::prelude::*;

verus! {

impl BufferView {
    /// The buffer once all the events have been offered to it, one after the
    /// other.
    pub open spec fn record_all(self, events: Seq<EventView>, capacity: int) -> Self
        decreases events.len(),
    {
        if events.len() == 0 {
            self
        } else {
            self.record_all(events.drop_last(), capacity).record(events.last(), capacity)
        }
    }

    /// A buffer keeps the first events, in order, until it is full, and counts
    /// all that come after.
    pub proof fn law_buffers_keep_the_first_events(
        thread: u64,
        events: Seq<EventView>,
        capacity: int,
    )
        requires
            0 <= capacity,
            events.len() <= capacity + u64::MAX,
        ensures
            ({
                let buffer = BufferView::empty(thread).record_all(events, capacity);
                if events.len() <= capacity {
                    buffer.events == events && buffer.dropped == 0
                } else {
                    &&& buffer.events == events.take(capacity)
                    &&& buffer.dropped == events.len() - capacity
                }
            }),
        decreases events.len(),
    {
        if events.len() > 0 {
            let rest = events.drop_last();
            Self::law_buffers_keep_the_first_events(thread, rest, capacity);
            if events.len() <= capacity {
                assert(rest.push(events.last()) =~= events);
            } else if rest.len() > capacity {
                assert(rest.take(capacity) =~= events.take(capacity));
            } else {
                assert(rest =~= events.take(capacity));
            }
        } else {
            assert(BufferView::empty(thread).events =~= events);
        }
    }

    proof fn lemma_nothing_comes_out(buffers: Seq<BufferView>)
        requires
            forall|i: int|
                0 <= i < buffers.len() ==> (#[trigger] buffers[i]).output().len() == 0,
        ensures
            Self::output_of_all(buffers) == Seq::<EventView>::empty(),
        decreases buffers.len(),
    {
        if buffers.len() > 0 {
            let rest = buffers.drop_last();
            assert forall|i: int| 0 <= i < rest.len() implies (#[trigger] rest[i]).output().len()
                == 0 by {
                assert(rest[i] == buffers[i]);
            }
            Self::lemma_nothing_comes_out(rest);
            assert(buffers[buffers.len() - 1].output().len() == 0);
        }
        assert(Self::output_of_all(buffers) =~= Seq::<EventView>::empty());
    }

    /// What comes out before an event that the buffer at the position takes
    /// next.
    spec fn output_before(buffers: Seq<BufferView>, position: int) -> Seq<EventView> {
        Self::output_of_all(buffers.take(position)) + buffers[position].events
    }

    /// What comes out after an event that the buffer at the position takes
    /// next.
    spec fn output_after(buffers: Seq<BufferView>, position: int) -> Seq<EventView>
        decreases buffers.len(),
    {
        if buffers.len() == 0 || position >= buffers.len() - 1 {
            BufferView { events: Seq::empty(), ..buffers[position] }.output()
        } else {
            Self::output_after(buffers.drop_last(), position) + buffers.last().output()
        }
    }

    proof fn lemma_output_around(buffers: Seq<BufferView>, position: int, event: EventView)
        requires
            0 <= position < buffers.len(),
        ensures
            ({
                let buffer = buffers[position];
                let changed = BufferView { events: buffer.events.push(event), ..buffer };
                let before = Self::output_before(buffers, position);
                let after = Self::output_after(buffers, position);
                &&& Self::output_of_all(buffers) == before + after
                &&& Self::output_of_all(buffers.update(position, changed)) == before.push(event)
                    + after
            }),
        decreases buffers.len(),
    {
        let rest = buffers.drop_last();
        let buffer = buffers[position];
        let changed = BufferView { events: buffer.events.push(event), ..buffer };
        let updated = buffers.update(position, changed);
        let before = Self::output_before(buffers, position);
        let after = Self::output_after(buffers, position);
        if position == buffers.len() - 1 {
            assert(buffers.take(position) =~= rest);
            assert(updated.drop_last() =~= rest);
            assert(buffer.events + after =~= buffer.output());
            assert(buffer.events.push(event) + after =~= changed.output());
            assert(Self::output_of_all(buffers) =~= before + after);
            assert(Self::output_of_all(updated) =~= before.push(event) + after);
        } else {
            Self::lemma_output_around(rest, position, event);
            assert(rest.take(position) =~= buffers.take(position));
            assert(updated.drop_last() =~= rest.update(position, changed));
            let inner = Self::output_after(rest, position);
            let last = buffers.last().output();
            assert((before + inner) + last =~= before + after);
            assert((before.push(event) + inner) + last =~= before.push(event) + after);
        }
    }

    /// Where no other buffer holds an event that counts for the stack, none
    /// comes out afterwards.
    proof fn lemma_apart_after(buffers: Seq<BufferView>, position: int, stack_id: StackId)
        requires
            0 <= position < buffers.len(),
            forall|i: int, j: int|
                0 <= i < buffers.len() && i != position && 0 <= j < buffers[i].events.len()
                    ==> !(#[trigger] buffers[i].events[j]).counts_for(stack_id),
        ensures
            forall|k: int|
                0 <= k < Self::output_after(buffers, position).len() ==> !(
                #[trigger] Self::output_after(buffers, position)[k]).counts_for(stack_id),
        decreases buffers.len(),
    {
        if position < buffers.len() - 1 {
            let rest = buffers.drop_last();
            assert forall|i: int, j: int|
                0 <= i < rest.len() && i != position && 0 <= j < rest[i].events.len() implies !(
            #[trigger] rest[i].events[j]).counts_for(stack_id) by {
                assert(rest[i] == buffers[i]);
                assert(!buffers[i].events[j].counts_for(stack_id));
            }
            Self::lemma_apart_after(rest, position, stack_id);
            let inner = Self::output_after(rest, position);
            let last = buffers[buffers.len() - 1];
            let after = Self::output_after(buffers, position);
            assert forall|k: int| 0 <= k < after.len() implies !(#[trigger] after[k]).counts_for(
                stack_id,
            ) by {
                if k < inner.len() {
                    assert(after[k] == inner[k]);
                } else {
                    let j = k - inner.len();
                    assert(after[k] == last.output()[j]);
                    if j < last.events.len() {
                        assert(last.output()[j] == last.events[j]);
                        assert(!buffers[buffers.len() - 1].events[j].counts_for(stack_id));
                    }
                }
            }
        }
    }

    /// What comes out of all buffers comes out of one of them or of the others.
    proof fn lemma_output_without(buffers: Seq<BufferView>, position: int)
        requires
            0 <= position < buffers.len(),
        ensures
            Self::output_of_all(buffers).to_multiset() == Self::output_of_all(
                buffers.remove(position),
            ).to_multiset().add(buffers[position].output().to_multiset()),
        decreases buffers.len(),
    {
        let rest = buffers.drop_last();
        let others = buffers.remove(position);
        vstd::seq_lib::lemma_multiset_commutative(
            Self::output_of_all(rest),
            buffers.last().output(),
        );
        if position == buffers.len() - 1 {
            assert(others =~= rest);
        } else {
            Self::lemma_output_without(rest, position);
            assert(others.drop_last() =~= rest.remove(position));
            assert(others.last() == buffers.last());
            vstd::seq_lib::lemma_multiset_commutative(
                Self::output_of_all(others.drop_last()),
                others.last().output(),
            );
        }
        assert(Self::output_of_all(buffers).to_multiset() =~= Self::output_of_all(
            others,
        ).to_multiset().add(buffers[position].output().to_multiset()));
    }

    /// What comes out changes with one buffer as that buffer changes.
    proof fn lemma_output_with(buffers: Seq<BufferView>, position: int, changed: BufferView)
        requires
            0 <= position < buffers.len(),
        ensures
            ({
                let before = buffers[position].output().to_multiset();
                let after = changed.output().to_multiset();
                Self::output_of_all(buffers.update(position, changed)).to_multiset().add(before)
                    == Self::output_of_all(buffers).to_multiset().add(after)
            }),
        decreases buffers.len(),
    {
        let rest = buffers.drop_last();
        let updated = buffers.update(position, changed);
        vstd::seq_lib::lemma_multiset_commutative(
            Self::output_of_all(rest),
            buffers.last().output(),
        );
        vstd::seq_lib::lemma_multiset_commutative(
            Self::output_of_all(updated.drop_last()),
            updated.last().output(),
        );
        if position == buffers.len() - 1 {
            assert(updated.drop_last() =~= rest);
        } else {
            Self::lemma_output_with(rest, position, changed);
            assert(updated.drop_last() =~= rest.update(position, changed));
        }
        let before = buffers[position].output().to_multiset();
        let after = changed.output().to_multiset();
        assert forall|event: EventView|
            Self::output_of_all(updated).to_multiset().add(before).count(event)
                == Self::output_of_all(buffers).to_multiset().add(after).count(event) by {
            if position < buffers.len() - 1 {
                assert(Self::output_of_all(rest.update(position, changed)).to_multiset().add(
                    before,
                ).count(event) == Self::output_of_all(rest).to_multiset().add(after).count(event));
            }
        }
        assert(Self::output_of_all(updated).to_multiset().add(before) =~= Self::output_of_all(
            buffers,
        ).to_multiset().add(after));
    }
}

impl EventView {
    proof fn lemma_total_of_parts(
        first: Seq<EventView>,
        second: Seq<EventView>,
        weight: spec_fn(EventView) -> nat,
    )
        ensures
            Self::total(first + second, weight) == Self::total(first, weight) + Self::total(
                second,
                weight,
            ),
        decreases second.len(),
    {
        if second.len() == 0 {
            assert(first + second =~= first);
        } else {
            Self::lemma_total_of_parts(first, second.drop_last(), weight);
            assert((first + second).drop_last() =~= first + second.drop_last());
        }
    }
}

impl TracerView {
    /// Whether every thread has at most one buffer, none holds more than fits,
    /// and the parts are in order.
    pub open spec fn wf(self) -> bool {
        &&& 0 < self.capacity()
        &&& BufferView::threads(self.buffers).no_duplicates()
        &&& forall|i: int|
            0 <= i < self.buffers.len() ==> (#[trigger] self.buffers[i]).events.len()
                <= self.capacity()
        &&& self.sampling.wf()
        &&& 0 < self.collector.max_depth
        &&& self.collector.table.wf()
    }

    /// The buffer of the current thread, or the one that it will get.
    pub open spec fn buffer(self) -> BufferView {
        self.buffers_with_current()[self.position()]
    }

    /// Whether the current thread has room for an event that makes the same
    /// difference when it is counted after all that waits: it counts for no
    /// stack, or no other thread waits with an event of its stack, or no
    /// counter of its stack comes to the end of its range either way.
    pub open spec fn takes(self, event: EventView) -> bool {
        let stack_id = event.stack_id;
        let stats = self.aggregator.stats_of(stack_id);
        &&& self.buffer().events.len() < self.capacity()
        &&& {
            ||| !event.counts_for(stack_id)
            ||| forall|i: int, j: int|
                0 <= i < self.buffers.len() && i != self.position() && 0 <= j
                    < self.buffers[i].events.len() ==> !(
                #[trigger] self.buffers[i].events[j]).counts_for(stack_id)
            ||| {
                &&& stats.counts(BufferView::output_of_all(self.enqueue(event).buffers), stack_id)
                &&& stats.counts(BufferView::output_of_all(self.buffers).push(event), stack_id)
            }
        }
    }

    /// Whether nothing waits in any buffer.
    pub open spec fn drained(self) -> bool {
        forall|i: int|
            0 <= i < self.buffers.len() ==> {
                &&& (#[trigger] self.buffers[i]).events.len() == 0
                &&& self.buffers[i].dropped == 0
            }
    }

    /// Whether the tracer is another one but for what waits in the buffers and
    /// for what the worker is told.
    pub open spec fn same_but_for_buffers(self, other: Self) -> bool {
        self == (TracerView {
            buffers: self.buffers,
            pending_flush: self.pending_flush,
            wake: self.wake,
            ..other
        })
    }

    /// The current thread has its buffer at its position, and the other
    /// buffers are those of before.
    proof fn lemma_current(self)
        requires
            self.wf(),
        ensures
            ({
                let buffers = self.buffers_with_current();
                &&& 0 <= self.position() < buffers.len()
                &&& buffers[self.position()].thread == self.collector.thread
                &&& BufferView::threads(buffers).no_duplicates()
                &&& forall|i: int|
                    0 <= i < self.buffers.len() ==> buffers[i] == #[trigger] self.buffers[i]
                &&& forall|i: int|
                    0 <= i < buffers.len() && i != self.position() ==> #[trigger] buffers[i]
                        == self.buffers[i] && i < self.buffers.len()
                &&& self.buffer().events.len() <= self.capacity()
            }),
    {
        let threads = BufferView::threads(self.buffers);
        Numbering::lemma_with(threads, self.collector.thread);
        let buffers = self.buffers_with_current();
        assert(BufferView::threads(buffers) =~= Numbering::with(threads, self.collector.thread));
        assert(BufferView::threads(buffers)[self.position()] == buffers[self.position()].thread);
        if threads.contains(self.collector.thread) {
            assert(self.buffers[self.position()].events.len() <= self.capacity());
        }
    }

    proof fn lemma_enqueue(self, event: EventView)
        requires
            self.wf(),
        ensures
            self.enqueue(event).wf(),
            self.enqueue(event).same_but_for_buffers(self),
            self.enqueue(event).position() == self.position(),
            self.enqueue(event).buffers == self.buffers_with_current().update(
                self.position(),
                self.buffer().record(event, self.capacity()),
            ),
            self.enqueue(event).buffer() == self.buffer().record(event, self.capacity()),
    {
        self.lemma_current();
        let buffers = self.buffers_with_current();
        let after = self.enqueue(event);
        let threads = BufferView::threads(buffers);
        assert(BufferView::threads(after.buffers) =~= threads);
        assert(threads[self.position()] == self.collector.thread);
        Numbering::lemma_place(threads, self.position());
        assert(threads.contains(self.collector.thread));
        assert forall|i: int| 0 <= i < after.buffers.len() implies (
        #[trigger] after.buffers[i]).events.len() <= after.capacity() by {
            if i != self.position() {
                assert(after.buffers[i] == buffers[i]);
                assert(self.buffers[i].events.len() <= self.capacity());
            }
        }
    }

    /// A new tracer is in order, and nothing waits.
    pub proof fn law_initial_tracer(config: TracerConfig)
        ensures
            Self::initial(config).wf(),
            Self::initial(config).drained(),
            Self::initial(config).collector.consistent(),
    {
        ThreadBuffer::lemma_slots(config.ring_buffer_bytes);
    }

    /// A tracer that is not enabled records nothing.
    pub proof fn law_disabled_tracers_record_nothing(
        self,
        address: usize,
        size: usize,
        new_address: usize,
        new_size: usize,
        python: Option<Seq<FrameView>>,
        number: u64,
        native: Seq<FrameView>,
        event: EventView,
    )
        requires
            !self.enabled,
        ensures
            self.allocation(address, size, python, number, native) == self,
            self.deallocation(address, size) == self,
            self.reallocation(address, size, new_address, new_size, python, number, native)
                == self,
            self.recorded(event) == self,
    {
    }

    /// Whether nothing is sampled and nothing ever was.
    pub open spec fn silent(self) -> bool {
        &&& self.sampling == SamplingState { bytes: None, rate: SamplingRate::Nothing }
        &&& self.live == Map::<usize, AllocationRecord>::empty()
    }

    /// A sampling rate of zero disables tracing.
    pub proof fn law_rate_zero_is_silent(config: TracerConfig)
        requires
            config.sampling_rate == 0,
            config.sampling_bytes is None || config.sampling_bytes == Some(0u64),
        ensures
            Self::initial(config).silent(),
    {
    }

    /// A tracer that samples nothing records nothing and misses nothing.
    pub proof fn law_silent_tracers_record_nothing(
        self,
        address: usize,
        size: usize,
        new_address: usize,
        new_size: usize,
        python: Option<Seq<FrameView>>,
        number: u64,
        native: Seq<FrameView>,
    )
        requires
            self.silent(),
        ensures
            self.allocation(address, size, python, number, native) == self,
            self.deallocation(address, size) == self,
            self.reallocation(address, size, new_address, new_size, python, number, native)
                == self,
    {
    }

    /// An event that finds room comes out with those of before.
    pub proof fn law_recorded_events_come_out(self, event: EventView)
        requires
            self.wf(),
            self.buffer().events.len() < self.capacity(),
        ensures
            BufferView::output_of_all(self.enqueue(event).buffers).to_multiset()
                == BufferView::output_of_all(self.buffers).to_multiset().insert(event),
    {
        self.lemma_current();
        let buffers = self.buffers_with_current();
        let buffer = self.buffer();
        let changed = buffer.record(event, self.capacity());
        BufferView::lemma_output_with(buffers, self.position(), changed);
        self.lemma_output_with_current();
        assert(changed.output().to_multiset() =~= buffer.output().to_multiset().insert(event)) by {
            broadcast use vstd::seq_lib::group_to_multiset_ensures;

        }
        let before = buffer.output().to_multiset();
        let one = BufferView::output_of_all(self.enqueue(event).buffers).to_multiset();
        let other = BufferView::output_of_all(self.buffers).to_multiset();
        assert forall|e: EventView| one.count(e) == other.insert(event).count(e) by {
            assert(one.add(before).count(e) == other.add(before.insert(event)).count(e));
        }
        assert(one =~= other.insert(event));
    }

    /// An event that the tracer takes is counted as if it came after all that
    /// waits.
    pub proof fn law_recorded_events_are_aggregated(self, event: EventView)
        requires
            self.wf(),
            self.takes(event),
        ensures
            self.enqueue(event).drain().aggregator == self.drain().aggregator.see(event),
    {
        self.lemma_current();
        self.lemma_enqueue(event);
        self.lemma_output_with_current();
        let buffers = self.buffers_with_current();
        let position = self.position();
        let first = BufferView::output_before(buffers, position);
        let second = BufferView::output_after(buffers, position);
        BufferView::lemma_output_around(buffers, position, event);
        assert(BufferView::output_of_all(self.buffers) == first + second);
        assert(BufferView::output_of_all(self.enqueue(event).buffers) == first.push(event)
            + second);
        let stack_id = event.stack_id;
        if forall|i: int, j: int|
            0 <= i < self.buffers.len() && i != position && 0 <= j < self.buffers[i].events.len()
                ==> !(#[trigger] self.buffers[i].events[j]).counts_for(stack_id) {
            assert forall|i: int, j: int|
                0 <= i < buffers.len() && i != position && 0 <= j
                    < buffers[i].events.len() implies !(
            #[trigger] buffers[i].events[j]).counts_for(stack_id) by {
                assert(buffers[i] == self.buffers[i]);
                assert(!self.buffers[i].events[j].counts_for(stack_id));
            }
            BufferView::lemma_apart_after(buffers, position, stack_id);
        }
        assert(self.aggregator.may_come_later(first, event, second));
        self.aggregator.law_events_may_come_later(first, event, second);
    }

    proof fn lemma_output_with_current(self)
        ensures
            BufferView::output_of_all(self.buffers_with_current()) == BufferView::output_of_all(
                self.buffers,
            ),
    {
        let buffers = self.buffers_with_current();
        if !BufferView::threads(self.buffers).contains(self.collector.thread) {
            assert(buffers.drop_last() =~= self.buffers);
            assert(BufferView::output_of_all(buffers) =~= BufferView::output_of_all(self.buffers));
        }
    }

    /// An event that finds no room is counted as lost.
    pub proof fn law_events_without_room_are_counted(self, event: EventView)
        requires
            self.wf(),
            self.buffer().events.len() == self.capacity(),
            self.buffer().dropped < u64::MAX,
        ensures
            EventView::events_lost(BufferView::output_of_all(self.enqueue(event).buffers))
                == EventView::events_lost(BufferView::output_of_all(self.buffers)) + 1,
    {
        self.lemma_current();
        self.lemma_output_with_current();
        let buffers = self.buffers_with_current();
        let buffer = self.buffer();
        let changed = buffer.record(event, self.capacity());
        BufferView::lemma_output_with(buffers, self.position(), changed);
        let one = BufferView::output_of_all(self.enqueue(event).buffers);
        let other = BufferView::output_of_all(self.buffers);
        vstd::seq_lib::lemma_multiset_commutative(one, buffer.output());
        vstd::seq_lib::lemma_multiset_commutative(other, changed.output());
        let weight = |event: EventView| event.lost();
        EventView::law_totals_have_no_order(
            one + buffer.output(),
            other + changed.output(),
            weight,
        );
        EventView::lemma_total_of_parts(one, buffer.output(), weight);
        EventView::lemma_total_of_parts(other, changed.output(), weight);
        let marker = EventView::blank(EventKind::Dropped { count: changed.dropped });
        assert(changed.output() == buffer.events.push(marker));
        assert(changed.output().drop_last() =~= buffer.events);
        if buffer.dropped > 0 {
            assert(buffer.output().drop_last() =~= buffer.events);
        }
    }

    /// A buffer that fills up asks for a drain, and the worker is woken where
    /// none had been asked for.
    pub proof fn law_filling_buffers_ask_for_a_drain(self, event: EventView)
        requires
            self.wf(),
            ThreadBuffer::threshold_of(self.capacity()) <= self.buffer().events.len() + 1,
        ensures
            self.enqueue(event).pending_flush,
            !self.pending_flush ==> self.enqueue(event).wake,
    {
    }

    /// To drain twice is to drain once.
    pub proof fn law_draining_twice_changes_nothing(self)
        ensures
            self.drain().drained(),
            self.drain().drain() == self.drain(),
    {
        let once = self.drain();
        BufferView::lemma_nothing_comes_out(once.buffers);
        assert(BufferView::emptied(once.buffers) =~= once.buffers);
    }

    /// To forget a thread loses nothing: what still waits in its buffer goes
    /// into the aggregator at once, and all else waits as before. In the end
    /// the aggregator knows the same, as long as no counter comes to the end
    /// of its range in either order.
    pub proof fn law_forgotten_threads_lose_nothing(self, thread: u64)
        requires
            self.wf(),
            BufferView::threads(self.buffers).contains(thread),
        ensures
            ({
                let place = Numbering::place(BufferView::threads(self.buffers), thread);
                let ended = self.buffers[place].output();
                let after = self.forget_thread(thread);
                let waiting = BufferView::output_of_all(self.buffers);
                let later = BufferView::output_of_all(after.buffers);
                &&& after.aggregator == self.aggregator.see_all(ended)
                &&& (ended + later).to_multiset() == waiting.to_multiset()
                &&& (forall|stack_id: StackId|
                    {
                        let stats = #[trigger] self.aggregator.stats_of(stack_id);
                        stats.counts(waiting, stack_id) && stats.counts(ended + later, stack_id)
                    }) ==> after.drain().aggregator == self.drain().aggregator
            }),
    {
        let threads = BufferView::threads(self.buffers);
        let place = Numbering::place(threads, thread);
        let after = self.forget_thread(thread);
        Numbering::lemma_with(threads, thread);
        BufferView::lemma_output_without(self.buffers, place);
        let ended = self.buffers[place].output();
        let waiting = BufferView::output_of_all(self.buffers);
        let later = BufferView::output_of_all(after.buffers);
        vstd::seq_lib::lemma_multiset_commutative(ended, later);
        assert((ended + later).to_multiset() =~= waiting.to_multiset());
        self.aggregator.law_events_come_in_parts(ended, later);
        if forall|stack_id: StackId|
            {
                let stats = #[trigger] self.aggregator.stats_of(stack_id);
                stats.counts(waiting, stack_id) && stats.counts(ended + later, stack_id)
            } {
            self.aggregator.law_events_have_no_order(ended + later, waiting);
        }
    }

    /// After a reset nothing is known of any allocation, and a snapshot is
    /// empty.
    pub proof fn law_reset_forgets_everything(self, snapshot: SnapshotView)
        requires
            self.reset().drain().aggregator.shown_by(snapshot, self.collector.table.stacks),
        ensures
            snapshot.records.len() == 0,
            snapshot.dropped_events == 0,
            self.reset().live == Map::<usize, AllocationRecord>::empty(),
    {
        BufferView::lemma_nothing_comes_out(self.reset().buffers);
        AggregatorView::law_new_aggregators_show_nothing(snapshot, self.collector.table.stacks);
    }

    /// Without sampling, a deallocation of an address that is not known counts
    /// as one dropped event, and a reallocation as two.
    pub proof fn law_unknown_allocations_are_counted(
        self,
        address: usize,
        size: usize,
        new_address: usize,
        new_size: usize,
        python: Option<Seq<FrameView>>,
        number: u64,
        native: Seq<FrameView>,
    )
        requires
            self.wf(),
            self.buffer().events.len() < self.capacity(),
            self.enabled,
            !self.sampling.enabled(),
            !self.live.contains_key(address),
        ensures
            self.deallocation(address, size).drain().aggregator == self.drain().aggregator.see(
                (EventView {
                    kind: EventKind::Dropped { count: 1 },
                    address: 0,
                    size: 0,
                    stack_id: 0,
                }),
            ),
            self.deallocation(address, size).live == self.live,
            self.reallocation(
                address,
                size,
                new_address,
                new_size,
                python,
                number,
                native,
            ).drain().aggregator == self.drain().aggregator.see(
                (EventView {
                    kind: EventKind::Dropped { count: 2 },
                    address: 0,
                    size: 0,
                    stack_id: 0,
                }),
            ),
            self.reallocation(
                address,
                size,
                new_address,
                new_size,
                python,
                number,
                native,
            ).live == self.live,
    {
        self.law_recorded_events_are_aggregated(
            EventView::blank(EventKind::Dropped { count: 1 }),
        );
        self.law_recorded_events_are_aggregated(
            EventView::blank(EventKind::Dropped { count: 2 }),
        );
    }

    /// With sampling, what happens to an address that is not known is passed
    /// over.
    pub proof fn law_sampling_passes_over_unknown_allocations(
        self,
        address: usize,
        size: usize,
        new_address: usize,
        new_size: usize,
        python: Option<Seq<FrameView>>,
        number: u64,
        native: Seq<FrameView>,
    )
        requires
            self.sampling.enabled(),
            !self.live.contains_key(address),
        ensures
            self.deallocation(address, size) == self,
            self.reallocation(address, size, new_address, new_size, python, number, native)
                == self,
    {
    }

    /// An allocation that is sampled reaches the aggregator under the
    /// identifier of its stack, and the tracer knows it from then on.
    pub proof fn law_allocations_are_aggregated(
        self,
        address: usize,
        size: usize,
        python: Option<Seq<FrameView>>,
        number: u64,
        native: Seq<FrameView>,
    )
        requires
            self.wf(),
            self.enabled,
            self.sampling.samples(size, number),
            self.takes(self.allocation_event(address, size, python, native)),
        ensures
            ({
                let stack_id = self.collector.id_of(self.collector.stack_of(python, native));
                let after = self.allocation(address, size, python, number, native);
                &&& after.wf()
                &&& after.live == self.live.insert(address, AllocationRecord { size, stack_id })
                &&& after.drain().aggregator == self.drain().aggregator.see(
                    (EventView { kind: EventKind::Allocation, address, size, stack_id }),
                )
            }),
    {
        let admitted = self.observe(size).admit_allocation(address, size, python, native);
        let event = self.allocation_event(address, size, python, native);
        self.lemma_admitted_wf(address, size, python, native);
        admitted.lemma_enqueue(event);
        admitted.law_recorded_events_are_aggregated(event);
    }

    proof fn lemma_admitted_wf(
        self,
        address: usize,
        size: usize,
        python: Option<Seq<FrameView>>,
        native: Seq<FrameView>,
    )
        requires
            self.wf(),
        ensures
            self.observe(size).admit_allocation(address, size, python, native).wf(),
    {
    }

    /// A deallocation is attributed to the stack of its allocation. A size of
    /// zero stands for the size of the allocation.
    pub proof fn law_deallocations_use_the_stack_of_the_allocation(
        self,
        address: usize,
        size: usize,
        freed: usize,
        python: Option<Seq<FrameView>>,
        number: u64,
        native: Seq<FrameView>,
    )
        requires
            self.wf(),
            self.enabled,
            self.sampling.samples(size, number),
            self.takes(self.allocation_event(address, size, python, native)),
            ({
                let allocated = self.allocation(address, size, python, number, native);
                allocated.takes(allocated.deallocation_event(address, freed))
            }),
        ensures
            ({
                let stack_id = self.collector.id_of(self.collector.stack_of(python, native));
                let counted = if freed == 0 {
                    size
                } else {
                    freed
                };
                let after = self.allocation(address, size, python, number, native).deallocation(
                    address,
                    freed,
                );
                &&& after.live == self.live.remove(address)
                &&& after.drain().aggregator == self.drain().aggregator.see(
                    (EventView { kind: EventKind::Allocation, address, size, stack_id }),
                ).see(
                    (EventView {
                        kind: EventKind::Deallocation,
                        address,
                        size: counted,
                        stack_id,
                    }),
                )
            }),
    {
        self.law_allocations_are_aggregated(address, size, python, number, native);
        let allocated = self.allocation(address, size, python, number, native);
        let ending = allocated.deallocation_event(address, freed);
        let released = allocated.release(address);
        released.lemma_enqueue(ending);
        released.law_recorded_events_are_aggregated(ending);
        assert(released.live =~= self.live.remove(address));
        let admitted = self.observe(size).admit_allocation(address, size, python, native);
        admitted.lemma_enqueue(self.allocation_event(address, size, python, native));
    }

    /// A deallocation of an allocation that is known is attributed to the
    /// stack of the allocation.
    pub proof fn law_deallocations_are_aggregated(self, address: usize, size: usize)
        requires
            self.wf(),
            self.enabled,
            self.live.contains_key(address),
            self.takes(self.deallocation_event(address, size)),
        ensures
            self.deallocation(address, size).live == self.live.remove(address),
            self.deallocation(address, size).drain().aggregator == self.drain().aggregator.see(
                (EventView {
                    kind: EventKind::Deallocation,
                    address,
                    size: if size == 0 {
                        self.live[address].size
                    } else {
                        size
                    },
                    stack_id: self.live[address].stack_id,
                }),
            ),
            self.deallocation(address, size).collector == self.collector,
            self.deallocation(address, size).sampling == self.sampling,
    {
        let released = self.release(address);
        let ending = self.deallocation_event(address, size);
        released.lemma_enqueue(ending);
        released.law_recorded_events_are_aggregated(ending);
    }

    /// A reallocation that is sampled frees the old allocation under its own
    /// stack, and makes a new one under the stack of the caller.
    pub proof fn law_reallocations_move_the_allocation(
        self,
        old_address: usize,
        old_size: usize,
        new_address: usize,
        new_size: usize,
        python: Option<Seq<FrameView>>,
        number: u64,
        native: Seq<FrameView>,
    )
        requires
            self.wf(),
            self.enabled,
            self.live.contains_key(old_address),
            0 < new_size,
            self.sampling.samples(new_size, number),
            self.takes(self.deallocation_event(old_address, old_size)),
            self.enqueue(self.deallocation_event(old_address, old_size)).takes(
                self.allocation_event(new_address, new_size, python, native),
            ),
        ensures
            ({
                let stack_id = self.collector.id_of(self.collector.stack_of(python, native));
                let after = self.reallocation(
                    old_address,
                    old_size,
                    new_address,
                    new_size,
                    python,
                    number,
                    native,
                );
                &&& after.live == self.live.remove(old_address).insert(
                    new_address,
                    AllocationRecord { size: new_size, stack_id },
                )
                &&& after.drain().aggregator == self.drain().aggregator.see(
                    (EventView {
                        kind: EventKind::Deallocation,
                        address: old_address,
                        size: if old_size == 0 {
                            self.live[old_address].size
                        } else {
                            old_size
                        },
                        stack_id: self.live[old_address].stack_id,
                    }),
                ).see(
                    (EventView {
                        kind: EventKind::Allocation,
                        address: new_address,
                        size: new_size,
                        stack_id,
                    }),
                )
            }),
    {
        let released = self.release(old_address);
        let admitted = released.observe(new_size).admit_allocation(
            new_address,
            new_size,
            python,
            native,
        );
        let ending = self.deallocation_event(old_address, old_size);
        let event = self.allocation_event(new_address, new_size, python, native);
        released.lemma_admitted_wf(new_address, new_size, python, native);
        admitted.lemma_enqueue(ending);
        admitted.law_recorded_events_are_aggregated(ending);
        let between = admitted.enqueue(ending);
        between.lemma_enqueue(event);
        between.law_recorded_events_are_aggregated(event);
    }

    /// A reallocation that is not sampled ends the old allocation and nothing
    /// else: the tracer forgets the old address, and one deallocation of the
    /// old block is counted for the stack of the old allocation, with the old
    /// size, or the recorded size where the old size is given as zero. The new
    /// size does not matter.
    pub proof fn law_unsampled_reallocations_free_the_old_block(
        self,
        old_address: usize,
        old_size: usize,
        new_address: usize,
        new_size: usize,
        python: Option<Seq<FrameView>>,
        number: u64,
        native: Seq<FrameView>,
        ending: EventView,
    )
        requires
            self.wf(),
            self.enabled,
            self.live.contains_key(old_address),
            0 < new_size,
            !self.sampling.samples(new_size, number),
            ending.kind is Deallocation,
            ending.address == old_address,
            ending.stack_id == self.live[old_address].stack_id,
            0 < old_size ==> ending.size == old_size,
            old_size == 0 ==> ending.size == self.live[old_address].size,
            self.takes(ending),
        ensures
            ({
                let stack_id = self.live[old_address].stack_id;
                let before = self.drain().aggregator;
                let after = self.reallocation(
                    old_address,
                    old_size,
                    new_address,
                    new_size,
                    python,
                    number,
                    native,
                );
                let counted = after.drain().aggregator;
                &&& after.wf()
                &&& after.live == self.live.remove(old_address)
                &&& after.collector == self.collector
                &&& counted == before.see(ending)
                &&& ending.size <= i64::MAX ==> {
                    let bytes = before.stats_of(stack_id).current_bytes - ending.size;
                    &&& counted.dropped_events == before.dropped_events
                    &&& counted.stats_of(stack_id).allocations == before.stats_of(
                        stack_id,
                    ).allocations
                    &&& counted.stats_of(stack_id).total_allocated == before.stats_of(
                        stack_id,
                    ).total_allocated
                    &&& i64::MIN <= bytes ==> counted.stats_of(stack_id).current_bytes == bytes
                }
            }),
    {
        let freed = self.deallocation_event(old_address, old_size);
        assert(freed == ending);
        let released = self.release(old_address).observe(new_size);
        released.lemma_enqueue(ending);
        released.law_recorded_events_are_aggregated(ending);
    }

    /// An allocation that then moves without being sampled leaves no trace in
    /// the current bytes of its stack, whatever the new size is, and whether
    /// the old size is given or left to the tracer.
    pub proof fn law_unsampled_reallocations_restore_current_bytes(
        self,
        address: usize,
        size: usize,
        old_size: usize,
        new_address: usize,
        new_size: usize,
        python: Option<Seq<FrameView>>,
        number: u64,
        native: Seq<FrameView>,
        new_python: Option<Seq<FrameView>>,
        new_number: u64,
        new_native: Seq<FrameView>,
        stack_id: StackId,
    )
        requires
            self.wf(),
            self.enabled,
            self.sampling.samples(size, number),
            size <= i64::MAX,
            old_size == size || old_size == 0,
            0 < new_size,
            stack_id == self.collector.id_of(self.collector.stack_of(python, native)),
            self.takes((EventView { kind: EventKind::Allocation, address, size, stack_id })),
            ({
                let allocated = self.allocation(address, size, python, number, native);
                &&& !allocated.sampling.samples(new_size, new_number)
                &&& allocated.takes(
                    (EventView { kind: EventKind::Deallocation, address, size, stack_id }),
                )
            }),
            self.drain().aggregator.stats_of(stack_id).current_bytes + size <= i64::MAX,
        ensures
            ({
                let after = self.allocation(address, size, python, number, native).reallocation(
                    address,
                    old_size,
                    new_address,
                    new_size,
                    new_python,
                    new_number,
                    new_native,
                );
                &&& after.live == self.live.remove(address)
                &&& after.drain().aggregator.stats_of(stack_id).current_bytes
                    == self.drain().aggregator.stats_of(stack_id).current_bytes
                &&& after.drain().aggregator.dropped_events
                    == self.drain().aggregator.dropped_events
            }),
    {
        let begin = EventView { kind: EventKind::Allocation, address, size, stack_id };
        let ending = EventView { kind: EventKind::Deallocation, address, size, stack_id };
        assert(begin == self.allocation_event(address, size, python, native));
        self.law_allocations_are_aggregated(address, size, python, number, native);
        let admitted = self.observe(size).admit_allocation(address, size, python, native);
        admitted.lemma_enqueue(begin);
        let allocated = self.allocation(address, size, python, number, native);
        assert(allocated.enabled);
        allocated.law_unsampled_reallocations_free_the_old_block(
            address,
            old_size,
            new_address,
            new_size,
            new_python,
            new_number,
            new_native,
            ending,
        );
        assert(allocated.live.remove(address) =~= self.live.remove(address));
        self.drain().aggregator.law_freeing_restores_current_bytes(begin, ending);
    }

    /// A reallocation to size zero is a deallocation of the old address.
    pub proof fn law_reallocations_to_nothing_are_deallocations(
        self,
        old_address: usize,
        old_size: usize,
        new_address: usize,
        python: Option<Seq<FrameView>>,
        number: u64,
        native: Seq<FrameView>,
    )
        requires
            self.live.contains_key(old_address),
        ensures
            self.reallocation(old_address, old_size, new_address, 0, python, number, native)
                == self.deallocation(old_address, old_size),
    {
    }

    /// A snapshot that is taken after an allocation was sampled shows it: the
    /// record of its stack carries the frames of the stack, and counts the
    /// allocation.
    pub proof fn law_snapshots_show_allocations(
        self,
        address: usize,
        size: usize,
        python: Option<Seq<FrameView>>,
        number: u64,
        native: Seq<FrameView>,
        snapshot: SnapshotView,
    )
        requires
            self.wf(),
            self.enabled,
            self.sampling.samples(size, number),
            self.takes(self.allocation_event(address, size, python, native)),
            size <= i64::MAX,
            self.collector.consistent(),
            self.collector.table.has_room_for(self.collector.stack_of(python, native)),
            ({
                let after = self.allocation(address, size, python, number, native);
                after.drain().aggregator.shown_by(snapshot, after.collector.table.stacks)
            }),
        ensures
            ({
                let frames = self.collector.stack_of(python, native);
                let stack_id = self.collector.id_of(frames);
                let stats = self.drain().aggregator.stats_of(stack_id).allocated(size);
                exists|i: int|
                    0 <= i < snapshot.records.len() && {
                        let record = #[trigger] snapshot.records[i];
                        &&& record.stack_id == stack_id
                        &&& record.stack == Some(StackView { frames, id: stack_id })
                        &&& record.allocations == stats.allocations
                        &&& record.deallocations == stats.deallocations
                        &&& record.current_bytes == stats.current_bytes
                        &&& record.total_allocated == stats.total_allocated
                        &&& record.total_freed == stats.total_freed
                    }
            }),
    {
        let frames = self.collector.stack_of(python, native);
        let stack_id = self.collector.id_of(frames);
        let after = self.allocation(address, size, python, number, native);
        self.law_allocations_are_aggregated(address, size, python, number, native);
        self.collector.law_captured_stacks_resolve(frames);
        let admitted = self.observe(size).admit_allocation(address, size, python, native);
        admitted.lemma_enqueue(self.allocation_event(address, size, python, native));
        assert(after.collector == self.collector.intern(frames));
        assert(after.drain().aggregator.stats.contains_key(stack_id));
        let i = choose|i: int|
            0 <= i < snapshot.records.len() && (#[trigger] snapshot.records[i]).stack_id
                == stack_id;
        assert(snapshot.records[i] == after.drain().aggregator.record_of(
            stack_id,
            after.collector.table.stacks,
        ));
    }

    /// Whether the stack of every live allocation resolves.
    pub open spec fn attributes_live_allocations(self) -> bool {
        &&& self.collector.consistent()
        &&& forall|address: usize| #[trigger]
            self.live.contains_key(address) ==> self.collector.table.stacks.contains_key(
                self.live[address].stack_id,
            )
    }

    /// The stack of every live allocation resolves, whatever is recorded, as
    /// long as there are identifiers.
    pub proof fn law_live_allocations_are_attributed(
        self,
        address: usize,
        size: usize,
        new_address: usize,
        new_size: usize,
        python: Option<Seq<FrameView>>,
        number: u64,
        native: Seq<FrameView>,
    )
        requires
            self.wf(),
            self.attributes_live_allocations(),
            self.collector.table.has_room_for(self.collector.stack_of(python, native)),
        ensures
            self.allocation(
                address,
                size,
                python,
                number,
                native,
            ).attributes_live_allocations(),
            self.deallocation(address, size).attributes_live_allocations(),
            self.reallocation(
                address,
                size,
                new_address,
                new_size,
                python,
                number,
                native,
            ).attributes_live_allocations(),
    {
        let frames = self.collector.stack_of(python, native);
        self.collector.law_captured_stacks_resolve(frames);
        let collector = self.collector.intern(frames);
        assert forall|id: StackId| #[trigger]
            self.collector.table.stacks.contains_key(
                id,
            ) implies collector.table.stacks.contains_key(id) by {}
        let ended = self.release(address);
        assert forall|other: usize| #[trigger] ended.live.contains_key(
            other,
        ) implies self.collector.table.stacks.contains_key(ended.live[other].stack_id) by {
            assert(self.live.contains_key(other));
        }
        assert forall|other: usize| #[trigger]
            self.live.contains_key(other) implies collector.table.stacks.contains_key(
            self.live[other].stack_id,
        ) by {}
    }
}

impl BufferView {
    /// From an empty buffer nothing comes. What comes out of several buffers is
    /// what comes out of the first ones and then the events of the last in
    /// order, with a final event that says how many found no room, where any
    /// did.
    pub proof fn law_buffers_come_out_in_order(buffers: Seq<BufferView>, last: BufferView)
        ensures
            ({
                let first = Self::output_of_all(buffers);
                let all = Self::output_of_all(buffers.push(last));
                let n = first.len() + last.events.len();
                &&& buffers.len() == 0 ==> first.len() == 0
                &&& first.is_prefix_of(all)
                &&& forall|i: int|
                    0 <= i < last.events.len() ==> #[trigger] last.events[i] == all[first.len() + i]
                &&& last.dropped == 0 ==> all.len() == n
                &&& last.dropped > 0 ==> {
                    &&& all.len() == n + 1
                    &&& all[n as int].kind == EventKind::Dropped { count: last.dropped }
                }
            }),
    {
        assert(buffers.push(last).drop_last() =~= buffers);
        let first = Self::output_of_all(buffers);
        let all = Self::output_of_all(buffers.push(last));
        assert(first =~= all.subrange(0, first.len() as int));
    }
}

impl TracerView {
    /// A new tracer has what its configuration asks for, knows of nothing, and
    /// nobody has asked it for anything.
    pub proof fn law_new_tracers_follow_the_configuration(config: TracerConfig)
        ensures
            ({
                let tracer = Self::initial(config);
                &&& tracer.config == config
                &&& tracer.enabled == config.start_enabled
                &&& !tracer.pending_flush
                &&& !tracer.wake
                &&& !tracer.stopped
                &&& tracer.aggregator.dropped_events == 0
                &&& tracer.aggregator.stats.dom() == Set::<StackId>::empty()
                &&& tracer.live.dom() == Set::<usize>::empty()
                &&& tracer.buffers.len() == 0
                &&& tracer.collector.table.next_id == 1
                &&& tracer.collector.capture_native == config.capture_native
                &&& tracer.collector.native_skip_frames == config.native_skip_frames
                &&& tracer.collector.python_skip_frames == config.python_skip_frames
            }),
    {
        assert(Self::initial(config).aggregator.stats.dom() =~= Set::<StackId>::empty());
        assert(Self::initial(config).live.dom() =~= Set::<usize>::empty());
    }

    /// An event waits in the buffer of the current thread, behind those that
    /// wait there already. Where there is no room it is counted instead. The
    /// buffers of other threads stay as they are.
    pub proof fn law_events_wait_with_their_thread(self, event: EventView, i: int)
        requires
            self.wf(),
            0 <= i < self.buffers.len(),
            self.buffers[i].dropped < u64::MAX,
        ensures
            ({
                let before = self.buffers[i];
                let after = self.enqueue(event).buffers[i];
                &&& after.thread == before.thread
                &&& before.thread != self.collector.thread ==> after == before
                &&& before.thread == self.collector.thread && before.events.len() < self.capacity()
                    ==> after.events == before.events.push(event) && after.dropped
                    == before.dropped
                &&& before.thread == self.collector.thread && before.events.len()
                    == self.capacity() ==> after.events == before.events && after.dropped
                    == before.dropped + 1
                &&& before.thread == self.collector.thread ==> self.enqueue(event).buffers.len()
                    == self.buffers.len()
            }),
    {
        self.lemma_current();
        self.lemma_enqueue(event);
        let threads = BufferView::threads(self.buffers);
        assert(threads[i] == self.buffers[i].thread);
        if self.buffers[i].thread == self.collector.thread {
            Numbering::lemma_place(threads, i);
        }
        assert(self.buffers_with_current()[i] == self.buffers[i]);
    }

    /// A thread that records its first event gets a buffer behind all others,
    /// in which this event alone waits.
    pub proof fn law_first_events_open_a_buffer(self, event: EventView)
        requires
            self.wf(),
            forall|i: int|
                0 <= i < self.buffers.len() ==> (#[trigger] self.buffers[i]).thread
                    != self.collector.thread,
        ensures
            self.enqueue(event).buffers == self.buffers.push(
                (BufferView { thread: self.collector.thread, events: seq![event], dropped: 0 }),
            ),
    {
        let threads = BufferView::threads(self.buffers);
        assert(!threads.contains(self.collector.thread)) by {
            if threads.contains(self.collector.thread) {
                let i = choose|i: int|
                    0 <= i < threads.len() && threads[i] == self.collector.thread;
                assert(self.buffers[i].thread == self.collector.thread);
            }
        }
        let opened = BufferView {
            thread: self.collector.thread,
            events: seq![event],
            dropped: 0,
        };
        assert(Seq::<EventView>::empty().push(event) =~= seq![event]);
        assert(self.enqueue(event).buffers =~= self.buffers.push(opened));
    }

    /// A drain is asked for by the event with which three quarters of the slots
    /// of a buffer are taken, and by every later one. The worker is woken by the
    /// first that asks.
    pub proof fn law_drains_are_asked_for_at_three_quarters(self, event: EventView, i: int)
        requires
            self.wf(),
            0 <= i < self.buffers.len(),
            self.buffers[i].thread == self.collector.thread,
        ensures
            ({
                let after = self.enqueue(event);
                let asks = 4 * (self.buffers[i].events.len() + 1) >= 3 * self.capacity();
                &&& after.pending_flush <==> self.pending_flush || asks
                &&& after.wake <==> self.wake || asks && !self.pending_flush
                &&& after.live == self.live
                &&& after.aggregator == self.aggregator
                &&& after.sampling == self.sampling
                &&& after.collector == self.collector
                &&& after.config == self.config
                &&& after.enabled == self.enabled
                &&& after.stopped == self.stopped
            }),
    {
        let threads = BufferView::threads(self.buffers);
        assert(threads[i] == self.collector.thread);
        Numbering::lemma_place(threads, i);
        ThreadBuffer::law_buffers_ask_at_three_quarters(
            self.capacity(),
            self.buffers[i].events.len() as int + 1,
        );
        self.lemma_current();
    }

    /// A drain moves what waits into the aggregator, in the order of the buffers.
    /// Every thread keeps its buffer, and all else stays as it is.
    pub proof fn law_drains_move_what_waits(self)
        ensures
            ({
                let after = self.drain();
                &&& after.aggregator == self.aggregator.see_all(
                    BufferView::output_of_all(self.buffers),
                )
                &&& after.buffers.len() == self.buffers.len()
                &&& forall|i: int|
                    0 <= i < self.buffers.len() ==> {
                        let buffer = #[trigger] after.buffers[i];
                        &&& buffer.thread == self.buffers[i].thread
                        &&& buffer.events.len() == 0
                        &&& buffer.dropped == 0
                    }
                &&& after.live == self.live
                &&& after.config == self.config
                &&& after.enabled == self.enabled
                &&& after.pending_flush == self.pending_flush
                &&& after.wake == self.wake
                &&& after.sampling == self.sampling
                &&& after.collector == self.collector
                &&& after.stopped == self.stopped
            }),
    {
    }

    /// A reset forgets what waits, what was aggregated and what is live. The
    /// tracer goes on as it did, with the stacks that it knows.
    pub proof fn law_reset_tracers_go_on(self)
        ensures
            ({
                let after = self.reset();
                &&& after.drained()
                &&& after.aggregator.dropped_events == 0
                &&& after.aggregator.stats.dom() == Set::<StackId>::empty()
                &&& after.live.dom() == Set::<usize>::empty()
                &&& after.config == self.config
                &&& after.enabled == self.enabled
                &&& after.pending_flush == self.pending_flush
                &&& after.wake == self.wake
                &&& after.sampling == self.sampling
                &&& after.collector == self.collector
                &&& after.stopped == self.stopped
            }),
    {
        assert(self.reset().aggregator.stats.dom() =~= Set::<StackId>::empty());
        assert(self.reset().live.dom() =~= Set::<usize>::empty());
    }

    /// A forgotten thread has no buffer and remembers no stacks. All other
    /// threads keep what they have, and what is live stays live.
    pub proof fn law_forgotten_threads_are_gone(self, thread: u64, other: u64)
        requires
            self.wf(),
            other != thread,
        ensures
            ({
                let after = self.forget_thread(thread);
                &&& !BufferView::threads(after.buffers).contains(thread)
                &&& forall|buffer: BufferView|
                    buffer.thread != thread ==> (#[trigger] after.buffers.contains(buffer)
                        <==> self.buffers.contains(buffer))
                &&& !after.collector.caches.contains_key(thread)
                &&& after.collector.caches.contains_key(other)
                    == self.collector.caches.contains_key(other)
                &&& self.collector.caches.contains_key(other) ==> after.collector.caches[other]
                    == self.collector.caches[other]
                &&& after.collector.table == self.collector.table
                &&& after.live == self.live
                &&& after.sampling == self.sampling
                &&& after.enabled == self.enabled
                &&& after.config == self.config
            }),
    {
        let threads = BufferView::threads(self.buffers);
        let place = Numbering::place(threads, thread);
        let after = self.forget_thread(thread);
        if threads.contains(thread) {
            Numbering::lemma_with(threads, thread);
            assert(BufferView::threads(after.buffers) =~= threads.remove(place));
            assert forall|j: int| 0 <= j < after.buffers.len() implies threads.remove(place)[j]
                != thread by {
                let k = if j < place {
                    j
                } else {
                    j + 1
                };
                assert(threads.remove(place)[j] == threads[k]);
            }
            assert forall|buffer: BufferView| buffer.thread != thread implies (
            #[trigger] after.buffers.contains(buffer) <==> self.buffers.contains(buffer)) by {
                if self.buffers.contains(buffer) {
                    let k = choose|k: int|
                        0 <= k < self.buffers.len() && self.buffers[k] == buffer;
                    assert(threads[k] == buffer.thread);
                    let j = if k < place {
                        k
                    } else {
                        k - 1
                    };
                    assert(after.buffers[j] == buffer);
                }
                if after.buffers.contains(buffer) {
                    let j = choose|j: int|
                        0 <= j < after.buffers.len() && after.buffers[j] == buffer;
                    let k = if j < place {
                        j
                    } else {
                        j + 1
                    };
                    assert(self.buffers[k] == buffer);
                }
            }
        }
    }

    /// An allocation that is not sampled leaves nothing behind but what sampling
    /// by bytes remembers of it.
    pub proof fn law_unsampled_allocations_leave_no_trace(
        self,
        address: usize,
        size: usize,
        python: Option<Seq<FrameView>>,
        number: u64,
        native: Seq<FrameView>,
    )
        requires
            self.enabled,
            !self.sampling.samples(size, number),
        ensures
            ({
                let after = self.allocation(address, size, python, number, native);
                &&& after == (TracerView { sampling: after.sampling, ..self })
                &&& after.sampling == self.sampling.observe(size)
            }),
    {
    }

    /// An allocation that is sampled is known by its size and the identifier of
    /// its stack, which is made of the Python frames and the native stack. Only
    /// sampling by bytes remembers it besides.
    pub proof fn law_sampled_allocations_are_live(
        self,
        address: usize,
        size: usize,
        python: Option<Seq<FrameView>>,
        number: u64,
        native: Seq<FrameView>,
        other: usize,
    )
        requires
            self.wf(),
            self.enabled,
            self.sampling.samples(size, number),
            other != address,
        ensures
            ({
                let frames = self.collector.stack_of(python, native);
                let after = self.allocation(address, size, python, number, native);
                &&& after.live.contains_key(address)
                &&& after.live[address].size == size
                &&& after.live[address].stack_id == self.collector.id_of(frames)
                &&& after.live.contains_key(other) == self.live.contains_key(other)
                &&& self.live.contains_key(other) ==> after.live[other] == self.live[other]
                &&& after.collector == self.collector.intern(frames)
                &&& after.sampling == self.sampling.observe(size)
                &&& after.aggregator == self.aggregator
                &&& after.enabled
            }),
    {
        self.lemma_admitted_wf(address, size, python, native);
        let admitted = self.observe(size).admit_allocation(address, size, python, native);
        admitted.lemma_enqueue(self.allocation_event(address, size, python, native));
    }

    /// An event that was built elsewhere is counted like any other while the
    /// tracer is enabled, and touches neither what is live nor sampling.
    pub proof fn law_events_from_elsewhere_are_aggregated(self, event: EventView)
        requires
            self.wf(),
            self.enabled,
            self.takes(event),
        ensures
            self.recorded(event).drain().aggregator == self.drain().aggregator.see(event),
            self.recorded(event).live == self.live,
            self.recorded(event).sampling == self.sampling,
            self.recorded(event).collector == self.collector,
    {
        self.lemma_enqueue(event);
        self.law_recorded_events_are_aggregated(event);
    }

    /// The buffers of a tracer fill the configured bytes, but for a rest in which
    /// no further event fits.
    pub proof fn law_buffers_have_the_configured_size(config: TracerConfig)
        ensures
            ({
                let capacity = Self::initial(config).capacity();
                let size = vstd::layout::size_of::<AllocationEvent>() as int;
                &&& config.ring_buffer_bytes < size ==> capacity == 1024
                &&& 0 < size <= config.ring_buffer_bytes ==> capacity * size
                    <= config.ring_buffer_bytes < (capacity + 1) * size
            }),
    {
        ThreadBuffer::law_slots_fill_the_bytes(config.ring_buffer_bytes);
    }

    /// A reallocation observes the new size once where the old allocation is
    /// known and the new size is not zero, and never otherwise. Only where it is
    /// sampled is a stack captured.
    pub proof fn law_reallocations_observe_the_new_size(
        self,
        old_address: usize,
        old_size: usize,
        new_address: usize,
        new_size: usize,
        python: Option<Seq<FrameView>>,
        number: u64,
        native: Seq<FrameView>,
    )
        requires
            self.wf(),
            self.enabled,
        ensures
            ({
                let known = self.live.contains_key(old_address) && 0 < new_size;
                let after = self.reallocation(
                    old_address,
                    old_size,
                    new_address,
                    new_size,
                    python,
                    number,
                    native,
                );
                &&& known ==> after.sampling == self.sampling.observe(new_size)
                &&& !known ==> after.sampling == self.sampling
                &&& known && self.sampling.samples(new_size, number) ==> after.collector
                    == self.collector.intern(self.collector.stack_of(python, native))
                &&& !known || !self.sampling.samples(new_size, number) ==> after.collector
                    == self.collector
                &&& !self.live.contains_key(old_address) ==> after.live == self.live
                &&& self.live.contains_key(old_address) && new_size == 0 ==> after.live
                    == self.live.remove(old_address)
                &&& after.aggregator == self.aggregator
                &&& after.enabled
            }),
    {
        let released = self.release(old_address);
        let freed = self.deallocation_event(old_address, old_size);
        let admitted = released.observe(new_size).admit_allocation(
            new_address,
            new_size,
            python,
            native,
        );
        released.lemma_admitted_wf(new_address, new_size, python, native);
        admitted.lemma_enqueue(freed);
        admitted.enqueue(freed).lemma_enqueue(
            self.allocation_event(new_address, new_size, python, native),
        );
        released.lemma_enqueue(freed);
        released.observe(new_size).lemma_enqueue(freed);
        self.lemma_enqueue(EventView::blank(EventKind::Dropped { count: 2 }));
    }
}

} // verus!
