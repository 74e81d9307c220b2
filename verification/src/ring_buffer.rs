//! Bounded per-thread event buffers.

use crate::config::TracerConfig;
use crate::event::AllocationEvent;
use crossbeam_queue::ArrayQueue;
use vstd::prelude::*;

verus! {

/// The bounded queue of the `crossbeam_queue` crate.
#[verifier::external_type_specification]
#[verifier::external_body]
#[verifier::reject_recursive_types(T)]
pub struct ExArrayQueue<T>(crossbeam_queue::ArrayQueue<T>);

/// The events that a queue holds, oldest first.
pub uninterp spec fn queue_events(queue: ArrayQueue<AllocationEvent>) -> Seq<AllocationEvent>;

/// The number of events that a queue was made to hold.
pub uninterp spec fn queue_limit(queue: ArrayQueue<AllocationEvent>) -> nat;

/// The largest number of slots that a queue of events may have. A slot holds
/// an event and a counter: it takes no more than 32 bytes besides the event,
/// and no more than 256 bytes in all.
pub open spec fn max_queue_slots() -> int {
    let slot_size = vstd::layout::size_of::<AllocationEvent>() as int + 32;
    let by_size = isize::MAX as int / slot_size;
    if by_size > isize::MAX as int / 256 {
        by_size
    } else {
        isize::MAX as int / 256
    }
}

/// Whether a queue holds fewer events than it was made to hold.
pub open spec fn has_room(queue: ArrayQueue<AllocationEvent>) -> bool {
    queue_events(queue).len() < queue_limit(queue)
}

/// `ArrayQueue::new`: an empty queue with room for `limit` events. It panics on
/// zero, and where the slots would take more memory than can be addressed.
#[verifier::external_body]
fn queue_new(limit: usize) -> (queue: ArrayQueue<AllocationEvent>)
    requires
        0 < limit <= max_queue_slots(),
    ensures
        queue_events(queue) == Seq::<AllocationEvent>::empty(),
        queue_limit(queue) == limit,
{
    ArrayQueue::new(limit)
}

/// `ArrayQueue::push` on a queue that nobody else uses meanwhile: the event
/// goes to the end of the queue where there is room, and comes back where
/// there is none.
#[verifier::external_body]
fn queue_push(queue: &mut ArrayQueue<AllocationEvent>, event: AllocationEvent) -> (pushed: Result<(), AllocationEvent>)
    ensures
        queue_limit(*final(queue)) == queue_limit(*old(queue)),
        pushed == (if has_room(*old(queue)) { Ok(()) } else { Err(event) }),
        queue_events(*final(queue)) == (if has_room(*old(queue)) {
            queue_events(*old(queue)).push(event)
        } else {
            queue_events(*old(queue))
        }),
{
    queue.push(event)
}

/// `ArrayQueue::pop` on a queue that nobody else uses meanwhile: the oldest
/// event leaves the queue, if there is one.
#[verifier::external_body]
fn queue_pop(queue: &mut ArrayQueue<AllocationEvent>) -> (popped: Option<AllocationEvent>)
    ensures
        queue_limit(*final(queue)) == queue_limit(*old(queue)),
        queue_events(*old(queue)).len() == 0 ==> popped is None && queue_events(*final(queue))
            == queue_events(*old(queue)),
        queue_events(*old(queue)).len() > 0 ==> popped == Some(queue_events(*old(queue))[0])
            && queue_events(*final(queue)) == queue_events(*old(queue)).skip(1),
{
    queue.pop()
}

/// `ArrayQueue::len` on a queue that nobody else uses meanwhile: how many
/// events it holds.
#[verifier::external_body]
fn queue_len(queue: &ArrayQueue<AllocationEvent>) -> (len: usize)
    ensures
        len == queue_events(*queue).len(),
{
    queue.len()
}

/// Result of attempting to append an event to a thread-local buffer.
#[derive(Debug, Clone, Copy, PartialEq, Eq, Structural)]
pub enum DrainAction {
    /// The buffer crossed its threshold and should be drained soon.
    FlushPending,
    /// The buffer still has capacity.
    Noop,
}

/// Ring buffer of one thread.
#[derive(Debug)]
pub struct ThreadBuffer {
    dropped: u64,
    flush_threshold: usize,
    queue: ArrayQueue<AllocationEvent>,
}

impl ThreadBuffer {
    /// The events waiting in the buffer, oldest first.
    pub closed spec fn events(&self) -> Seq<AllocationEvent> {
        queue_events(self.queue)
    }

    /// How many events the buffer turned away since it was last drained.
    pub closed spec fn dropped(&self) -> u64 {
        self.dropped
    }

    /// How many events fit.
    pub closed spec fn capacity(&self) -> nat {
        queue_limit(self.queue)
    }

    /// From how many waiting events on the buffer asks for a drain.
    pub closed spec fn threshold(&self) -> usize {
        self.flush_threshold
    }

    /// How many events a buffer of the given number of bytes holds.
    pub open spec fn slots_in(bytes: usize) -> int {
        let event_size: int = if vstd::layout::size_of::<AllocationEvent>() == 0 {
            1
        } else {
            vstd::layout::size_of::<AllocationEvent>() as int
        };
        if bytes as int / event_size == 0 {
            1024
        } else {
            bytes as int / event_size
        }
    }

    /// Whether the memory of a buffer of the given number of bytes can be
    /// addressed.
    pub open spec fn addressable(bytes: usize) -> bool {
        bytes <= max_queue_slots() || Self::slots_in(bytes) <= max_queue_slots()
    }

    /// A buffer has at least one slot, and no more than can be addressed.
    pub proof fn lemma_slots(bytes: usize)
        ensures
            0 < Self::slots_in(bytes),
            Self::addressable(bytes) <==> Self::slots_in(bytes) <= max_queue_slots(),
    {
        let event_size: int = if vstd::layout::size_of::<AllocationEvent>() == 0 {
            1
        } else {
            vstd::layout::size_of::<AllocationEvent>() as int
        };
        assert(0 <= bytes as int / event_size <= bytes) by (nonlinear_arith)
            requires
                event_size > 0,
                bytes >= 0,
        ;
    }

    /// How many waiting events make a buffer with the given number of slots
    /// ask for a drain.
    pub open spec fn threshold_of(slots: int) -> int {
        slots - slots / 4
    }

    /// A buffer asks for a drain from the first number of waiting events on
    /// that makes up three quarters of its slots.
    pub proof fn law_buffers_ask_at_three_quarters(slots: int, waiting: int)
        requires
            0 < slots,
        ensures
            waiting >= Self::threshold_of(slots) <==> 4 * waiting >= 3 * slots,
            0 < Self::threshold_of(slots) <= slots,
    {
    }

    /// The slots of a buffer fill the bytes that it may take, but for a rest in
    /// which no further event fits. Where not even one event fits, there are
    /// 1024 slots.
    pub proof fn law_slots_fill_the_bytes(bytes: usize)
        ensures
            ({
                let slots = Self::slots_in(bytes);
                let size = vstd::layout::size_of::<AllocationEvent>() as int;
                &&& bytes < size ==> slots == 1024
                &&& 0 < size <= bytes ==> slots * size <= bytes < (slots + 1) * size
                &&& size == 0 ==> slots == if bytes == 0 {
                    1024
                } else {
                    bytes as int
                }
            }),
    {
        let size = vstd::layout::size_of::<AllocationEvent>() as int;
        if 0 < size {
            assert(bytes < size ==> bytes as int / size == 0) by (nonlinear_arith)
                requires
                    0 < size,
                    0 <= bytes,
            ;
            assert(bytes as int / size * size <= bytes < (bytes as int / size + 1) * size)
                by (nonlinear_arith)
                requires
                    0 < size,
                    0 <= bytes,
            ;
            assert(size <= bytes ==> bytes as int / size >= 1) by (nonlinear_arith)
                requires
                    0 < size,
                    0 <= bytes,
            ;
        }
    }

    pub open spec fn wf(&self) -> bool {
        &&& 0 < self.capacity()
        &&& self.threshold() == Self::threshold_of(self.capacity() as int)
        &&& self.events().len() <= self.capacity()
    }

    /// Drain all events out of the buffer into the provided collection.
    /// Returns how many events were turned away since the last drain.
    #[must_use]
    pub fn drain_into(&mut self, output: &mut Vec<AllocationEvent>) -> (dropped: u64)
        requires
            old(self).wf(),
        ensures
            final(self).wf(),
            final(output)@ == old(output)@ + old(self).events(),
            dropped == old(self).dropped(),
            final(self).events() == Seq::<AllocationEvent>::empty(),
            final(self).dropped() == 0,
            final(self).capacity() == old(self).capacity(),
            final(self).threshold() == old(self).threshold(),
    {
        loop
            invariant
                self.capacity() == old(self).capacity(),
                self.threshold() == old(self).threshold(),
                self.dropped == old(self).dropped(),
                output@ + self.events() == old(output)@ + old(self).events(),
            ensures
                self.capacity() == old(self).capacity(),
                self.threshold() == old(self).threshold(),
                self.dropped == old(self).dropped(),
                output@ + self.events() == old(output)@ + old(self).events(),
                self.events().len() == 0,
            decreases self.events().len(),
        {
            let ghost waiting = self.events();
            match queue_pop(&mut self.queue) {
                Some(event) => {
                    let ghost before = output@;
                    output.push(event);
                    assert(output@ + self.events() =~= before + waiting);
                },
                None => {
                    break ;
                },
            }
        }
        assert(self.events() =~= Seq::<AllocationEvent>::empty());
        let dropped = self.dropped;
        self.dropped = 0;
        dropped
    }

    #[must_use]
    pub fn is_empty(&self) -> (empty: bool)
        ensures
            empty == (self.events().len() == 0 && self.dropped() == 0),
    {
        queue_len(&self.queue) == 0 && self.dropped == 0
    }

    /// Whether the memory of a buffer of the configured size can be addressed.
    #[must_use]
    pub fn fits(config: &TracerConfig) -> (fits: bool)
        ensures
            fits == Self::addressable(config.ring_buffer_bytes),
    {
        proof {
            Self::lemma_slots(config.ring_buffer_bytes);
        }
        let event_size: usize = core::mem::size_of::<AllocationEvent>();
        let largest: usize = isize::MAX as usize;
        let by_size: usize = match event_size.checked_add(32) {
            Some(slot_size) => largest / slot_size,
            None => 0,
        };
        proof {
            if event_size + 32 > usize::MAX {
                assert(largest as int / (event_size + 32) == 0) by (nonlinear_arith)
                    requires
                        0 <= largest < event_size + 32,
                ;
            }
        }
        let slots: usize = Self::slots(config.ring_buffer_bytes);
        slots <= by_size || slots <= largest / 256
    }

    fn slots(bytes: usize) -> (slots: usize)
        ensures
            slots == Self::slots_in(bytes),
            0 < slots,
    {
        let event_size: usize = core::mem::size_of::<AllocationEvent>();
        let event_size: usize = if event_size == 0 { 1 } else { event_size };
        let max_events: usize = bytes / event_size;
        assert(0 <= bytes as int / event_size as int) by (nonlinear_arith)
            requires
                event_size > 0,
        ;
        if max_events == 0 {
            1024
        } else {
            max_events
        }
    }

    /// An empty buffer of the configured size.
    #[must_use]
    pub fn new(config: &TracerConfig) -> (buffer: Self)
        requires
            Self::addressable(config.ring_buffer_bytes),
        ensures
            buffer.wf(),
            buffer.events() == Seq::<AllocationEvent>::empty(),
            buffer.dropped() == 0,
            buffer.capacity() == Self::slots_in(config.ring_buffer_bytes),
            buffer.threshold() == Self::threshold_of(
                Self::slots_in(config.ring_buffer_bytes),
            ),
    {
        proof {
            Self::lemma_slots(config.ring_buffer_bytes);
        }
        let slots: usize = Self::slots(config.ring_buffer_bytes);
        ThreadBuffer {
            dropped: 0,
            flush_threshold: slots - slots / 4,
            queue: queue_new(slots),
        }
    }

    /// Push a new event into the buffer. Returns whether the caller should
    /// trigger a drain.
    #[must_use]
    pub fn record(&mut self, event: AllocationEvent) -> (action: DrainAction)
        requires
            old(self).wf(),
        ensures
            final(self).wf(),
            final(self).capacity() == old(self).capacity(),
            final(self).threshold() == old(self).threshold(),
            old(self).events().len() < old(self).capacity() ==> {
                &&& final(self).events() == old(self).events().push(event)
                &&& final(self).dropped() == old(self).dropped()
                &&& action == (if final(self).events().len() >= final(self).threshold() {
                    DrainAction::FlushPending
                } else {
                    DrainAction::Noop
                })
            },
            old(self).events().len() == old(self).capacity() ==> {
                &&& final(self).events() == old(self).events()
                &&& final(self).dropped() == old(self).dropped().wrapping_add(1)
                &&& action == DrainAction::FlushPending
            },
    {
        match queue_push(&mut self.queue, event) {
            Ok(()) => {
                if queue_len(&self.queue) >= self.flush_threshold {
                    DrainAction::FlushPending
                } else {
                    DrainAction::Noop
                }
            },
            Err(_) => {
                self.dropped = self.dropped.wrapping_add(1);
                DrainAction::FlushPending
            },
        }
    }
}

} // verus!
