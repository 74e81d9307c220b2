//! Allocation events and their builder.

use std::time::Instant;
use vstd::prelude::*;

verus! {

/// A point of the monotonic clock. The library carries such values and never
/// looks inside them.
#[verifier::external_type_specification]
#[verifier::external_body]
pub struct ExInstant(std::time::Instant);

/// `std::time::Instant::now`, the current reading of the monotonic clock. It
/// differs from call to call, so nothing is claimed of it.
pub assume_specification[ std::time::Instant::now ]() -> std::time::Instant;

/// Unique identifier for an interned stack trace.
pub type StackId = u64;

#[derive(Debug, Clone, Copy, PartialEq, Eq, Structural)]
pub enum EventKind {
    Allocation,
    Deallocation,
    /// Signifies that the tracer dropped one or more events due to back pressure.
    Dropped { count: u64 },
}

/// Encoding of allocation events drained from per-thread buffers.
#[derive(Debug, Clone, Copy)]
pub struct AllocationEvent {
    pub address: usize,
    pub kind: EventKind,
    pub size: usize,
    pub stack_id: StackId,
    pub timestamp: Instant,
}

/// What an event says, apart from the moment at which it was built.
#[verifier::ext_equal]
pub struct EventView {
    pub address: usize,
    pub kind: EventKind,
    pub size: usize,
    pub stack_id: StackId,
}

impl View for AllocationEvent {
    type V = EventView;

    open spec fn view(&self) -> EventView {
        EventView {
            address: self.address,
            kind: self.kind,
            size: self.size,
            stack_id: self.stack_id,
        }
    }
}

impl EventView {
    /// The event that [`AllocationEvent::new`] starts from.
    pub open spec fn blank(kind: EventKind) -> EventView {
        EventView { address: 0, kind, size: 0, stack_id: 0 }
    }

    /// What a sequence of events says.
    pub open spec fn all(events: Seq<AllocationEvent>) -> Seq<EventView> {
        events.map_values(|event: AllocationEvent| event@)
    }
}

impl AllocationEvent {
    #[must_use]
    pub fn address(self, address: usize) -> (event: Self)
        ensures
            event == (AllocationEvent { address, ..self }),
    {
        AllocationEvent { address, ..self }
    }

    /// An event of the given kind with nothing else filled in, stamped with
    /// the current time.
    #[must_use]
    pub fn new(kind: EventKind) -> (event: Self)
        ensures
            event@ == EventView::blank(kind),
            event.kind == kind,
            event.address == 0,
            event.size == 0,
            event.stack_id == 0,
    {
        AllocationEvent { address: 0, kind, size: 0, stack_id: 0, timestamp: Instant::now() }
    }

    #[must_use]
    pub fn size(self, size: usize) -> (event: Self)
        ensures
            event == (AllocationEvent { size, ..self }),
    {
        AllocationEvent { size, ..self }
    }

    #[must_use]
    pub fn stack_id(self, stack_id: StackId) -> (event: Self)
        ensures
            event == (AllocationEvent { stack_id, ..self }),
    {
        AllocationEvent { stack_id, ..self }
    }

    #[must_use]
    pub fn timestamp(self, timestamp: Instant) -> (event: Self)
        ensures
            event == (AllocationEvent { timestamp, ..self }),
    {
        AllocationEvent { timestamp, ..self }
    }
}

impl From<EventKind> for AllocationEvent {
    fn from(kind: EventKind) -> (event: Self)
        ensures
            event@ == EventView::blank(kind),
            event.kind == kind,
            event.address == 0,
            event.size == 0,
            event.stack_id == 0,
    {
        AllocationEvent::new(kind)
    }
}

impl vstd::std_specs::convert::FromSpecImpl<EventKind> for AllocationEvent {
    /// The timestamp is not determined by the kind, so the whole event is not.
    open spec fn obeys_from_spec() -> bool {
        false
    }

    open spec fn from_spec(kind: EventKind) -> AllocationEvent {
        arbitrary()
    }
}

} // verus!
