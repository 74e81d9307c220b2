use std::mem::size_of;
use tracemalloc::{AllocationEvent, DrainAction, EventKind, ThreadBuffer, TracerConfig};

fn allocation() -> AllocationEvent {
    AllocationEvent::new(EventKind::Allocation)
        .address(0)
        .size(1)
        .stack_id(0)
}

#[test]
fn signals_flush_when_capacity_reached() {
    let mut config = TracerConfig::default();

    config.ring_buffer_bytes = size_of::<AllocationEvent>() * 2;

    let mut buffer = ThreadBuffer::new(&config);

    assert_eq!(buffer.record(allocation()), DrainAction::Noop);

    assert_eq!(buffer.record(allocation()), DrainAction::FlushPending);
}

#[test]
fn drain_transfers_and_clears_events() {
    let buffer_config = TracerConfig::default();

    let mut buffer = ThreadBuffer::new(&buffer_config);
    let _ = buffer.record(allocation());

    let mut drained = Vec::new();

    let dropped = buffer.drain_into(&mut drained);

    assert!(buffer.is_empty());

    assert_eq!(drained.len(), 1);
    assert_eq!(dropped, 0);
}

#[test]
fn tracks_dropped_events_when_queue_full() {
    let mut config = TracerConfig::default();

    config.ring_buffer_bytes = size_of::<AllocationEvent>();

    let mut buffer = ThreadBuffer::new(&config);
    let _ = buffer.record(allocation());

    // This should be dropped because the queue capacity is 1.
    let _ = buffer.record(allocation());

    let mut drained = Vec::new();

    let dropped = buffer.drain_into(&mut drained);

    assert_eq!(drained.len(), 1);
    assert_eq!(dropped, 1);
}

#[test]
fn keeps_the_first_events_in_order() {
    let config = TracerConfig {
        ring_buffer_bytes: size_of::<AllocationEvent>() * 3,
        ..TracerConfig::default()
    };
    let mut buffer = ThreadBuffer::new(&config);
    assert!(buffer.is_empty());
    for address in 0..5usize {
        let _ = buffer.record(allocation().address(address).size(10 + address));
    }
    assert!(!buffer.is_empty());

    let mut drained = vec![allocation().address(99)];
    assert_eq!(buffer.drain_into(&mut drained), 2);
    let addresses: Vec<(usize, usize)> = drained
        .iter()
        .map(|event| (event.address, event.size))
        .collect();
    assert_eq!(addresses, vec![(99, 1), (0, 10), (1, 11), (2, 12)]);

    let mut again = Vec::new();
    assert_eq!(buffer.drain_into(&mut again), 0);
    assert!(again.is_empty());
}

#[test]
fn asks_for_a_drain_at_three_quarters() {
    let config = TracerConfig {
        ring_buffer_bytes: size_of::<AllocationEvent>() * 8,
        ..TracerConfig::default()
    };
    let mut buffer = ThreadBuffer::new(&config);
    for _ in 0..5 {
        assert_eq!(buffer.record(allocation()), DrainAction::Noop);
    }
    assert_eq!(buffer.record(allocation()), DrainAction::FlushPending);
}

#[test]
fn a_buffer_too_small_for_one_event_gets_a_default_size() {
    let config = TracerConfig {
        ring_buffer_bytes: 1,
        ..TracerConfig::default()
    };
    let mut buffer = ThreadBuffer::new(&config);
    for _ in 0..1030 {
        let _ = buffer.record(allocation());
    }
    let mut drained = Vec::new();
    assert_eq!(buffer.drain_into(&mut drained), 6);
    assert_eq!(drained.len(), 1024);
}

#[test]
fn a_buffer_that_holds_only_losses_is_not_empty() {
    let config = TracerConfig {
        ring_buffer_bytes: size_of::<AllocationEvent>(),
        ..TracerConfig::default()
    };
    let mut buffer = ThreadBuffer::new(&config);
    let _ = buffer.record(allocation());
    let _ = buffer.record(allocation());
    let mut drained = Vec::new();
    assert_eq!(buffer.drain_into(&mut drained), 1);
    assert!(buffer.is_empty());
}

#[test]
fn says_whether_a_buffer_can_be_addressed() {
    assert!(ThreadBuffer::fits(&TracerConfig::default()));
    assert!(ThreadBuffer::fits(&TracerConfig {
        ring_buffer_bytes: 0,
        ..TracerConfig::default()
    }));
    assert!(!ThreadBuffer::fits(&TracerConfig {
        ring_buffer_bytes: usize::MAX,
        ..TracerConfig::default()
    }));
}
