use tracemalloc::{
    Aggregator, AllocationEvent, AllocationStats, EventKind, FrameMetadata, Snapshot,
    SnapshotRecord, StackTable,
};

fn event(kind: EventKind, address: usize, size: usize, stack_id: u64) -> AllocationEvent {
    AllocationEvent::new(kind)
        .address(address)
        .size(size)
        .stack_id(stack_id)
}

fn record_of(snapshot: &Snapshot, stack_id: u64) -> &SnapshotRecord {
    snapshot
        .records()
        .iter()
        .find(|record| record.stack_id == stack_id)
        .expect("missing record")
}

fn numbers(snapshot: &Snapshot) -> Vec<(u64, u64, i64, u64, u64, u64)> {
    let mut numbers: Vec<(u64, u64, i64, u64, u64, u64)> = snapshot
        .records()
        .iter()
        .map(|record| {
            (
                record.stack_id,
                record.allocations,
                record.current_bytes,
                record.deallocations,
                record.total_allocated,
                record.total_freed,
            )
        })
        .collect();
    numbers.sort();
    numbers
}

#[test]
fn aggregates_allocations_and_deallocations() {
    let mut aggregator = Aggregator::new();
    aggregator.ingest(vec![
        event(EventKind::Allocation, 0x1, 128, 42),
        event(EventKind::Allocation, 0x2, 64, 42),
        event(EventKind::Deallocation, 0x2, 64, 42),
    ]);

    let snapshot = aggregator.snapshot();
    let record = snapshot
        .records()
        .iter()
        .find(|record| record.stack_id == 42)
        .expect("missing stack 42");

    assert_eq!(record.current_bytes, 128);
    assert_eq!(record.allocations, 2);
    assert_eq!(record.deallocations, 1);
    assert_eq!(record.total_allocated, 192);
    assert_eq!(record.total_freed, 64);
}

#[test]
fn tracks_dropped_events() {
    let mut aggregator = Aggregator::new();
    aggregator.ingest(vec![event(EventKind::Dropped { count: 5 }, 0, 0, 0)]);

    let snapshot = aggregator.snapshot();
    assert_eq!(snapshot.dropped_events(), 5);
}

#[test]
fn new_aggregator_shows_nothing() {
    let snapshot = Aggregator::new().snapshot();
    assert!(snapshot.records().is_empty());
    assert_eq!(snapshot.dropped_events(), 0);
}

#[test]
fn default_statistics_are_zero() {
    let stats = AllocationStats::default();
    assert_eq!(stats.allocations, 0);
    assert_eq!(stats.current_bytes, 0);
    assert_eq!(stats.deallocations, 0);
    assert_eq!(stats.total_allocated, 0);
    assert_eq!(stats.total_freed, 0);
}

#[test]
fn reset_clears_statistics_and_dropped_events() {
    let mut aggregator = Aggregator::default();
    aggregator.ingest(vec![
        event(EventKind::Allocation, 0x1, 8, 1),
        event(EventKind::Dropped { count: 3 }, 0, 0, 0),
    ]);
    aggregator.reset();

    let snapshot = aggregator.snapshot();
    assert!(snapshot.records().is_empty());
    assert_eq!(snapshot.dropped_events(), 0);
}

#[test]
fn uncountable_sizes_count_as_dropped() {
    let mut aggregator = Aggregator::new();
    aggregator.ingest(vec![
        event(EventKind::Allocation, 0x1, usize::MAX, 1),
        event(EventKind::Deallocation, 0x1, usize::MAX, 1),
    ]);

    let snapshot = aggregator.snapshot();
    assert!(snapshot.records().is_empty());
    assert_eq!(snapshot.dropped_events(), 2);
}

#[test]
fn counters_stop_at_the_ends_of_their_range() {
    let largest = i64::MAX as usize;
    let mut aggregator = Aggregator::new();
    aggregator.ingest(vec![
        event(EventKind::Allocation, 0x1, largest, 1),
        event(EventKind::Allocation, 0x2, largest, 1),
        event(EventKind::Allocation, 0x3, largest, 1),
        event(EventKind::Deallocation, 0x1, largest, 2),
        event(EventKind::Deallocation, 0x2, largest, 2),
        event(EventKind::Dropped { count: u64::MAX }, 0, 0, 0),
        event(EventKind::Dropped { count: 1 }, 0, 0, 0),
    ]);

    let snapshot = aggregator.snapshot();
    let first = record_of(&snapshot, 1);
    assert_eq!(first.current_bytes, i64::MAX);
    assert_eq!(first.total_allocated, u64::MAX);
    assert_eq!(first.allocations, 3);
    let second = record_of(&snapshot, 2);
    assert_eq!(second.current_bytes, i64::MIN);
    assert_eq!(second.total_freed, 18_446_744_073_709_551_614);
    assert_eq!(snapshot.dropped_events(), u64::MAX);
}

#[test]
fn snapshot_ranks_by_current_bytes() {
    let mut aggregator = Aggregator::new();
    aggregator.ingest(vec![
        event(EventKind::Allocation, 0x1, 10, 1),
        event(EventKind::Allocation, 0x2, 30, 2),
        event(EventKind::Allocation, 0x3, 20, 3),
        event(EventKind::Deallocation, 0x4, 5, 4),
        event(EventKind::Allocation, 0x5, 25, 5),
    ]);

    let snapshot = aggregator.snapshot();
    let order: Vec<(u64, i64)> = snapshot
        .records()
        .iter()
        .map(|record| (record.stack_id, record.current_bytes))
        .collect();
    assert_eq!(order, vec![(2, 30), (5, 25), (3, 20), (1, 10), (4, -5)]);
}

#[test]
fn events_may_come_in_parts() {
    let events = vec![
        event(EventKind::Allocation, 0x1, 10, 1),
        event(EventKind::Allocation, 0x2, 30, 2),
        event(EventKind::Deallocation, 0x1, 10, 1),
        event(EventKind::Dropped { count: 7 }, 0, 0, 0),
    ];

    let mut whole = Aggregator::new();
    whole.ingest(events.clone());
    let mut parts = Aggregator::new();
    parts.ingest(events[..2].to_vec());
    parts.ingest(events[2..].to_vec());

    assert_eq!(numbers(&whole.snapshot()), numbers(&parts.snapshot()));
    assert_eq!(whole.snapshot().dropped_events(), 7);
    assert_eq!(parts.snapshot().dropped_events(), 7);
}

#[test]
fn order_of_events_makes_no_difference() {
    let mut events = vec![
        event(EventKind::Allocation, 0x1, 10, 1),
        event(EventKind::Deallocation, 0x2, 30, 2),
        event(EventKind::Deallocation, 0x1, 4, 1),
        event(EventKind::Dropped { count: 2 }, 0, 0, 0),
        event(EventKind::Allocation, 0x3, 6, 2),
    ];

    let mut forward = Aggregator::new();
    forward.ingest(events.clone());
    events.reverse();
    let mut backward = Aggregator::new();
    backward.ingest(events);

    let expected = vec![(1, 1, 6, 1, 10, 4), (2, 1, -24, 1, 6, 30)];
    assert_eq!(numbers(&forward.snapshot()), expected);
    assert_eq!(numbers(&backward.snapshot()), expected);
}

#[test]
fn freeing_restores_current_bytes() {
    let mut aggregator = Aggregator::new();
    aggregator.ingest(vec![event(EventKind::Allocation, 0x1, 100, 1)]);
    aggregator.ingest(vec![
        event(EventKind::Allocation, 0x2, 50, 1),
        event(EventKind::Deallocation, 0x2, 50, 1),
    ]);
    assert_eq!(record_of(&aggregator.snapshot(), 1).current_bytes, 100);
}

#[test]
fn snapshot_carries_known_stacks_only() {
    let mut table = StackTable::new();
    table.insert_with_id(7, vec![FrameMetadata::new("a.py", "f", 3)]);
    let mut aggregator = Aggregator::new();
    aggregator.ingest(vec![
        event(EventKind::Allocation, 0x1, 10, 7),
        event(EventKind::Allocation, 0x2, 20, 8),
    ]);

    let snapshot = aggregator.snapshot_with_stacks(&table);
    let known = record_of(&snapshot, 7).stack.as_ref().expect("missing stack");
    assert_eq!(known.id(), 7);
    assert_eq!(known.frames()[0].filename.as_ref(), "a.py");
    assert!(record_of(&snapshot, 8).stack.is_none());
    assert!(record_of(&aggregator.snapshot(), 7).stack.is_none());
}
