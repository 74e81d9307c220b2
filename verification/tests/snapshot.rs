use tracemalloc::{Snapshot, SnapshotDelta, SnapshotRecord};

fn record(stack_id: u64, allocations: u64, current_bytes: i64) -> SnapshotRecord {
    SnapshotRecord {
        allocations,
        current_bytes,
        deallocations: allocations / 2,
        stack: None,
        stack_id,
        total_allocated: allocations * 10,
        total_freed: allocations * 5,
    }
}

#[test]
fn delta_subtracts_what_was_there_before() {
    let older = Snapshot::new(vec![record(1, 10, 100), record(2, 4, 40)], 3);
    let newer = Snapshot::new(vec![record(1, 16, 70), record(3, 2, 20)], 1);
    assert!(SnapshotDelta::comparable(&newer, &older));
    let delta = SnapshotDelta::from_snapshots(&newer, &older);
    assert_eq!(delta.dropped_events(), -2);
    assert_eq!(delta.records().len(), 2);
    let changed = &delta.records()[0];
    assert_eq!(changed.stack_id, 1);
    assert_eq!(changed.allocations, 6);
    assert_eq!(changed.current_bytes, -30);
    assert_eq!(changed.deallocations, 3);
    assert_eq!(changed.total_allocated, 60);
    assert_eq!(changed.total_freed, 30);
    let added = &delta.records()[1];
    assert_eq!(added.stack_id, 3);
    assert_eq!(added.allocations, 2);
    assert_eq!(added.current_bytes, 20);
}

#[test]
fn counters_that_went_down_show_as_zero() {
    let older = Snapshot::new(vec![record(1, 10, 100)], 0);
    let newer = Snapshot::new(vec![record(1, 4, 50)], 0);
    let delta = SnapshotDelta::from_snapshots(&newer, &older);
    assert_eq!(delta.records()[0].allocations, 0);
    assert_eq!(delta.records()[0].deallocations, 0);
    assert_eq!(delta.records()[0].total_allocated, 0);
    assert_eq!(delta.records()[0].total_freed, 0);
    assert_eq!(delta.records()[0].current_bytes, -50);
}

#[test]
fn dropped_events_stay_in_range() {
    let none = Snapshot::new(vec![], 0);
    let all = Snapshot::new(vec![], u64::MAX);
    assert_eq!(SnapshotDelta::from_snapshots(&all, &none).dropped_events(), i64::MAX);
    assert_eq!(SnapshotDelta::from_snapshots(&none, &all).dropped_events(), i64::MIN);
}

#[test]
fn the_first_earlier_record_of_a_stack_counts() {
    let older = Snapshot::new(vec![record(1, 2, 20), record(1, 4, 40)], 0);
    let newer = Snapshot::new(vec![record(1, 8, 80)], 0);
    let delta = SnapshotDelta::from_snapshots(&newer, &older);
    assert_eq!(delta.records()[0].allocations, 6);
    assert_eq!(delta.records()[0].current_bytes, 60);
}

#[test]
fn a_snapshot_does_not_differ_from_itself() {
    let snapshot = Snapshot::new(vec![record(1, 2, 20), record(2, 4, 40)], 7);
    let delta = SnapshotDelta::from_snapshots(&snapshot, &snapshot);
    assert_eq!(delta.dropped_events(), 0);
    for record in delta.records() {
        assert_eq!(record.allocations, 0);
        assert_eq!(record.current_bytes, 0);
        assert_eq!(record.deallocations, 0);
        assert_eq!(record.total_allocated, 0);
        assert_eq!(record.total_freed, 0);
    }
}

#[test]
fn older_plus_change_is_newer() {
    let older = Snapshot::new(vec![record(1, 2, 20)], 1);
    let newer = Snapshot::new(vec![record(1, 6, 90)], 4);
    let delta = SnapshotDelta::from_snapshots(&newer, &older);
    assert_eq!(delta.records()[0].allocations + 2, 6);
    assert_eq!(delta.records()[0].current_bytes + 20, 90);
    assert_eq!(delta.dropped_events() + 1, 4);
}

#[test]
fn bytes_too_far_apart_cannot_be_compared() {
    let low = Snapshot::new(vec![record(1, 0, i64::MIN)], 0);
    let high = Snapshot::new(vec![record(1, 0, i64::MAX)], 0);
    assert!(!SnapshotDelta::comparable(&high, &low));
    assert!(!SnapshotDelta::comparable(&low, &high));
    assert!(SnapshotDelta::comparable(&high, &high));
}

#[test]
fn a_delta_shows_what_it_was_made_of() {
    let delta = SnapshotDelta::new(vec![record(5, 1, 2)], -9);
    assert_eq!(delta.dropped_events(), -9);
    assert_eq!(delta.records()[0].stack_id, 5);
}
