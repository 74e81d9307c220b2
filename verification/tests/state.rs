use std::time::Duration;
use tracemalloc::{
    AllocationEvent, EventKind, FrameMetadata, Snapshot, SnapshotRecord, Surroundings, Tracer,
    TracerBuilder, TracerConfig, WorkerAction, SAMPLING_RATE_ONE,
};

fn allocation(address: usize, size: usize, stack_id: u64) -> AllocationEvent {
    AllocationEvent::new(EventKind::Allocation)
        .address(address)
        .size(size)
        .stack_id(stack_id)
}

fn total_allocations(snapshot: &Snapshot) -> u64 {
    snapshot.records().iter().map(|record| record.allocations).sum()
}

fn record_with<'a>(snapshot: &'a Snapshot, filename: &str) -> &'a SnapshotRecord {
    snapshot
        .records()
        .iter()
        .find(|record| {
            record
                .stack
                .as_ref()
                .is_some_and(|stack| stack.frames()[0].filename.as_ref() == filename)
        })
        .expect("missing record")
}

#[test]
fn disabled_tracer_drops_events() {
    let mut tracer = Tracer::builder().start_enabled(false).finish();

    tracer.record_event(
        AllocationEvent::new(EventKind::Allocation)
            .address(0x1)
            .size(16)
            .stack_id(7),
    );

    assert!(tracer.snapshot().records().is_empty());
}

#[test]
fn enabled_tracer_collects_events() {
    let mut tracer = Tracer::new();

    tracer.record_event(
        AllocationEvent::new(EventKind::Allocation)
            .address(0x1)
            .size(16)
            .stack_id(7),
    );

    assert_eq!(tracer.snapshot().records().len(), 1);
}

#[test]
fn snapshot_drains_thread_buffers() {
    let mut tracer = Tracer::new();

    tracer.record_event(
        AllocationEvent::new(EventKind::Allocation)
            .address(0x1)
            .size(8)
            .stack_id(99),
    );

    let snapshot = tracer.snapshot();

    assert!(
        snapshot.records().iter().any(|record| record.stack_id == 99),
        "expected stack 99 in snapshot"
    );
}

#[test]
fn snapshot_includes_stack_metadata_when_available() {
    let mut tracer = Tracer::new();

    tracer
        .stack_table()
        .insert_with_id(123, vec![FrameMetadata::new("file.py", "fn", 1)]);

    tracer.record_event(
        AllocationEvent::new(EventKind::Allocation)
            .address(0x1)
            .size(8)
            .stack_id(123),
    );

    let snapshot = tracer.snapshot();

    let record = snapshot
        .records()
        .iter()
        .find(|record| record.stack_id == 123)
        .expect("missing stack 123");

    assert!(record.stack.is_some(), "expected stack metadata");
}

#[test]
fn hot_path_stack_capture_produces_metadata() {
    let mut tracer = Tracer::builder().capture_native(true).finish();
    tracer.record_allocation(0x1, 32);

    let snapshot = tracer.snapshot();
    let record = snapshot.records().first().expect("missing allocation");
    let stack = record.stack.as_ref().expect("missing captured stack");

    assert!(!stack.frames().is_empty(), "expected captured frames");
}

#[test]
fn python_frames_are_prioritized_when_provided() {
    let mut tracer = Tracer::builder()
        .capture_native(true)
        .python_skip_frames(1)
        .finish();

    let frames = vec![
        FrameMetadata::new("internal.py", "wrapper", 1),
        FrameMetadata::new("app.py", "handler", 42),
    ];

    tracer.record_allocation_with_frames(0xdead, 24, &frames);

    let snapshot = tracer.snapshot();
    let record = snapshot.records().first().expect("missing allocation");
    let stack = record.stack.as_ref().expect("missing captured stack");

    assert_eq!(stack.frames()[0].filename.as_ref(), "app.py");
    assert_eq!(stack.frames()[0].function.as_ref(), "handler");
}

#[test]
fn deallocation_reuses_allocation_stack_id() {
    let mut tracer = Tracer::builder().capture_native(true).finish();

    let address = 0xfeed;

    tracer.record_allocation(address, 64);
    tracer.record_deallocation(address, 64);

    let snapshot = tracer.snapshot();

    let record = snapshot.records().first().expect("missing allocation record");

    assert_eq!(record.allocations, 1);
    assert_eq!(record.deallocations, 1);
    assert_eq!(record.current_bytes, 0);
}

#[test]
fn reallocation_moves_pointer_and_updates_counters() {
    let mut tracer = Tracer::builder().capture_native(false).finish();

    tracer.record_allocation(0x1, 32);
    tracer.record_reallocation(0x1, 32, 0x2, 64);

    let snapshot = tracer.snapshot();
    let record = snapshot.records().first().expect("missing allocation");

    assert_eq!(record.allocations, 2);
    assert_eq!(record.deallocations, 1);
    assert_eq!(record.current_bytes, 64);
}

#[test]
fn reallocation_with_python_frames_updates_metadata() {
    let mut tracer = Tracer::builder().capture_native(false).finish();
    tracer.record_allocation(0x1, 16);

    let frames = vec![FrameMetadata::new("resize.py", "grow", 99)];
    tracer.record_reallocation_with_frames(0x1, 16, 0x2, 32, &frames);

    let snapshot = tracer.snapshot();
    let record = snapshot.records().first().expect("missing allocation");
    let stack = record.stack.as_ref().expect("missing stack metadata");

    assert_eq!(stack.frames()[0].filename.as_ref(), "resize.py");
    assert_eq!(record.current_bytes, 32);
}

#[test]
fn failed_reallocation_counts_as_two_dropped_events() {
    let mut tracer = Tracer::new();
    tracer.record_reallocation(0xbeef, 10, 0xcafe, 20);

    let snapshot = tracer.snapshot();

    assert_eq!(snapshot.dropped_events(), 2);
    assert!(snapshot.records().is_empty());
}

#[test]
fn sampling_rate_zero_disables_tracing() {
    let config = TracerConfig {
        capture_native: false,
        sampling_rate: 0,
        ..TracerConfig::default()
    };

    let mut tracer = Tracer::with_config(config);

    tracer.record_allocation(0x1, 64);
    tracer.record_deallocation(0x1, 64);

    let snapshot = tracer.snapshot();

    assert!(
        snapshot.records().is_empty(),
        "sampling disabled should skip events"
    );

    assert_eq!(snapshot.dropped_events(), 0);
}

#[test]
fn sampling_bytes_limits_events() {
    let config = TracerConfig {
        capture_native: false,
        sampling_bytes: Some(128),
        ..TracerConfig::default()
    };

    let mut tracer = Tracer::with_config(config);

    for offset in 0..10usize {
        tracer.record_allocation(0x1000 + offset, 32);
    }

    let snapshot = tracer.snapshot();

    let total_allocs: u64 = snapshot
        .records()
        .iter()
        .map(|record| record.allocations)
        .sum();

    let total_bytes: i64 = snapshot
        .records()
        .iter()
        .map(|record| record.current_bytes)
        .sum();

    assert_eq!(
        total_allocs, 2,
        "expected two sampled allocations at 128-byte intervals"
    );

    assert_eq!(total_bytes, 64);
    assert_eq!(snapshot.dropped_events(), 0);
}

#[test]
fn unknown_deallocation_counts_as_dropped() {
    let mut tracer = Tracer::new();
    tracer.record_deallocation(0xbeef, 16);

    let snapshot = tracer.snapshot();

    assert_eq!(snapshot.dropped_events(), 1);
    assert!(snapshot.records().is_empty());
}

#[test]
fn disabled_tracer_ignores_every_recording() {
    let mut tracer = Tracer::new();
    tracer.record_allocation(0x1, 8);
    tracer.disable();
    assert!(!tracer.enabled());
    tracer.record_allocation(0x2, 8);
    tracer.record_deallocation(0x1, 8);
    tracer.record_reallocation(0x1, 8, 0x3, 16);
    tracer.record_event(allocation(0x4, 8, 5));
    let snapshot = tracer.snapshot();
    assert_eq!(total_allocations(&snapshot), 1);
    assert_eq!(snapshot.records()[0].deallocations, 0);
    assert_eq!(snapshot.dropped_events(), 0);

    tracer.enable();
    assert!(tracer.enabled());
    tracer.record_deallocation(0x1, 8);
    assert_eq!(tracer.snapshot().records()[0].deallocations, 1);
}

#[test]
fn deallocation_without_a_size_uses_the_recorded_one() {
    let mut tracer = Tracer::default();
    tracer.record_allocation(0x1, 40);
    tracer.record_deallocation_with_frames(0x1, 0, &[FrameMetadata::new("free.py", "f", 1)]);
    let snapshot = tracer.snapshot();
    assert_eq!(snapshot.records().len(), 1);
    assert_eq!(snapshot.records()[0].total_freed, 40);
    assert_eq!(snapshot.records()[0].current_bytes, 0);
}

#[test]
fn a_second_deallocation_is_unknown() {
    let mut tracer = Tracer::new();
    tracer.record_allocation(0x1, 40);
    tracer.record_deallocation(0x1, 40);
    tracer.record_deallocation(0x1, 40);
    let snapshot = tracer.snapshot();
    assert_eq!(snapshot.records()[0].deallocations, 1);
    assert_eq!(snapshot.dropped_events(), 1);
}

#[test]
fn reallocation_to_size_zero_is_a_deallocation() {
    let mut tracer = Tracer::new();
    tracer.record_allocation(0x1, 40);
    tracer.record_reallocation(0x1, 0, 0x2, 0);
    let snapshot = tracer.snapshot();
    assert_eq!(snapshot.records()[0].allocations, 1);
    assert_eq!(snapshot.records()[0].deallocations, 1);
    assert_eq!(snapshot.records()[0].total_freed, 40);
}

#[test]
fn reallocation_is_attributed_to_two_stacks() {
    let mut tracer = Tracer::new();
    let before = [FrameMetadata::new("before.py", "f", 1)];
    let after = [FrameMetadata::new("after.py", "g", 2)];
    tracer.record_allocation_with_frames(0x1, 10, &before);
    tracer.record_reallocation_with_frames(0x1, 10, 0x2, 25, &after);
    let snapshot = tracer.snapshot();
    let old = record_with(&snapshot, "before.py");
    assert_eq!((old.allocations, old.deallocations, old.current_bytes), (1, 1, 0));
    let new = record_with(&snapshot, "after.py");
    assert_eq!((new.allocations, new.deallocations, new.current_bytes), (1, 0, 25));
}

#[test]
fn a_fraction_samples_the_numbers_below_it() {
    let config = TracerConfig {
        sampling_rate: SAMPLING_RATE_ONE / 4,
        ..TracerConfig::default()
    };
    let mut tracer = Tracer::with_config(config);
    let below = Surroundings { number: u64::MAX / 4, native: &[] };
    let above = Surroundings { number: u64::MAX / 4 + 1, native: &[] };
    tracer.record_allocation_in(0x1, 8, None, above);
    assert!(tracer.snapshot().records().is_empty());
    tracer.record_allocation_in(0x2, 8, None, below);
    assert_eq!(total_allocations(&tracer.snapshot()), 1);

    // An unsampled address is no loss.
    tracer.record_deallocation(0x1, 8);
    tracer.record_reallocation(0x1, 8, 0x3, 8);
    assert_eq!(tracer.snapshot().dropped_events(), 0);

    // The old allocation ends even where the new one is not sampled.
    tracer.record_reallocation_in(0x2, 8, 0x4, 8, None, above);
    let snapshot = tracer.snapshot();
    assert_eq!(snapshot.records()[0].allocations, 1);
    assert_eq!(snapshot.records()[0].deallocations, 1);
}

#[test]
fn a_drawn_fraction_samples_some_allocations() {
    let config = TracerConfig {
        sampling_rate: SAMPLING_RATE_ONE / 2,
        ..TracerConfig::default()
    };
    let mut tracer = Tracer::with_config(config);
    for address in 0..4000usize {
        tracer.record_allocation(0x1000 + address, 1);
    }
    let sampled = total_allocations(&tracer.snapshot());
    assert!(sampled > 1000);
    assert!(sampled < 3000);
}

#[test]
fn given_native_frames_complete_the_stack() {
    let mut tracer = Tracer::builder().capture_native(true).max_stack_depth(2).finish();
    let native = [FrameMetadata::new("n.c", "g", 5), FrameMetadata::new("m.c", "h", 6)];
    let python = [FrameMetadata::new("p.py", "f", 4)];
    tracer.record_allocation_in(0x1, 8, Some(&python), Surroundings { number: 0, native: &native });
    let snapshot = tracer.snapshot();
    let stack = snapshot.records()[0].stack.as_ref().expect("missing stack");
    assert_eq!(stack.frames(), &[python[0].clone(), native[0].clone()]);
}

#[test]
fn reset_forgets_allocations() {
    let mut tracer = Tracer::new();
    tracer.record_allocation(0x1, 8);
    tracer.record_deallocation(0x9, 8);
    tracer.reset();
    let snapshot = tracer.snapshot();
    assert!(snapshot.records().is_empty());
    assert_eq!(snapshot.dropped_events(), 0);
    tracer.record_deallocation(0x1, 8);
    assert_eq!(tracer.snapshot().dropped_events(), 1);
}

#[test]
fn snapshots_without_events_between_agree() {
    let mut tracer = Tracer::new();
    tracer.record_event(allocation(0x1, 8, 1));
    tracer.record_event(allocation(0x2, 9, 2));
    let first = tracer.snapshot();
    let second = tracer.snapshot();
    let numbers = |snapshot: &Snapshot| -> Vec<(u64, i64)> {
        snapshot
            .records()
            .iter()
            .map(|record| (record.stack_id, record.current_bytes))
            .collect()
    };
    assert_eq!(numbers(&first), vec![(2, 9), (1, 8)]);
    assert_eq!(numbers(&first), numbers(&second));
}

#[test]
fn threads_have_buffers_of_their_own() {
    let mut tracer = Tracer::builder()
        .ring_buffer_bytes(std::mem::size_of::<AllocationEvent>() * 2)
        .finish();
    for _ in 0..3 {
        tracer.record_event(allocation(0x1, 1, 1));
    }
    tracer.switch_thread(5);
    for _ in 0..2 {
        tracer.record_event(allocation(0x1, 1, 2));
    }
    let snapshot = tracer.snapshot();
    assert_eq!(total_allocations(&snapshot), 4);
    assert_eq!(snapshot.dropped_events(), 1);
}

#[test]
fn an_ended_thread_leaves_its_events_behind() {
    let mut tracer = Tracer::builder()
        .ring_buffer_bytes(std::mem::size_of::<AllocationEvent>() * 2)
        .finish();
    tracer.switch_thread(1);
    for _ in 0..5 {
        tracer.record_event(allocation(0x1, 10, 1));
    }
    tracer.switch_thread(2);
    tracer.record_event(allocation(0x1, 1, 2));
    tracer.forget_thread(1);
    tracer.forget_thread(3);
    let snapshot = tracer.snapshot();
    let numbers: Vec<(u64, u64, i64)> = snapshot
        .records()
        .iter()
        .map(|record| (record.stack_id, record.allocations, record.current_bytes))
        .collect();
    assert_eq!(numbers, vec![(1, 2, 20), (2, 1, 1)]);
    assert_eq!(snapshot.dropped_events(), 3);

    // A thread of the same number starts with an empty buffer.
    tracer.switch_thread(1);
    tracer.record_event(allocation(0x1, 10, 1));
    assert_eq!(total_allocations(&tracer.snapshot()), 4);
}

#[test]
fn an_ended_thread_forgets_its_stacks() {
    let mut tracer = Tracer::new();
    let frames = [FrameMetadata::new("a.py", "f", 1)];
    tracer.record_allocation_with_frames(0x1, 8, &frames);
    tracer.stack_table().insert_with_id(50, frames.to_vec());
    tracer.forget_thread(0);
    tracer.record_allocation_with_frames(0x2, 9, &frames);
    let snapshot = tracer.snapshot();
    let ids: Vec<u64> = snapshot.records().iter().map(|record| record.stack_id).collect();
    assert_eq!(ids, vec![50, 1]);
}

#[test]
fn events_of_several_threads_add_up() {
    let mut tracer = Tracer::new();
    tracer.record_event(allocation(0x1, 10, 1));
    tracer.switch_thread(4);
    tracer.record_event(allocation(0x2, 20, 1));
    tracer.switch_thread(0);
    tracer.record_allocation(0x3, 40);
    tracer.record_deallocation(0x3, 0);
    let snapshot = tracer.snapshot();
    assert_eq!(total_allocations(&snapshot), 3);
    let total: i64 = snapshot.records().iter().map(|record| record.current_bytes).sum();
    assert_eq!(total, 30);
}

#[test]
fn a_filling_buffer_wakes_the_worker_once() {
    let mut tracer = Tracer::builder()
        .ring_buffer_bytes(std::mem::size_of::<AllocationEvent>() * 4)
        .finish();
    tracer.record_event(allocation(0x1, 1, 1));
    tracer.record_event(allocation(0x2, 1, 1));
    assert!(!tracer.take_wakeup());
    tracer.record_event(allocation(0x3, 1, 1));
    assert!(tracer.take_wakeup());
    tracer.record_event(allocation(0x4, 1, 1));
    assert!(!tracer.take_wakeup());

    assert_eq!(tracer.worker_turn(), WorkerAction::Continue);
    assert_eq!(tracer.worker_turn(), WorkerAction::Wait);
    assert!(tracer.request_shutdown());
    assert!(!tracer.request_shutdown());
    tracer.record_event(allocation(0x5, 1, 1));
    assert_eq!(tracer.worker_turn(), WorkerAction::Exit);
    assert_eq!(total_allocations(&tracer.snapshot()), 5);
}

#[test]
fn builder_sets_every_option() {
    let config = *TracerBuilder::default()
        .capture_native(true)
        .max_stack_depth(9)
        .native_skip_frames(3)
        .python_skip_frames(4)
        .ring_buffer_bytes(0)
        .sampling_bytes(Some(77))
        .sampling_rate(u64::MAX)
        .start_enabled(false)
        .finish()
        .config();
    assert!(config.capture_native);
    assert_eq!(config.max_stack_depth, 9);
    assert_eq!(config.native_skip_frames, 3);
    assert_eq!(config.python_skip_frames, 4);
    assert_eq!(config.ring_buffer_bytes, 1);
    assert_eq!(config.sampling_bytes, Some(77));
    assert_eq!(config.sampling_rate, SAMPLING_RATE_ONE);
    assert!(!config.start_enabled);
    assert_eq!(config.drain_interval, Duration::from_millis(25));

    let replaced = TracerBuilder::new().with_config(config).sampling_rate(5).finish();
    assert_eq!(replaced.config().max_stack_depth, 9);
    assert_eq!(replaced.config().sampling_rate, 5);
}

#[test]
fn default_configuration() {
    let config = TracerConfig::default();
    assert_eq!(config.max_stack_depth, 1);
    assert_eq!(config.sampling_rate, SAMPLING_RATE_ONE);
    assert_eq!(config.sampling_bytes, None);
    assert_eq!(config.ring_buffer_bytes, 262_144);
    assert!(!config.capture_native);
    assert!(config.start_enabled);
    assert_eq!(config.drain_interval, Duration::from_millis(25));
    assert_eq!(config.native_skip_frames, 0);
    assert_eq!(config.python_skip_frames, 0);
    assert!(!TracerConfig::default().disabled().start_enabled);
    assert_eq!(TracerConfig::default().with_max_stack_depth(12).max_stack_depth, 12);
}

#[test]
fn events_carry_what_they_are_given() {
    let event = AllocationEvent::from(EventKind::Dropped { count: 3 });
    assert_eq!(event.kind, EventKind::Dropped { count: 3 });
    assert_eq!((event.address, event.size, event.stack_id), (0, 0, 0));
    let moment = event.timestamp;
    let event = allocation(0x10, 20, 30).timestamp(moment);
    assert_eq!(event.kind, EventKind::Allocation);
    assert_eq!((event.address, event.size, event.stack_id), (0x10, 20, 30));
    assert_eq!(event.timestamp, moment);
}
