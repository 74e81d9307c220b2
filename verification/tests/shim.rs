use tracemalloc::{
    frame_metadata, AllocationEvent, EventKind, FrameMetadata, FrameWalk, Recording, ReentryGuard,
    ShimState, Surroundings, Tracer,
};

fn shim() -> ShimState {
    ShimState::new(Tracer::builder().capture_native(false).finish(), Vec::new())
}

#[test]
fn lib_collects_python_frames_from_stack() {
    let tracer = Tracer::builder().capture_native(false).finish();
    let frame_depth = usize::from(tracer.config().max_stack_depth.max(1));
    let state = ShimState::new(tracer, Vec::new());

    let mut walk = state.frame_walk();
    let mut lineno = 0;
    while walk.wants_more() {
        lineno += 1;
        walk.visit(Some(FrameMetadata::new("app.py", "run", lineno)));
    }
    let frames = walk.into_frames();

    assert!(
        frames.len() <= frame_depth,
        "collector returned more frames than configured depth"
    );
    assert_eq!(frames, vec![FrameMetadata::new("app.py", "run", 1)]);
}

#[test]
fn lib_reallocation_uses_recorded_size_for_deallocation() {
    let tracer = Tracer::builder().capture_native(false).finish();
    let mut state = ShimState::new(tracer, Vec::new());

    let old_ptr = 0x1000usize;
    let new_ptr = 0x2000usize;

    state.record_allocation(old_ptr, 64, &[]);
    state.record_reallocation(old_ptr, new_ptr, 32, &[]);

    let snapshot = state.tracer().snapshot();

    let record = snapshot.records().first().expect("expected allocation record");

    assert_eq!(record.total_allocated, 96);
    assert_eq!(record.total_freed, 64);
    assert_eq!(record.current_bytes, 32);
}

#[test]
fn hooks_decide_what_to_record() {
    assert_eq!(Recording::of_malloc(8, 0), Recording::Nothing);
    assert_eq!(Recording::of_malloc(8, 5), Recording::Allocation { address: 5, size: 8 });
    assert_eq!(Recording::of_calloc(3, 8, 0), Recording::Nothing);
    assert_eq!(Recording::of_calloc(3, 8, 5), Recording::Allocation { address: 5, size: 24 });
    assert_eq!(
        Recording::of_calloc(usize::MAX, 2, 5),
        Recording::Allocation { address: 5, size: usize::MAX }
    );
    assert_eq!(Recording::of_realloc(0, 8, 0), Recording::Nothing);
    assert_eq!(Recording::of_realloc(0, 8, 5), Recording::Allocation { address: 5, size: 8 });
    assert_eq!(Recording::of_realloc(4, 0, 0), Recording::Deallocation { address: 4 });
    assert_eq!(Recording::of_realloc(4, 0, 9), Recording::Deallocation { address: 4 });
    assert_eq!(Recording::of_realloc(4, 8, 0), Recording::Nothing);
    assert_eq!(
        Recording::of_realloc(4, 8, 5),
        Recording::Reallocation { old_address: 4, new_address: 5, new_size: 8 }
    );
    assert_eq!(Recording::of_free(0), Recording::Nothing);
    assert_eq!(Recording::of_free(4), Recording::Deallocation { address: 4 });
}

#[test]
fn recordings_reach_the_tracer() {
    let mut state = shim();
    let frames = [FrameMetadata::new("a.py", "f", 1)];
    let recordings = [
        Recording::Nothing,
        Recording::Allocation { address: 0x10, size: 100 },
        Recording::Allocation { address: 0x20, size: 0 },
        Recording::Reallocation { old_address: 0x10, new_address: 0x30, new_size: 40 },
        Recording::Deallocation { address: 0x30 },
    ];
    for recording in recordings {
        state.record(recording, &frames);
    }
    let snapshot = state.tracer().snapshot();
    assert_eq!(snapshot.records().len(), 1);
    let record = &snapshot.records()[0];
    assert_eq!(record.allocations, 2);
    assert_eq!(record.deallocations, 2);
    assert_eq!(record.total_allocated, 140);
    assert_eq!(record.total_freed, 140);
    assert_eq!(snapshot.dropped_events(), 0);
    let stack = record.stack.as_ref().expect("missing stack");
    assert_eq!(stack.frames(), &frames);
}

#[test]
fn frames_are_wanted_only_where_they_matter() {
    let mut state = shim();
    let allocation = Recording::Allocation { address: 1, size: 8 };
    let reallocation = Recording::Reallocation { old_address: 1, new_address: 2, new_size: 8 };
    assert!(state.wants_frames(allocation));
    assert!(!state.wants_frames(Recording::Allocation { address: 1, size: 0 }));
    assert!(state.wants_frames(reallocation));
    assert!(!state.wants_frames(Recording::Deallocation { address: 1 }));
    assert!(!state.wants_frames(Recording::Nothing));
    state.tracer().disable();
    assert!(!state.wants_frames(allocation));
    assert!(!state.wants_frames(reallocation));
}

#[test]
fn stopping_disables_the_tracer_and_forgets_sizes() {
    let mut state = shim();
    state.record_allocation(0x1, 64, &[]);
    assert!(state.is_tracing());
    state.stop();
    assert!(!state.is_tracing());
    state.record_allocation(0x2, 64, &[]);
    state.tracer().enable();
    state.record_deallocation(0x1);
    let snapshot = state.tracer().snapshot();
    assert_eq!(snapshot.records()[0].allocations, 1);
    assert_eq!(snapshot.records()[0].total_freed, 64);
}

#[test]
fn cleared_sizes_fall_back_to_those_of_the_tracer() {
    let mut state = shim();
    state.record_allocation(0x1, 64, &[]);
    state.clear_allocations();
    state.record_reallocation(0x1, 0x2, 10, &[]);
    let snapshot = state.tracer().snapshot();
    assert_eq!(snapshot.records()[0].total_freed, 64);
    assert_eq!(snapshot.records()[0].current_bytes, 10);
}

#[test]
fn recordings_in_given_surroundings() {
    let mut state = ShimState::new(
        Tracer::builder().capture_native(true).finish(),
        vec!["json".to_string()],
    );
    assert_eq!(state.exporters(), &vec!["json".to_string()]);
    let native = [FrameMetadata::new("n.c", "g", 1)];
    let surroundings = Surroundings { number: 0, native: &native };
    state.record_allocation_in(0x1, 8, &[], surroundings);
    state.record_reallocation_in(0x1, 0x2, 16, &[], surroundings);
    let snapshot = state.tracer().snapshot();
    assert_eq!(snapshot.records().len(), 1);
    assert_eq!(snapshot.records()[0].current_bytes, 16);
    let stack = snapshot.records()[0].stack.as_ref().expect("missing stack");
    assert_eq!(stack.frames(), &native);
}

#[test]
fn a_thread_does_not_enter_twice() {
    let mut guard = ReentryGuard::new();
    assert!(guard.enter());
    assert!(!guard.enter());
    assert!(!guard.enter());
    guard.leave();
    assert!(guard.enter());
    assert!(ReentryGuard::default().enter());
}

#[test]
fn guarded_calls_do_not_nest() {
    let mut guard = ReentryGuard::new();
    let mut calls = 0;
    let outer = guard.with_guard(|inside| {
        calls += 1;
        let inner = inside.with_guard(|_| unreachable!("a nested call runs"));
        let again: Option<()> = inside.with_guard(|_| unreachable!("a nested call runs"));
        (inner, again)
    });
    assert_eq!(calls, 1);
    assert_eq!(outer, Some((None::<()>, None)));
    assert_eq!(guard.with_guard(|_| 7), Some(7));
}

#[test]
fn a_walk_takes_a_window_of_the_stack() {
    let mut walk = FrameWalk::new(3, 2);
    let mut visited = 0;
    while walk.wants_more() {
        let frame = FrameMetadata::new("a.py", "f", visited);
        walk.visit(if visited == 3 { None } else { Some(frame) });
        visited += 1;
    }
    assert_eq!(visited, 5);
    let lines: Vec<u32> = walk.into_frames().iter().map(|frame| frame.lineno).collect();
    assert_eq!(lines, vec![2, 4]);
}

#[test]
fn a_walk_can_skip_everything() {
    let mut walk = FrameWalk::new(1, usize::MAX);
    for line in 0..10 {
        assert!(walk.wants_more());
        walk.visit(Some(FrameMetadata::new("a.py", "f", line)));
    }
    assert!(walk.into_frames().is_empty());
}

#[test]
fn unknown_parts_of_a_frame_are_shown_by_placeholders() {
    assert_eq!(
        frame_metadata(Some("a.py".to_string()), Some("f".to_string()), Some(7)),
        FrameMetadata::new("a.py", "f", 7)
    );
    assert_eq!(
        frame_metadata(None, None, None),
        FrameMetadata::new("<unknown>", "<unknown>", 0)
    );
}

#[test]
fn the_tracer_behind_the_hooks_takes_other_events() {
    let mut state = shim();
    state.tracer().record_event(AllocationEvent::new(EventKind::Allocation).size(3).stack_id(9));
    assert_eq!(state.tracer().snapshot().records()[0].stack_id, 9);
}
