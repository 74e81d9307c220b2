use tracemalloc::native::SymbolInfo;
use tracemalloc::{
    clone_frames, same_frames, FrameMetadata, StackCollector, StackTable, TracerConfig,
};

#[test]
fn interns_and_reuses_stack_ids() {
    let mut table = StackTable::new();
    let frames = vec![
        FrameMetadata::new("file.py", "func", 10),
        FrameMetadata::new("other.py", "helper", 3),
    ];
    let first = table.intern(frames.clone());
    let second = table.intern(frames);
    assert_eq!(first, second);
}

#[test]
fn resolves_metadata_for_known_stack() {
    let mut table = StackTable::new();
    let frames = vec![FrameMetadata::new("file.py", "func", 10)];
    let stack_id = table.intern(frames.clone());

    let resolved = table.resolve(stack_id).expect("expected stack metadata");
    assert_eq!(resolved.id(), stack_id);
    assert_eq!(resolved.frames(), frames.as_slice());
}

#[test]
fn allows_explicit_stack_id_registration() {
    let mut table = StackTable::new();
    table.insert_with_id(42, vec![FrameMetadata::new("file.py", "func", 1)]);

    let resolved = table.resolve(42).expect("missing stack 42");
    assert_eq!(resolved.id(), 42);
    assert_eq!(resolved.frames()[0].lineno, 1);
}

#[test]
fn identifiers_start_at_one_and_go_up() {
    let mut table = StackTable::default();
    assert!(table.resolve(1).is_none());
    for line in 1..=100u32 {
        let stack_id = table.intern(vec![FrameMetadata::new("a.py", "f", line)]);
        assert_eq!(stack_id, u64::from(line));
    }
    for line in 1..=100u32 {
        let stack_id = table.intern(vec![FrameMetadata::new("a.py", "f", line)]);
        assert_eq!(stack_id, u64::from(line));
        let resolved = table.resolve(stack_id).expect("missing stack");
        assert_eq!(resolved.frames(), &[FrameMetadata::new("a.py", "f", line)]);
    }
}

#[test]
fn frames_that_differ_anywhere_get_other_identifiers() {
    let mut table = StackTable::new();
    let stacks = vec![
        vec![],
        vec![FrameMetadata::new("a.py", "f", 1)],
        vec![FrameMetadata::new("b.py", "f", 1)],
        vec![FrameMetadata::new("a.py", "g", 1)],
        vec![FrameMetadata::new("a.py", "f", 2)],
        vec![
            FrameMetadata::new("a.py", "f", 1),
            FrameMetadata::new("a.py", "f", 1),
        ],
        vec![FrameMetadata::new("", "a.pyf", 1)],
    ];
    let ids: Vec<u64> = stacks.iter().map(|frames| table.intern(frames.clone())).collect();
    assert_eq!(ids, vec![1, 2, 3, 4, 5, 6, 7]);
}

#[test]
fn registration_moves_later_identifiers_up() {
    let mut table = StackTable::new();
    table.insert_with_id(42, vec![FrameMetadata::new("file.py", "func", 1)]);
    assert_eq!(table.intern(vec![FrameMetadata::new("new.py", "f", 1)]), 43);
    assert_eq!(table.intern(vec![FrameMetadata::new("file.py", "func", 1)]), 42);
    table.insert_with_id(5, vec![FrameMetadata::new("low.py", "f", 1)]);
    assert_eq!(table.intern(vec![FrameMetadata::new("newer.py", "f", 1)]), 44);
    assert_eq!(table.resolve(5).expect("missing stack 5").frames()[0].filename.as_ref(), "low.py");
}

#[test]
fn the_largest_identifier_is_handed_out_again() {
    let mut table = StackTable::new();
    table.insert_with_id(u64::MAX, vec![FrameMetadata::new("last.py", "f", 1)]);
    assert_eq!(table.intern(vec![FrameMetadata::new("over.py", "f", 1)]), u64::MAX);
    let resolved = table.resolve(u64::MAX).expect("missing stack");
    assert_eq!(resolved.frames()[0].filename.as_ref(), "over.py");
}

#[test]
fn copies_of_frames_are_the_same() {
    let frames = vec![
        FrameMetadata::new("a.py", "f", 1),
        FrameMetadata::new("b.py", "g", 2),
    ];
    let copy = clone_frames(&frames);
    assert_eq!(copy, frames);
    assert!(same_frames(&copy, &frames));
    assert!(!same_frames(&copy[..1], &frames));
    assert!(!same_frames(&copy[1..], &frames[..1]));
}

#[test]
fn uses_python_frames_when_available() {
    let config = TracerConfig {
        capture_native: false,
        max_stack_depth: 3,
        python_skip_frames: 1,
        ..TracerConfig::default()
    };

    let mut collector = StackCollector::new(StackTable::new(), &config);
    let frames = vec![
        FrameMetadata::new("hidden.py", "wrapper", 1),
        FrameMetadata::new("worker.py", "run", 2),
    ];

    let stack_id = collector.capture_and_intern(Some(&frames));
    let stack = collector.stack_table().resolve(stack_id).expect("missing stack");
    assert_eq!(stack.frames().len(), 1);
    assert_eq!(stack.frames()[0].filename.as_ref(), "worker.py");
}

#[test]
fn falls_back_to_unknown_when_no_frames() {
    let config = TracerConfig {
        capture_native: false,
        max_stack_depth: 1,
        ..TracerConfig::default()
    };

    let mut collector = StackCollector::new(StackTable::new(), &config);

    let stack_id = collector.capture_and_intern(Some(&[]));
    let stack = collector.stack_table().resolve(stack_id).expect("missing stack");
    assert_eq!(stack.frames()[0].filename.as_ref(), "<unknown>");
}

#[test]
fn python_frames_stop_at_the_depth() {
    let config = TracerConfig {
        max_stack_depth: 2,
        ..TracerConfig::default()
    };
    let collector = StackCollector::new(StackTable::new(), &config);
    let frames: Vec<FrameMetadata> = (0..5).map(|line| FrameMetadata::new("a.py", "f", line)).collect();
    let stack = collector.assemble(Some(&frames), &[]);
    assert_eq!(stack, frames[..2].to_vec());
}

#[test]
fn native_frames_follow_python_frames() {
    let config = TracerConfig {
        capture_native: true,
        max_stack_depth: 3,
        python_skip_frames: 1,
        ..TracerConfig::default()
    };
    let collector = StackCollector::new(StackTable::new(), &config);
    let python = vec![
        FrameMetadata::new("skipped.py", "f", 1),
        FrameMetadata::new("kept.py", "f", 2),
    ];
    let native: Vec<FrameMetadata> =
        (0..5).map(|line| FrameMetadata::new("native.c", "g", line)).collect();

    let stack = collector.assemble(Some(&python), &native);
    assert_eq!(stack, vec![python[1].clone(), native[0].clone(), native[1].clone()]);
    assert_eq!(collector.assemble(None, &native), native[..3].to_vec());
}

#[test]
fn innermost_native_frames_can_be_left_out() {
    let config = TracerConfig {
        capture_native: true,
        max_stack_depth: 2,
        native_skip_frames: 3,
        ..TracerConfig::default()
    };
    let collector = StackCollector::new(StackTable::new(), &config);
    let native: Vec<FrameMetadata> =
        (0..9).map(|line| FrameMetadata::new("native.c", "g", line)).collect();
    assert_eq!(collector.assemble(None, &native), native[3..5].to_vec());
    assert_eq!(collector.assemble(None, &native[..4]), native[3..4].to_vec());
    assert_eq!(
        collector.assemble(None, &native[..3]),
        vec![FrameMetadata::new("<unknown>", "<unknown>", 0)]
    );
}

#[test]
fn symbols_complete_each_other() {
    let text = |value: &str| Some(value.to_string());

    let mut info = SymbolInfo::new();
    info.see(None, None, text("inlined"), None);
    info.see(text("dir/file.c"), text("file.c"), text("outer"), Some(12));
    info.see(text("other.c"), text("other.c"), text("outermost"), Some(99));
    assert_eq!(info.into_frame(), FrameMetadata::new("dir/file.c", "inlined", 12));

    let mut info = SymbolInfo::new();
    info.see(None, text("file.c"), None, None);
    assert_eq!(info.into_frame(), FrameMetadata::new("file.c", "<unknown>", 0));

    assert_eq!(
        SymbolInfo::new().into_frame(),
        FrameMetadata::new("<native>", "<unknown>", 0)
    );
}

#[test]
fn captured_frames_name_the_functions_that_run() {
    let config = TracerConfig {
        capture_native: true,
        max_stack_depth: 64,
        ..TracerConfig::default()
    };
    let collector = StackCollector::new(StackTable::new(), &config);
    let frames = collector.capture(None);
    assert!(frames.iter().any(|frame| frame.function.as_ref() != "<unknown>"));
    let skipping = StackCollector::new(
        StackTable::new(),
        &TracerConfig {
            native_skip_frames: 2,
            ..config
        },
    );
    assert!(skipping.capture(None).len() < frames.len());
}

#[test]
fn native_frames_are_left_out_unless_asked_for() {
    let collector = StackCollector::new(StackTable::new(), &TracerConfig::default());
    let native = vec![FrameMetadata::new("native.c", "g", 1)];
    assert_eq!(
        collector.assemble(None, &native),
        vec![FrameMetadata::new("<unknown>", "<unknown>", 0)]
    );
    assert!(collector.native_frames_for(None).is_empty());
}

#[test]
fn native_frames_are_captured_up_to_the_depth() {
    let config = TracerConfig {
        capture_native: true,
        max_stack_depth: 4,
        ..TracerConfig::default()
    };
    let collector = StackCollector::new(StackTable::new(), &config);
    let frames = collector.native_frames_for(None);
    assert!(!frames.is_empty());
    assert!(frames.len() <= 4);

    let python = vec![FrameMetadata::new("a.py", "f", 1); 4];
    assert!(collector.native_frames_for(Some(&python)).is_empty());
}

#[test]
fn skipped_native_frames_are_left_out() {
    let config = TracerConfig {
        capture_native: true,
        max_stack_depth: 1,
        native_skip_frames: usize::MAX,
        ..TracerConfig::default()
    };
    let collector = StackCollector::new(StackTable::new(), &config);
    assert!(collector.native_frames_for(None).is_empty());
}

#[test]
fn a_depth_of_zero_counts_as_one() {
    let config = TracerConfig::default().with_max_stack_depth(0);
    let collector = StackCollector::new(StackTable::new(), &config);
    let frames = vec![FrameMetadata::new("a.py", "f", 1), FrameMetadata::new("b.py", "f", 1)];
    assert_eq!(collector.assemble(Some(&frames), &[]), frames[..1].to_vec());
}

#[test]
fn threads_remember_the_stacks_that_they_captured() {
    let mut collector = StackCollector::new(StackTable::new(), &TracerConfig::default());
    let frames = vec![FrameMetadata::new("a.py", "f", 1)];
    assert_eq!(collector.thread(), 0);
    let first = collector.intern(frames.clone());

    // The table forgets, the thread does not.
    collector.stack_table_mut().insert_with_id(50, frames.clone());
    assert_eq!(collector.intern(frames.clone()), first);
    collector.switch_thread(7);
    assert_eq!(collector.thread(), 7);
    assert_eq!(collector.intern(frames.clone()), 50);
    collector.switch_thread(0);
    assert_eq!(collector.intern(frames.clone()), first);
    collector.forget_thread(0);
    assert_eq!(collector.intern(frames), 50);
}

#[test]
fn a_full_cache_starts_over() {
    let mut collector = StackCollector::new(StackTable::new(), &TracerConfig::default());
    for line in 0..1024u32 {
        let stack_id = collector.intern(vec![FrameMetadata::new("a.py", "f", line)]);
        assert_eq!(stack_id, u64::from(line) + 1);
    }
    let first = vec![FrameMetadata::new("a.py", "f", 0)];
    collector.stack_table_mut().insert_with_id(5000, first.clone());
    assert_eq!(collector.intern(first.clone()), 1);
    assert_eq!(collector.intern(vec![FrameMetadata::new("b.py", "f", 0)]), 5001);
    assert_eq!(collector.intern(first), 5000);
}
