use std::sync::Arc;
use tracemalloc::{
    build_pprof_profile, FrameMetadata, ProfileTables, Snapshot, SnapshotRecord, StackId, StackMetadata,
    StackTable,
};

fn make_stack(frames: Vec<FrameMetadata>, stack_id: StackId) -> Arc<StackMetadata> {
    let mut table = StackTable::new();
    table.insert_with_id(stack_id, frames);
    table.resolve(stack_id).expect("stack metadata available")
}

fn snapshot_record(
    stack: Option<Arc<StackMetadata>>,
    current_bytes: i64,
    allocations: u64,
) -> SnapshotRecord {
    let stack_id = stack.as_ref().map_or(StackId::default(), |metadata| metadata.id());

    SnapshotRecord {
        allocations,
        current_bytes,
        deallocations: 0,
        stack,
        stack_id,
        total_allocated: current_bytes.try_into().unwrap_or_default(),
        total_freed: 0,
    }
}

fn build_snapshot(records: Vec<SnapshotRecord>) -> Snapshot {
    Snapshot::new(records, 0)
}

#[test]
fn build_pprof_profile_deduplicates_frames() {
    let stack = make_stack(vec![FrameMetadata::new("app.py", "render", 42)], 1);

    let snapshot = build_snapshot(vec![
        snapshot_record(Some(stack.clone()), 256, 1),
        snapshot_record(Some(stack), 128, 2),
    ]);

    let profile = build_pprof_profile(&snapshot);

    assert_eq!(profile.function.len(), 1);
    assert_eq!(profile.location.len(), 1);
    assert_eq!(profile.sample.len(), 2);
    assert_eq!(profile.sample_type.len(), 2);

    let location_id = profile.location[0].id;

    for (sample, expected) in profile
        .sample
        .iter()
        .zip([[256_i64, 1_i64], [128, 2]].into_iter())
    {
        assert_eq!(sample.location_id, vec![location_id]);
        assert_eq!(sample.value.as_slice(), expected);
    }

    let function = &profile.function[0];

    let filename = &profile.string_table[usize::try_from(function.filename).unwrap()];

    let name = &profile.string_table[usize::try_from(function.name).unwrap()];

    assert_eq!(filename, "app.py");
    assert_eq!(name, "render");
}

#[test]
fn build_pprof_profile_inserts_unknown_frame() {
    let snapshot = build_snapshot(vec![snapshot_record(None, 512, 3)]);

    let profile = build_pprof_profile(&snapshot);

    assert_eq!(profile.function.len(), 1);
    assert_eq!(profile.location.len(), 1);
    assert_eq!(profile.sample.len(), 1);

    let function = &profile.function[0];
    let name = &profile.string_table[usize::try_from(function.name).unwrap()];

    let filename = &profile.string_table[usize::try_from(function.filename).unwrap()];

    assert_eq!(name, "<unknown>");
    assert_eq!(filename, "<unknown>");

    let location = &profile.location[0];

    assert_eq!(location.line.len(), 1);
    assert_eq!(location.line[0].line, 0);
    assert_eq!(location.line[0].function_id, function.id);

    assert_eq!(profile.sample[0].location_id, vec![profile.location[0].id]);
    assert_eq!(profile.sample[0].value, vec![512, 3]);
}

#[test]
fn an_empty_snapshot_gives_the_fixed_part_of_a_profile() {
    let profile = build_pprof_profile(&build_snapshot(vec![]));
    assert!(profile.sample.is_empty());
    assert!(profile.location.is_empty());
    assert!(profile.function.is_empty());
    assert_eq!(profile.string_table, vec!["", "space", "bytes", "allocations", "count"]);
    assert_eq!(profile.sample_type[0].ty, 1);
    assert_eq!(profile.sample_type[0].unit, 2);
    assert_eq!(profile.sample_type[1].ty, 3);
    assert_eq!(profile.sample_type[1].unit, 4);
    assert_eq!(profile.period, 1);
    let period_type = profile.period_type.as_ref().expect("missing period type");
    assert_eq!(period_type.ty, 0);
    assert_eq!(period_type.unit, 0);
}

#[test]
fn profile_numbers_strings_functions_and_locations() {
    let stack = make_stack(
        vec![
            FrameMetadata::new("a.py", "f", 1),
            FrameMetadata::new("a.py", "g", 2),
            FrameMetadata::new("a.py", "f", 1),
            FrameMetadata::new("a.py", "f", 3),
        ],
        9,
    );
    let profile = build_pprof_profile(&build_snapshot(vec![
        snapshot_record(Some(stack), 7, 2),
        snapshot_record(None, -4, u64::MAX),
    ]));

    assert_eq!(
        profile.string_table,
        vec!["", "a.py", "f", "g", "<unknown>", "space", "bytes", "allocations", "count"]
    );
    let functions: Vec<(u64, i64, i64, i64, i64)> = profile
        .function
        .iter()
        .map(|function| {
            (
                function.id,
                function.name,
                function.system_name,
                function.filename,
                function.start_line,
            )
        })
        .collect();
    assert_eq!(
        functions,
        vec![(1, 2, 2, 1, 1), (2, 3, 3, 1, 2), (3, 2, 2, 1, 3), (4, 4, 4, 4, 0)]
    );
    let locations: Vec<(u64, u64, i64)> = profile
        .location
        .iter()
        .map(|location| (location.id, location.line[0].function_id, location.line[0].line))
        .collect();
    assert_eq!(locations, vec![(1, 1, 1), (2, 2, 2), (3, 3, 3), (4, 4, 0)]);
    assert_eq!(profile.sample[0].location_id, vec![1, 2, 1, 3]);
    assert_eq!(profile.sample[0].value, vec![7, 2]);
    assert_eq!(profile.sample[1].location_id, vec![4]);
    assert_eq!(profile.sample[1].value, vec![-4, i64::MAX]);
}

#[test]
fn a_stack_without_frames_is_shown_as_unknown() {
    let stack = make_stack(vec![], 3);
    let profile = build_pprof_profile(&build_snapshot(vec![snapshot_record(Some(stack), 1, 1)]));
    assert_eq!(profile.string_table[1], "<unknown>");
    assert_eq!(profile.sample[0].location_id, vec![1]);
}

#[test]
fn tables_grow_with_new_frames_only() {
    let mut tables = ProfileTables::new();
    assert_eq!(tables.intern_location_for_frame("a.py", "f", 1), 1);
    assert_eq!(tables.intern_location_for_frame("a.py", "f", 2), 2);
    assert_eq!(tables.intern_location_for_frame("a.py", "f", 1), 1);
    assert_eq!(tables.intern_location_for_frame("f", "a.py", 1), 3);
    assert_eq!(tables.intern_location_for_frame("", "", 0), 4);
    assert_eq!(tables.intern_location_for_frame("a.py", "f", 2), 2);

    let functions: Vec<(u64, i64, i64, i64)> = tables
        .function_list()
        .iter()
        .map(|function| (function.id, function.filename, function.name, function.start_line))
        .collect();
    assert_eq!(functions, vec![(1, 1, 2, 1), (2, 1, 2, 2), (3, 2, 1, 1), (4, 0, 0, 0)]);
    let locations: Vec<(u64, u64, i64)> = tables
        .location_list()
        .iter()
        .map(|location| (location.id, location.line[0].function_id, location.line[0].line))
        .collect();
    assert_eq!(locations, vec![(1, 1, 1), (2, 2, 2), (3, 3, 1), (4, 4, 0)]);
}
