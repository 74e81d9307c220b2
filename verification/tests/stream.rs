use tracemalloc::{
    line_of, JsonLinesWriter, MmapJsonStreamWriter, Snapshot, SnapshotRecord, StreamChunk,
    StreamError,
};

#[test]
fn chunk_carries_the_snapshot_and_its_time() {
    let record = SnapshotRecord {
        allocations: 1,
        current_bytes: 2,
        deallocations: 0,
        stack: None,
        stack_id: 4,
        total_allocated: 2,
        total_freed: 0,
    };
    let snapshot = Snapshot::new(vec![record], 6);
    let chunk = StreamChunk::new(&snapshot, Some(1_500));
    assert_eq!(chunk.dropped_events, 6);
    assert_eq!(chunk.records[0].stack_id, 4);
    assert_eq!(chunk.timestamp_ns, Some(1_500));
    assert_eq!(StreamChunk::new(&snapshot, Some(0)).timestamp_ns, Some(0));
    assert_eq!(StreamChunk::new(&snapshot, Some(-1)).timestamp_ns, None);
    assert_eq!(StreamChunk::new(&snapshot, None).timestamp_ns, None);
}

#[test]
fn lines_end_with_a_newline() {
    assert_eq!(line_of(b"{}".to_vec()), b"{}\n".to_vec());
    assert_eq!(line_of(Vec::new()), b"\n".to_vec());
}

#[test]
fn json_lines_writer_gives_its_writer_back() {
    let mut writer = JsonLinesWriter::new(vec![1u8]);
    writer.writer().push(2);
    assert_eq!(writer.into_inner(), vec![1, 2]);
}

#[test]
fn writes_follow_each_other() {
    let mut stream = MmapJsonStreamWriter::new(8);
    assert_eq!(stream.capacity(), 8);
    let mut region = [b'.'; 8];
    assert_eq!(stream.write_line(&mut region, b"ab".to_vec()), Ok(()));
    assert_eq!(stream.position(), 3);
    assert_eq!(stream.write_bytes(&mut region, b"cd"), Ok(()));
    assert_eq!(&region, b"ab\ncd...");
    assert_eq!(stream.position(), 5);
    assert_eq!(stream.write_bytes(&mut region, b""), Ok(()));
    assert_eq!(stream.position(), 5);
}

#[test]
fn a_write_that_does_not_fit_changes_nothing() {
    let mut stream = MmapJsonStreamWriter::new(4);
    let mut region = [b'.'; 4];
    assert_eq!(stream.write_bytes(&mut region, b"ab"), Ok(()));
    assert_eq!(
        stream.write_line(&mut region, b"cd".to_vec()),
        Err(StreamError::CapacityExceeded)
    );
    assert_eq!(&region, b"ab..");
    assert_eq!(stream.position(), 2);
    assert_eq!(stream.write_line(&mut region, b"c".to_vec()), Ok(()));
    assert_eq!(&region, b"abc\n");
    assert_eq!(
        stream.write_bytes(&mut region, b"x"),
        Err(StreamError::CapacityExceeded)
    );
}

#[test]
fn a_stream_has_room_for_at_least_one_byte() {
    let mut stream = MmapJsonStreamWriter::new(0);
    assert_eq!(stream.capacity(), 1);
    let mut region = [0u8; 1];
    assert_eq!(stream.write_bytes(&mut region, b"x"), Ok(()));
    assert_eq!(&region, b"x");
}

#[test]
fn stream_errors_have_messages() {
    assert_eq!(StreamError::CapacityExceeded.message(), "mmap capacity exceeded");
    assert_eq!(StreamError::PositionOverflow.message(), "mmap position overflow");
}
