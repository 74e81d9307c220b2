//! Streams of snapshots: one encoded snapshot per line.

use crate::snapshot::{RecordView, Snapshot, SnapshotRecord};
use vstd::prelude::*;

verus! {

/// The byte that ends a line.
pub const LINE_END: u8 = 10;

/// What one line of a stream says.
#[derive(Debug)]
pub struct StreamChunk<'a> {
    pub dropped_events: u64,
    pub records: &'a [SnapshotRecord],
    /// When the snapshot was taken, in nanoseconds since the Unix epoch.
    pub timestamp_ns: Option<u128>,
}

impl<'a> StreamChunk<'a> {
    /// A chunk for a snapshot that was taken at the given time, in nanoseconds
    /// from the Unix epoch. A time before the epoch is left out.
    #[must_use]
    pub fn new(snapshot: &'a Snapshot, timestamp: Option<i128>) -> (chunk: Self)
        ensures
            chunk.dropped_events == snapshot@.dropped_events,
            RecordView::all(chunk.records@) == snapshot@.records,
            chunk.timestamp_ns == (match timestamp {
                Some(nanos) if nanos >= 0 => Some(nanos as u128),
                _ => None,
            }),
    {
        let timestamp_ns: Option<u128> = match timestamp {
            Some(nanos) => system_time_to_nanos(nanos),
            None => None,
        };
        StreamChunk {
            dropped_events: snapshot.dropped_events(),
            records: snapshot.records(),
            timestamp_ns,
        }
    }
}

/// The nanoseconds since the Unix epoch, where the time is not before it.
fn system_time_to_nanos(nanos: i128) -> (since_epoch: Option<u128>)
    ensures
        since_epoch == (if nanos >= 0 {
            Some(nanos as u128)
        } else {
            None
        }),
{
    if nanos >= 0 {
        Some(nanos as u128)
    } else {
        None
    }
}

/// JSON lines exporter that writes one JSON object per snapshot.
#[derive(Debug)]
pub struct JsonLinesWriter<W> {
    writer: W,
}

impl<W> View for JsonLinesWriter<W> {
    type V = W;

    closed spec fn view(&self) -> W {
        self.writer
    }
}

impl<W> JsonLinesWriter<W> {
    pub fn into_inner(self) -> (writer: W)
        ensures
            writer == self@,
    {
        self.writer
    }

    pub fn new(writer: W) -> (lines: Self)
        ensures
            lines@ == writer,
    {
        JsonLinesWriter { writer }
    }

    /// The writer that the lines go to.
    pub fn writer(&mut self) -> (writer: &mut W)
        ensures
            *writer == old(self)@,
            final(self)@ == *final(writer),
    {
        &mut self.writer
    }
}

/// An encoded snapshot as a line of a stream.
#[must_use]
pub fn line_of(encoded: Vec<u8>) -> (line: Vec<u8>)
    ensures
        line@ == encoded@.push(LINE_END),
        line@ == encoded@.push(10u8),
{
    let mut line = encoded;
    line.push(LINE_END);
    line
}

/// Why a stream takes no more.
#[derive(Debug, Clone, Copy, PartialEq, Eq, Structural)]
pub enum StreamError {
    /// The data does not fit into the region.
    CapacityExceeded,
    /// The position after the data cannot be counted.
    PositionOverflow,
}

impl StreamError {
    /// What went wrong, in words.
    #[must_use]
    pub fn message(&self) -> (message: &'static str)
        ensures
            message@ == (match *self {
                StreamError::CapacityExceeded => "mmap capacity exceeded"@,
                StreamError::PositionOverflow => "mmap position overflow"@,
            }),
    {
        match self {
            StreamError::CapacityExceeded => "mmap capacity exceeded",
            StreamError::PositionOverflow => "mmap position overflow",
        }
    }
}

/// Where a stream stands in the memory region that it is written to.
///
/// The region is mapped to a file by whoever owns it, and handed in with each
/// write.
#[derive(Debug)]
pub struct MmapJsonStreamWriter {
    capacity: usize,
    position: usize,
}

/// The state of a stream, with the region that it is written to.
#[verifier::ext_equal]
pub struct StreamView {
    pub region: Seq<u8>,
    pub position: int,
}

impl StreamView {
    /// What has been written so far.
    pub open spec fn written(self) -> Seq<u8> {
        self.region.take(self.position)
    }

    /// Whether the data can still be written.
    pub open spec fn takes(self, data: Seq<u8>) -> bool {
        self.position + data.len() <= self.region.len()
    }

    /// The stream after an attempt to write the data: all of it or nothing.
    pub open spec fn write(self, data: Seq<u8>) -> Self {
        if self.takes(data) {
            let end = self.position + data.len();
            StreamView {
                region: self.written() + data + self.region.skip(end),
                position: end,
            }
        } else {
            self
        }
    }
}

impl MmapJsonStreamWriter {
    /// How many bytes the region of the stream has.
    pub closed spec fn size(&self) -> usize {
        self.capacity
    }

    /// How many bytes have been written.
    pub closed spec fn at(&self) -> usize {
        self.position
    }

    /// The stream, over the region that it is written to.
    pub open spec fn over(&self, region: Seq<u8>) -> StreamView {
        StreamView { region, position: self.at() as int }
    }

    pub open spec fn wf(&self) -> bool {
        0 < self.size() && self.at() <= self.size()
    }

    /// A stream for a region of the given capacity, which is at least one
    /// byte.
    #[must_use]
    pub fn new(capacity: usize) -> (stream: Self)
        ensures
            stream.wf(),
            stream.size() == (if capacity == 0 {
                1
            } else {
                capacity
            }),
            stream.at() == 0,
    {
        MmapJsonStreamWriter {
            capacity: if capacity == 0 {
                1
            } else {
                capacity
            },
            position: 0,
        }
    }

    /// How many bytes the region has to have.
    #[must_use]
    pub fn capacity(&self) -> (capacity: usize)
        ensures
            capacity == self.size(),
    {
        self.capacity
    }

    /// How many bytes have been written.
    #[must_use]
    pub fn position(&self) -> (position: usize)
        ensures
            position == self.at(),
    {
        self.position
    }

    /// Writes the data behind what has been written before.
    ///
    /// # Errors
    ///
    /// Returns an error if the write would exceed the reserved capacity.
    pub fn write_bytes(&mut self, region: &mut [u8], data: &[u8]) -> (result: Result<
        (),
        StreamError,
    >)
        requires
            old(self).wf(),
            old(region)@.len() == old(self).size(),
        ensures
            final(self).wf(),
            final(self).size() == old(self).size(),
            final(self).over(final(region)@) == old(self).over(old(region)@).write(data@),
            result is Ok <==> old(self).over(old(region)@).takes(data@),
            (result matches Err(error) && error is PositionOverflow) <==> old(self).at()
                + data@.len() > usize::MAX,
    {
        let Some(end) = self.position.checked_add(data.len()) else {
            return Err(StreamError::PositionOverflow);
        };
        if end > self.capacity {
            return Err(StreamError::CapacityExceeded);
        }
        let start: usize = self.position;
        let ghost before = region@;
        for i in 0..data.len()
            invariant
                start + data@.len() == end <= before.len(),
                region@.len() == before.len(),
                region@ == before.take(start as int) + data@.take(i as int) + before.skip(
                    start + i,
                ),
        {
            region[start + i] = data[i];
            assert(region@ =~= before.take(start as int) + data@.take(i as int + 1) + before.skip(
                start + i + 1,
            ));
        }
        self.position = end;
        assert(data@.take(data@.len() as int) =~= data@);
        Ok(())
    }

    /// Writes an encoded snapshot as a line.
    ///
    /// # Errors
    ///
    /// Returns an error if the line would exceed the reserved capacity.
    pub fn write_line(&mut self, region: &mut [u8], encoded: Vec<u8>) -> (result: Result<
        (),
        StreamError,
    >)
        requires
            old(self).wf(),
            old(region)@.len() == old(self).size(),
        ensures
            final(self).wf(),
            final(self).size() == old(self).size(),
            final(self).over(final(region)@) == old(self).over(old(region)@).write(
                encoded@.push(LINE_END),
            ),
            result is Ok <==> old(self).over(old(region)@).takes(encoded@.push(LINE_END)),
            (result matches Err(error) && error is PositionOverflow) <==> old(self).at()
                + encoded@.len() + 1 > usize::MAX,
    {
        let line = line_of(encoded);
        self.write_bytes(region, &line)
    }
}

impl StreamView {
    /// What was written stays, and what is written next follows it.
    pub proof fn law_writes_follow_each_other(self, data: Seq<u8>)
        requires
            0 <= self.position <= self.region.len(),
            self.takes(data),
        ensures
            self.write(data).written() == self.written() + data,
            self.write(data).region.len() == self.region.len(),
    {
        assert(self.write(data).written() =~= self.written() + data);
    }

    /// To write in two parts is to write the whole, where the whole fits.
    pub proof fn law_writes_come_in_parts(self, first: Seq<u8>, second: Seq<u8>)
        requires
            0 <= self.position <= self.region.len(),
            self.takes(first + second),
        ensures
            self.write(first).write(second) == self.write(first + second),
    {
        let once = self.write(first);
        self.law_writes_follow_each_other(first);
        assert(once.region.skip(once.position + second.len()) =~= self.region.skip(
            self.position + first.len() + second.len(),
        ));
        assert(once.write(second).region =~= self.write(first + second).region);
    }

    /// A write that does not fit changes nothing.
    pub proof fn law_refused_writes_change_nothing(self, data: Seq<u8>)
        requires
            !self.takes(data),
        ensures
            self.write(data) == self,
    {
    }

    /// What lies behind the written part is left alone.
    pub proof fn law_writes_leave_the_rest_alone(self, data: Seq<u8>)
        requires
            0 <= self.position <= self.region.len(),
            self.takes(data),
        ensures
            self.write(data).region.skip(self.write(data).position) == self.region.skip(
                self.position + data.len(),
            ),
    {
        assert(self.write(data).region.skip(self.write(data).position) =~= self.region.skip(
            self.position + data.len(),
        ));
    }
}

impl StreamView {
    /// Data is taken exactly where the bytes left behind the position hold it,
    /// down to the last one. It is then written byte for byte from the position
    /// on, which moves behind it, and no other byte changes.
    pub proof fn law_data_is_written_byte_for_byte(self, data: Seq<u8>)
        requires
            0 <= self.position <= self.region.len(),
        ensures
            self.takes(data) <==> data.len() <= self.region.len() - self.position,
            self.takes(data) ==> {
                let after = self.write(data);
                &&& after.position == self.position + data.len()
                &&& after.region.len() == self.region.len()
                &&& forall|i: int|
                    0 <= i < after.region.len() ==> #[trigger] after.region[i] == if i
                        < self.position || i >= self.position + data.len() {
                        self.region[i]
                    } else {
                        data[i - self.position]
                    }
            },
    {
    }
}

} // verus!
