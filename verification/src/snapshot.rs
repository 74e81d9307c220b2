//! Point-in-time views of the aggregated allocations, and their differences.

use crate::arith::Saturating;
use crate::event::StackId;
use crate::stack::{StackMetadata, StackView};
use std::sync::Arc;
use vstd::prelude::*;

verus! {

/// A single aggregated entry representing allocations attributed to a stack.
#[derive(Debug)]
pub struct SnapshotRecord {
    pub allocations: u64,
    pub current_bytes: i64,
    pub deallocations: u64,
    pub stack: Option<Arc<StackMetadata>>,
    pub stack_id: StackId,
    pub total_allocated: u64,
    pub total_freed: u64,
}

/// What a record says.
#[verifier::ext_equal]
pub struct RecordView {
    pub allocations: u64,
    pub current_bytes: i64,
    pub deallocations: u64,
    pub stack: Option<StackView>,
    pub stack_id: StackId,
    pub total_allocated: u64,
    pub total_freed: u64,
}

impl View for SnapshotRecord {
    type V = RecordView;

    open spec fn view(&self) -> RecordView {
        RecordView {
            allocations: self.allocations,
            current_bytes: self.current_bytes,
            deallocations: self.deallocations,
            stack: StackView::optional(self.stack),
            stack_id: self.stack_id,
            total_allocated: self.total_allocated,
            total_freed: self.total_freed,
        }
    }
}

impl RecordView {
    /// What a sequence of records says.
    pub open spec fn all(records: Seq<SnapshotRecord>) -> Seq<RecordView> {
        records.map_values(|record: SnapshotRecord| record@)
    }

    /// The first of the records that carries the given stack identifier.
    pub open spec fn first_with(records: Seq<RecordView>, stack_id: StackId) -> Option<RecordView>
        decreases records.len(),
    {
        if records.len() == 0 {
            None
        } else if RecordView::first_with(records.drop_last(), stack_id) is Some {
            RecordView::first_with(records.drop_last(), stack_id)
        } else if records.last().stack_id == stack_id {
            Some(records.last())
        } else {
            None
        }
    }

    /// Whether each stack identifier occurs at most once.
    pub open spec fn distinct_ids(records: Seq<RecordView>) -> bool {
        forall|i: int, j: int|
            0 <= i < records.len() && 0 <= j < records.len() && (#[trigger] records[i]).stack_id
                == (#[trigger] records[j]).stack_id ==> i == j
    }

    /// How the record changed since an earlier one. Counters never go below
    /// zero, and a record without an earlier one is new as a whole.
    pub open spec fn since(self, earlier: Option<RecordView>) -> RecordView {
        match earlier {
            Some(earlier) => RecordView {
                allocations: self.allocations.saturating_sub(earlier.allocations),
                current_bytes: (self.current_bytes - earlier.current_bytes) as i64,
                deallocations: self.deallocations.saturating_sub(earlier.deallocations),
                stack: self.stack,
                stack_id: self.stack_id,
                total_allocated: self.total_allocated.saturating_sub(earlier.total_allocated),
                total_freed: self.total_freed.saturating_sub(earlier.total_freed),
            },
            None => self,
        }
    }

    /// Whether the change in bytes since an earlier record can be represented.
    pub open spec fn comparable_to(self, earlier: Option<RecordView>) -> bool {
        match earlier {
            Some(earlier) => i64::MIN <= self.current_bytes - earlier.current_bytes <= i64::MAX,
            None => true,
        }
    }
}

impl Clone for SnapshotRecord {
    fn clone(&self) -> (copy: Self)
        ensures
            copy@ == self@,
    {
        SnapshotRecord {
            allocations: self.allocations,
            current_bytes: self.current_bytes,
            deallocations: self.deallocations,
            stack: match &self.stack {
                Some(stack) => Some(stack.clone()),
                None => None,
            },
            stack_id: self.stack_id,
            total_allocated: self.total_allocated,
            total_freed: self.total_freed,
        }
    }
}

fn clone_records(records: &Vec<SnapshotRecord>) -> (copy: Vec<SnapshotRecord>)
    ensures
        RecordView::all(copy@) == RecordView::all(records@),
{
    let mut copy: Vec<SnapshotRecord> = Vec::new();
    for i in 0..records.len()
        invariant
            copy@.len() == i,
            forall|j: int| 0 <= j < i ==> (#[trigger] copy@[j])@ == records@[j]@,
    {
        copy.push(records[i].clone());
    }
    assert(RecordView::all(copy@) =~= RecordView::all(records@));
    copy
}

/// The first of the records that carries the given stack identifier.
fn find_record(records: &[SnapshotRecord], stack_id: StackId) -> (found: Option<&SnapshotRecord>)
    ensures
        match found {
            Some(record) => RecordView::first_with(RecordView::all(records@), stack_id) == Some(
                record@,
            ),
            None => RecordView::first_with(RecordView::all(records@), stack_id) is None,
        },
{
    let ghost views = RecordView::all(records@);
    for i in 0..records.len()
        invariant
            views == RecordView::all(records@),
            RecordView::first_with(views.take(i as int), stack_id) is None,
    {
        assert(views.take(i as int + 1).drop_last() =~= views.take(i as int));
        if records[i].stack_id == stack_id {
            proof {
                lemma_first_with_prefix(views, i as int + 1, stack_id);
            }
            return Some(&records[i]);
        }
    }
    assert(views.take(views.len() as int) =~= views);
    None
}

/// A record found in a prefix is the first of all.
proof fn lemma_first_with_prefix(records: Seq<RecordView>, n: int, stack_id: StackId)
    requires
        0 <= n <= records.len(),
        RecordView::first_with(records.take(n), stack_id) is Some,
    ensures
        RecordView::first_with(records, stack_id) == RecordView::first_with(
            records.take(n),
            stack_id,
        ),
    decreases records.len() - n,
{
    if n == records.len() {
        assert(records.take(n) =~= records);
    } else {
        assert(records.take(n + 1).drop_last() =~= records.take(n));
        lemma_first_with_prefix(records, n + 1, stack_id);
    }
}

/// Where identifiers are distinct, the first record with the identifier of a
/// record is that record.
proof fn lemma_first_with_distinct(records: Seq<RecordView>, i: int)
    requires
        RecordView::distinct_ids(records),
        0 <= i < records.len(),
    ensures
        RecordView::first_with(records, records[i].stack_id) == Some(records[i]),
    decreases records.len(),
{
    let rest = records.drop_last();
    let stack_id = records[i].stack_id;
    assert(RecordView::distinct_ids(rest)) by {
        assert forall|j: int, k: int|
            0 <= j < rest.len() && 0 <= k < rest.len() && (#[trigger] rest[j]).stack_id == (
            #[trigger] rest[k]).stack_id implies j == k by {
            assert(records[j] == rest[j] && records[k] == rest[k]);
        }
    }
    if i < rest.len() {
        lemma_first_with_distinct(rest, i);
    } else {
        assert(RecordView::first_with(rest, stack_id) is None) by {
            lemma_first_with_none(rest, stack_id);
        }
    }
}

proof fn lemma_first_with_none(records: Seq<RecordView>, stack_id: StackId)
    requires
        forall|j: int| 0 <= j < records.len() ==> (#[trigger] records[j]).stack_id != stack_id,
    ensures
        RecordView::first_with(records, stack_id) is None,
    decreases records.len(),
{
    if records.len() > 0 {
        assert(records[records.len() - 1].stack_id != stack_id);
        lemma_first_with_none(records.drop_last(), stack_id);
    }
}

/// Immutable view of the current tracer state.
#[derive(Debug)]
pub struct Snapshot {
    dropped_events: u64,
    records: Vec<SnapshotRecord>,
}

/// What a snapshot says.
#[verifier::ext_equal]
pub struct SnapshotView {
    pub dropped_events: u64,
    pub records: Seq<RecordView>,
}

impl View for Snapshot {
    type V = SnapshotView;

    closed spec fn view(&self) -> SnapshotView {
        SnapshotView {
            dropped_events: self.dropped_events,
            records: RecordView::all(self.records@),
        }
    }
}

impl Clone for Snapshot {
    fn clone(&self) -> (copy: Self)
        ensures
            copy@ == self@,
    {
        Snapshot { dropped_events: self.dropped_events, records: clone_records(&self.records) }
    }
}

impl Default for Snapshot {
    fn default() -> (snapshot: Self)
        ensures
            snapshot@ == (SnapshotView { dropped_events: 0, records: Seq::empty() }),
    {
        let snapshot = Snapshot { dropped_events: 0, records: Vec::new() };
        assert(snapshot@.records =~= Seq::<RecordView>::empty());
        snapshot
    }
}

impl Snapshot {
    #[must_use]
    pub fn dropped_events(&self) -> (dropped_events: u64)
        ensures
            dropped_events == self@.dropped_events,
    {
        self.dropped_events
    }

    #[must_use]
    pub fn new(records: Vec<SnapshotRecord>, dropped_events: u64) -> (snapshot: Self)
        ensures
            snapshot@ == (SnapshotView { dropped_events, records: RecordView::all(records@) }),
    {
        Snapshot { dropped_events, records }
    }

    #[must_use]
    pub fn records(&self) -> (records: &[SnapshotRecord])
        ensures
            RecordView::all(records@) == self@.records,
    {
        &self.records
    }
}

/// Lightweight diff between two snapshots.
#[derive(Debug)]
pub struct SnapshotDelta {
    dropped_events: i64,
    records: Vec<SnapshotRecord>,
}

/// What a diff says.
#[verifier::ext_equal]
pub struct DeltaView {
    pub dropped_events: i64,
    pub records: Seq<RecordView>,
}

impl View for SnapshotDelta {
    type V = DeltaView;

    closed spec fn view(&self) -> DeltaView {
        DeltaView {
            dropped_events: self.dropped_events,
            records: RecordView::all(self.records@),
        }
    }
}

impl Clone for SnapshotDelta {
    fn clone(&self) -> (copy: Self)
        ensures
            copy@ == self@,
    {
        SnapshotDelta { dropped_events: self.dropped_events, records: clone_records(&self.records) }
    }
}

impl Default for SnapshotDelta {
    fn default() -> (delta: Self)
        ensures
            delta@ == (DeltaView { dropped_events: 0, records: Seq::empty() }),
    {
        let delta = SnapshotDelta { dropped_events: 0, records: Vec::new() };
        assert(delta@.records =~= Seq::<RecordView>::empty());
        delta
    }
}

impl DeltaView {
    /// The change from an older snapshot to a newer one: one record for each
    /// record of the newer snapshot, in the same order.
    pub open spec fn between(newer: SnapshotView, older: SnapshotView) -> DeltaView {
        DeltaView {
            dropped_events: Saturating::to_i64(newer.dropped_events - older.dropped_events),
            records: newer.records.map_values(
                |record: RecordView|
                    record.since(RecordView::first_with(older.records, record.stack_id)),
            ),
        }
    }

    /// Whether every change in bytes can be represented.
    pub open spec fn exists_between(newer: SnapshotView, older: SnapshotView) -> bool {
        forall|i: int|
            0 <= i < newer.records.len() ==> (#[trigger] newer.records[i]).comparable_to(
                RecordView::first_with(older.records, newer.records[i].stack_id),
            )
    }
}

impl SnapshotDelta {
    #[must_use]
    pub fn dropped_events(&self) -> (dropped_events: i64)
        ensures
            dropped_events == self@.dropped_events,
    {
        self.dropped_events
    }

    /// Whether the change in bytes of every record can be represented.
    #[must_use]
    pub fn comparable(newer: &Snapshot, older: &Snapshot) -> (comparable: bool)
        ensures
            comparable == DeltaView::exists_between(newer@, older@),
    {
        let records = newer.records();
        for i in 0..records.len()
            invariant
                RecordView::all(records@) == newer@.records,
                forall|j: int|
                    0 <= j < i ==> (#[trigger] newer@.records[j]).comparable_to(
                        RecordView::first_with(older@.records, newer@.records[j].stack_id),
                    ),
        {
            assert(newer@.records[i as int] == records@[i as int]@);
            if let Some(prev) = find_record(older.records(), records[i].stack_id) {
                if records[i].current_bytes.checked_sub(prev.current_bytes).is_none() {
                    assert(!newer@.records[i as int].comparable_to(
                        RecordView::first_with(older@.records, newer@.records[i as int].stack_id),
                    ));
                    return false;
                }
            }
        }
        true
    }

    /// Compare two snapshots record by record.
    #[must_use]
    pub fn from_snapshots(newer: &Snapshot, older: &Snapshot) -> (delta: Self)
        requires
            DeltaView::exists_between(newer@, older@),
        ensures
            delta@ == DeltaView::between(newer@, older@),
    {
        let records = newer.records();
        let mut deltas: Vec<SnapshotRecord> = Vec::new();
        for i in 0..records.len()
            invariant
                DeltaView::exists_between(newer@, older@),
                RecordView::all(records@) == newer@.records,
                deltas@.len() == i,
                forall|j: int|
                    0 <= j < i ==> (#[trigger] deltas@[j])@ == records@[j]@.since(
                        RecordView::first_with(older@.records, records@[j]@.stack_id),
                    ),
        {
            let record = &records[i];
            assert(newer@.records[i as int] == record@);
            let delta = match find_record(older.records(), record.stack_id) {
                Some(prev) => SnapshotRecord {
                    allocations: record.allocations.saturating_sub(prev.allocations),
                    current_bytes: record.current_bytes - prev.current_bytes,
                    deallocations: record.deallocations.saturating_sub(prev.deallocations),
                    stack: match &record.stack {
                        Some(stack) => Some(stack.clone()),
                        None => None,
                    },
                    stack_id: record.stack_id,
                    total_allocated: record.total_allocated.saturating_sub(prev.total_allocated),
                    total_freed: record.total_freed.saturating_sub(prev.total_freed),
                },
                None => record.clone(),
            };
            deltas.push(delta);
        }

        let dropped_events: i64 = Saturating::narrow(
            newer.dropped_events() as i128 - older.dropped_events() as i128,
        );
        let delta = SnapshotDelta::new(deltas, dropped_events);
        assert(delta@.records =~= DeltaView::between(newer@, older@).records) by {
            assert forall|j: int| 0 <= j < deltas@.len() implies delta@.records[j]
                == DeltaView::between(newer@, older@).records[j] by {
                assert(newer@.records[j] == records@[j]@);
            }
        }
        delta
    }

    #[must_use]
    pub fn new(records: Vec<SnapshotRecord>, dropped_events: i64) -> (delta: Self)
        ensures
            delta@ == (DeltaView { dropped_events, records: RecordView::all(records@) }),
    {
        SnapshotDelta { dropped_events, records }
    }

    #[must_use]
    pub fn records(&self) -> (records: &[SnapshotRecord])
        ensures
            RecordView::all(records@) == self@.records,
    {
        &self.records
    }
}

/// Comparing a snapshot with itself shows no change: every counter and every
/// byte count of the diff is zero.
pub proof fn law_no_change_since_itself(snapshot: SnapshotView)
    requires
        RecordView::distinct_ids(snapshot.records),
    ensures
        DeltaView::exists_between(snapshot, snapshot),
        DeltaView::between(snapshot, snapshot).dropped_events == 0,
        forall|i: int|
            0 <= i < snapshot.records.len() ==> {
                let change = #[trigger] DeltaView::between(snapshot, snapshot).records[i];
                &&& change.stack_id == snapshot.records[i].stack_id
                &&& change.allocations == 0
                &&& change.deallocations == 0
                &&& change.current_bytes == 0
                &&& change.total_allocated == 0
                &&& change.total_freed == 0
            },
{
    assert forall|i: int| 0 <= i < snapshot.records.len() implies RecordView::first_with(
        snapshot.records,
        (#[trigger] snapshot.records[i]).stack_id,
    ) == Some(snapshot.records[i]) by {
        lemma_first_with_distinct(snapshot.records, i);
    }
}

/// A stack that the older snapshot does not know is new as a whole: its record
/// stands in the diff as it stands in the newer snapshot.
pub proof fn law_new_stacks_are_shown_in_full(newer: SnapshotView, older: SnapshotView, i: int)
    requires
        0 <= i < newer.records.len(),
        forall|j: int|
            0 <= j < older.records.len() ==> (#[trigger] older.records[j]).stack_id
                != newer.records[i].stack_id,
    ensures
        DeltaView::between(newer, older).records.len() == newer.records.len(),
        ({
            let record = newer.records[i];
            let change = DeltaView::between(newer, older).records[i];
            &&& change.allocations == record.allocations
            &&& change.deallocations == record.deallocations
            &&& change.current_bytes == record.current_bytes
            &&& change.total_allocated == record.total_allocated
            &&& change.total_freed == record.total_freed
            &&& change.stack == record.stack
            &&& change.stack_id == record.stack_id
        }),
{
    lemma_first_with_none(older.records, newer.records[i].stack_id);
}

/// The first of the records with an identifier is the one before which none
/// has it.
proof fn lemma_first_with_some(records: Seq<RecordView>, j: int)
    requires
        0 <= j < records.len(),
        forall|k: int| 0 <= k < j ==> (#[trigger] records[k]).stack_id != records[j].stack_id,
    ensures
        RecordView::first_with(records, records[j].stack_id) == Some(records[j]),
{
    let stack_id = records[j].stack_id;
    let rest = records.take(j);
    assert(records.take(j + 1).drop_last() =~= rest);
    assert forall|k: int| 0 <= k < rest.len() implies (#[trigger] rest[k]).stack_id != stack_id by {
        assert(rest[k] == records[k]);
    }
    lemma_first_with_none(rest, stack_id);
    lemma_first_with_prefix(records, j + 1, stack_id);
}

/// A stack that the older snapshot knows is shown with what came on top since:
/// each counter with its difference, or zero where it went back, and the
/// current bytes with their difference, which may be negative. Of several older
/// records with one identifier the first counts.
pub proof fn law_known_stacks_are_shown_by_their_change(
    newer: SnapshotView,
    older: SnapshotView,
    i: int,
    j: int,
)
    requires
        DeltaView::exists_between(newer, older),
        0 <= i < newer.records.len(),
        0 <= j < older.records.len(),
        older.records[j].stack_id == newer.records[i].stack_id,
        forall|k: int|
            0 <= k < j ==> (#[trigger] older.records[k]).stack_id != newer.records[i].stack_id,
    ensures
        DeltaView::between(newer, older).records.len() == newer.records.len(),
        ({
            let record = newer.records[i];
            let prev = older.records[j];
            let change = DeltaView::between(newer, older).records[i];
            &&& change.allocations == if record.allocations > prev.allocations {
                record.allocations - prev.allocations
            } else {
                0
            }
            &&& change.deallocations == if record.deallocations > prev.deallocations {
                record.deallocations - prev.deallocations
            } else {
                0
            }
            &&& change.total_allocated == if record.total_allocated > prev.total_allocated {
                record.total_allocated - prev.total_allocated
            } else {
                0
            }
            &&& change.total_freed == if record.total_freed > prev.total_freed {
                record.total_freed - prev.total_freed
            } else {
                0
            }
            &&& change.current_bytes == record.current_bytes - prev.current_bytes
            &&& change.stack == record.stack
            &&& change.stack_id == record.stack_id
        }),
{
    lemma_first_with_some(older.records, j);
    assert(newer.records[i].comparable_to(
        RecordView::first_with(older.records, newer.records[i].stack_id),
    ));
}

/// Two snapshots can be compared unless the bytes of some stack moved further
/// than the range of the difference.
pub proof fn law_snapshots_compare_where_the_bytes_do(newer: SnapshotView, older: SnapshotView)
    requires
        RecordView::distinct_ids(older.records),
    ensures
        DeltaView::exists_between(newer, older) <==> forall|i: int, j: int|
            0 <= i < newer.records.len() && 0 <= j < older.records.len() && (
            #[trigger] newer.records[i]).stack_id == (#[trigger] older.records[j]).stack_id
                ==> i64::MIN <= newer.records[i].current_bytes - older.records[j].current_bytes
                <= i64::MAX,
{
    if DeltaView::exists_between(newer, older) {
        assert forall|i: int, j: int|
            0 <= i < newer.records.len() && 0 <= j < older.records.len() && (
            #[trigger] newer.records[i]).stack_id == (
            #[trigger] older.records[j]).stack_id implies i64::MIN <= newer.records[i].current_bytes
            - older.records[j].current_bytes <= i64::MAX by {
            lemma_first_with_distinct(older.records, j);
            assert(newer.records[i].comparable_to(
                RecordView::first_with(older.records, newer.records[i].stack_id),
            ));
        }
    }
    if forall|i: int, j: int|
        0 <= i < newer.records.len() && 0 <= j < older.records.len() && (
        #[trigger] newer.records[i]).stack_id == (#[trigger] older.records[j]).stack_id
            ==> i64::MIN <= newer.records[i].current_bytes - older.records[j].current_bytes
            <= i64::MAX {
        assert forall|i: int| 0 <= i < newer.records.len() implies (
        #[trigger] newer.records[i]).comparable_to(
            RecordView::first_with(older.records, newer.records[i].stack_id),
        ) by {
            let stack_id = newer.records[i].stack_id;
            if exists|j: int|
                0 <= j < older.records.len() && (#[trigger] older.records[j]).stack_id
                    == stack_id {
                let j = choose|j: int|
                    0 <= j < older.records.len() && (#[trigger] older.records[j]).stack_id
                        == stack_id;
                lemma_first_with_distinct(older.records, j);
            } else {
                lemma_first_with_none(older.records, stack_id);
            }
        }
    }
}

/// The dropped events of a diff are those of the newer snapshot without those
/// of the older, up to the ends of their range.
pub proof fn law_dropped_events_are_compared(newer: SnapshotView, older: SnapshotView)
    ensures
        ({
            let change = newer.dropped_events - older.dropped_events;
            let dropped = DeltaView::between(newer, older).dropped_events;
            &&& i64::MIN <= change <= i64::MAX ==> dropped == change
            &&& change < i64::MIN ==> dropped == i64::MIN
            &&& change > i64::MAX ==> dropped == i64::MAX
        }),
{
}

/// A diff adds up: where the counters of a record did not shrink since the
/// older snapshot, the older record plus the change is the newer record.
pub proof fn law_older_plus_change_is_newer(newer: SnapshotView, older: SnapshotView, i: int)
    requires
        DeltaView::exists_between(newer, older),
        0 <= i < newer.records.len(),
        RecordView::first_with(older.records, newer.records[i].stack_id) matches Some(prev) && {
            &&& prev.allocations <= newer.records[i].allocations
            &&& prev.deallocations <= newer.records[i].deallocations
            &&& prev.total_allocated <= newer.records[i].total_allocated
            &&& prev.total_freed <= newer.records[i].total_freed
        },
    ensures
        ({
            let record = newer.records[i];
            let prev = RecordView::first_with(older.records, record.stack_id)->0;
            let change = DeltaView::between(newer, older).records[i];
            &&& prev.allocations + change.allocations == record.allocations
            &&& prev.deallocations + change.deallocations == record.deallocations
            &&& prev.current_bytes + change.current_bytes == record.current_bytes
            &&& prev.total_allocated + change.total_allocated == record.total_allocated
            &&& prev.total_freed + change.total_freed == record.total_freed
        }),
{
    assert(newer.records[i].comparable_to(
        RecordView::first_with(older.records, newer.records[i].stack_id),
    ));
}

} // verus!
