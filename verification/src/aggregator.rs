//! Aggregated allocation statistics.

use crate::arith::Saturating;
use crate::event::{AllocationEvent, EventKind, EventView, StackId};
use crate::frames::FrameView;
use crate::ranking::{rank, StackStats};
use crate::snapshot::{RecordView, Snapshot, SnapshotRecord, SnapshotView};
use crate::stack::{StackTable, StackView};
use std::collections::HashMap;
use vstd::prelude::*;

verus! {

broadcast use vstd::std_specs::hash::group_hash_axioms;

/// What is known of the allocations attributed to one stack.
#[derive(Debug, Clone, Copy)]
pub struct AllocationStats {
    pub allocations: u64,
    pub current_bytes: i64,
    pub deallocations: u64,
    pub total_allocated: u64,
    pub total_freed: u64,
}

impl Default for AllocationStats {
    fn default() -> (stats: Self)
        ensures
            stats == AllocationStats::initial(),
    {
        AllocationStats {
            allocations: 0,
            current_bytes: 0,
            deallocations: 0,
            total_allocated: 0,
            total_freed: 0,
        }
    }
}

impl AllocationStats {
    /// Nothing allocated, nothing freed.
    pub open spec fn initial() -> AllocationStats {
        AllocationStats {
            allocations: 0,
            current_bytes: 0,
            deallocations: 0,
            total_allocated: 0,
            total_freed: 0,
        }
    }

    /// The statistics after an allocation of the given size. Counters stop at
    /// the ends of their range.
    pub open spec fn allocated(self, size: usize) -> AllocationStats {
        AllocationStats {
            allocations: self.allocations.saturating_add(1),
            current_bytes: Saturating::to_i64(self.current_bytes + size),
            total_allocated: self.total_allocated.saturating_add(size as u64),
            ..self
        }
    }

    /// The statistics after a deallocation of the given size.
    pub open spec fn deallocated(self, size: usize) -> AllocationStats {
        AllocationStats {
            deallocations: self.deallocations.saturating_add(1),
            current_bytes: Saturating::to_i64(self.current_bytes - size),
            total_freed: self.total_freed.saturating_add(size as u64),
            ..self
        }
    }

    fn on_allocation(&mut self, size_signed: i64, size_unsigned: u64)
        requires
            0 <= size_signed == size_unsigned <= usize::MAX,
        ensures
            *final(self) == old(self).allocated(size_unsigned as usize),
    {
        self.current_bytes = Saturating::narrow(self.current_bytes as i128 + size_signed as i128);
        self.allocations = self.allocations.saturating_add(1);
        self.total_allocated = self.total_allocated.saturating_add(size_unsigned);
    }

    fn on_deallocation(&mut self, size_signed: i64, size_unsigned: u64)
        requires
            0 <= size_signed == size_unsigned <= usize::MAX,
        ensures
            *final(self) == old(self).deallocated(size_unsigned as usize),
    {
        self.current_bytes = Saturating::narrow(self.current_bytes as i128 - size_signed as i128);
        self.deallocations = self.deallocations.saturating_add(1);
        self.total_freed = self.total_freed.saturating_add(size_unsigned);
    }
}

/// A size in both of the forms in which it is counted, where it has both.
fn convert_size(size: usize) -> (sizes: Option<(i64, u64)>)
    ensures
        match sizes {
            Some((signed, unsigned)) => signed == size && unsigned == size,
            None => size > i64::MAX,
        },
{
    if size as u128 > i64::MAX as u128 {
        None
    } else {
        Some((size as i64, size as u64))
    }
}

/// The state of an aggregator.
#[verifier::ext_equal]
pub struct AggregatorView {
    pub dropped_events: u64,
    pub stats: Map<StackId, AllocationStats>,
}

impl AggregatorView {
    /// The aggregator that has seen nothing.
    pub open spec fn initial() -> Self {
        AggregatorView { dropped_events: 0, stats: Map::empty() }
    }

    /// The statistics of a stack, known or not.
    pub open spec fn stats_of(self, stack_id: StackId) -> AllocationStats {
        if self.stats.contains_key(stack_id) {
            self.stats[stack_id]
        } else {
            AllocationStats::initial()
        }
    }

    pub open spec fn drop_events(self, count: u64) -> Self {
        AggregatorView { dropped_events: self.dropped_events.saturating_add(count), ..self }
    }

    /// The aggregator once it has seen an event. An event whose size cannot be
    /// counted is counted as dropped.
    pub open spec fn see(self, event: EventView) -> Self {
        match event.kind {
            EventKind::Allocation => if event.size <= i64::MAX {
                AggregatorView {
                    stats: self.stats.insert(
                        event.stack_id,
                        self.stats_of(event.stack_id).allocated(event.size),
                    ),
                    ..self
                }
            } else {
                self.drop_events(1)
            },
            EventKind::Deallocation => if event.size <= i64::MAX {
                AggregatorView {
                    stats: self.stats.insert(
                        event.stack_id,
                        self.stats_of(event.stack_id).deallocated(event.size),
                    ),
                    ..self
                }
            } else {
                self.drop_events(1)
            },
            EventKind::Dropped { count } => self.drop_events(count),
        }
    }

    /// The aggregator once it has seen a sequence of events.
    pub open spec fn see_all(self, events: Seq<EventView>) -> Self
        decreases events.len(),
    {
        if events.len() == 0 {
            self
        } else {
            self.see_all(events.drop_last()).see(events.last())
        }
    }

    /// The record of a stack, with its frames where they are known.
    pub open spec fn record_of(
        self,
        stack_id: StackId,
        stacks: Map<StackId, Seq<FrameView>>,
    ) -> RecordView {
        let stats = self.stats[stack_id];
        RecordView {
            allocations: stats.allocations,
            current_bytes: stats.current_bytes,
            deallocations: stats.deallocations,
            stack: if stacks.contains_key(stack_id) {
                Some(StackView { frames: stacks[stack_id], id: stack_id })
            } else {
                None
            },
            stack_id,
            total_allocated: stats.total_allocated,
            total_freed: stats.total_freed,
        }
    }

    /// Whether a snapshot shows the aggregator: one record for each stack,
    /// those that hold the most bytes first. The order of records with the
    /// same number of bytes is open.
    pub open spec fn shown_by(
        self,
        snapshot: SnapshotView,
        stacks: Map<StackId, Seq<FrameView>>,
    ) -> bool {
        &&& snapshot.dropped_events == self.dropped_events
        &&& RecordView::distinct_ids(snapshot.records)
        &&& forall|i: int|
            0 <= i < snapshot.records.len() ==> {
                let record = #[trigger] snapshot.records[i];
                self.stats.contains_key(record.stack_id) && record == self.record_of(
                    record.stack_id,
                    stacks,
                )
            }
        &&& forall|stack_id: StackId| #[trigger]
            self.stats.contains_key(stack_id) ==> exists|i: int|
                0 <= i < snapshot.records.len() && (#[trigger] snapshot.records[i]).stack_id
                    == stack_id
        &&& forall|i: int, j: int|
            0 <= i < j < snapshot.records.len() ==> (#[trigger] snapshot.records[i]).current_bytes
                >= (#[trigger] snapshot.records[j]).current_bytes
    }
}

/// Aggregates allocation events keyed by stack identifier.
#[derive(Debug)]
pub struct Aggregator {
    dropped_events: u64,
    stats: HashMap<StackId, AllocationStats>,
}

impl View for Aggregator {
    type V = AggregatorView;

    closed spec fn view(&self) -> AggregatorView {
        AggregatorView { dropped_events: self.dropped_events, stats: self.stats@ }
    }
}

impl Default for Aggregator {
    fn default() -> (aggregator: Self)
        ensures
            aggregator@ == AggregatorView::initial(),
    {
        Aggregator { dropped_events: 0, stats: HashMap::new() }
    }
}

impl Aggregator {
    fn stats_of(&self, stack_id: StackId) -> (stats: AllocationStats)
        ensures
            stats == self@.stats_of(stack_id),
    {
        match self.stats.get(&stack_id) {
            Some(stats) => *stats,
            None => AllocationStats::default(),
        }
    }

    fn see(&mut self, event: AllocationEvent)
        ensures
            final(self)@ == old(self)@.see(event@),
    {
        match event.kind {
            EventKind::Allocation => {
                if let Some((size_signed, size_unsigned)) = convert_size(event.size) {
                    let mut stats = self.stats_of(event.stack_id);
                    stats.on_allocation(size_signed, size_unsigned);
                    self.stats.insert(event.stack_id, stats);
                } else {
                    self.dropped_events = self.dropped_events.saturating_add(1);
                }
            },
            EventKind::Deallocation => {
                if let Some((size_signed, size_unsigned)) = convert_size(event.size) {
                    let mut stats = self.stats_of(event.stack_id);
                    stats.on_deallocation(size_signed, size_unsigned);
                    self.stats.insert(event.stack_id, stats);
                } else {
                    self.dropped_events = self.dropped_events.saturating_add(1);
                }
            },
            EventKind::Dropped { count } => {
                self.dropped_events = self.dropped_events.saturating_add(count);
            },
        }
    }

    /// Update the aggregate statistics based on a stream of events.
    pub fn ingest(&mut self, events: Vec<AllocationEvent>)
        ensures
            final(self)@ == old(self)@.see_all(EventView::all(events@)),
    {
        let ghost views = EventView::all(events@);
        for i in 0..events.len()
            invariant
                views == EventView::all(events@),
                self@ == old(self)@.see_all(views.take(i as int)),
        {
            assert(views.take(i as int + 1).drop_last() =~= views.take(i as int));
            assert(views.take(i as int + 1).last() == events@[i as int]@);
            self.see(events[i]);
        }
        assert(views.take(views.len() as int) =~= views);
    }

    #[must_use]
    pub fn new() -> (aggregator: Self)
        ensures
            aggregator@ == AggregatorView::initial(),
    {
        Aggregator::default()
    }

    /// Clears all aggregated statistics.
    pub fn reset(&mut self)
        ensures
            final(self)@ == AggregatorView::initial(),
    {
        self.stats.clear();
        self.dropped_events = 0;
    }

    /// The statistics of all stacks, in no particular order.
    fn entries(&self) -> (entries: Vec<StackStats>)
        ensures
            self.listed(entries@),
    {
        let mut ids: Vec<StackId> = Vec::new();
        for key in keys: self.stats.keys()
            invariant
                ids@.len() == keys.index(),
                keys.seq().no_duplicates(),
                keys.seq().unref().to_set() == self.stats@.dom(),
                forall|i: int| 0 <= i < ids@.len() ==> #[trigger] ids@[i] == *keys.seq()[i],
                ids@.len() == keys.seq().len() ==> ids@ == keys.seq().unref(),
        {
            ids.push(*key);
            assert(ids@.len() == keys.seq().len() ==> ids@ =~= keys.seq().unref());
        }
        assert(ids@.to_set() == self.stats@.dom());
        let mut entries: Vec<StackStats> = Vec::new();
        for i in 0..ids.len()
            invariant
                ids@.to_set() == self.stats@.dom(),
                entries@.len() == i,
                forall|j: int|
                    0 <= j < i ==> {
                        let entry = #[trigger] entries@[j];
                        entry.stack_id == ids@[j] && self.stats@.contains_key(entry.stack_id)
                            && entry.stats == self.stats@[entry.stack_id]
                    },
        {
            let stack_id: StackId = ids[i];
            assert(ids@.to_set().contains(stack_id));
            entries.push(StackStats { stack_id, stats: self.stats_of(stack_id) });
        }
        proof {
            self.lemma_listed(entries@, ids@);
        }
        entries
    }

    proof fn lemma_listed(&self, entries: Seq<StackStats>, keys: Seq<StackId>)
        requires
            keys.no_duplicates(),
            keys.to_set() == self.stats@.dom(),
            entries.len() == keys.len(),
            forall|i: int|
                0 <= i < entries.len() ==> {
                    let entry = #[trigger] entries[i];
                    entry.stack_id == keys[i] && self.stats@.contains_key(entry.stack_id)
                        && entry.stats == self.stats@[entry.stack_id]
                },
        ensures
            self.listed(entries),
    {
        assert forall|entry: StackStats|
            self.stats@.contains_key(entry.stack_id) && entry.stats
                == self.stats@[entry.stack_id] implies #[trigger] entries.contains(entry) by {
            assert(keys.to_set().contains(entry.stack_id));
            let i = choose|i: int| 0 <= i < keys.len() && keys[i] == entry.stack_id;
            assert(entries[i] == entry);
        }
    }

    /// Whether the entries are the statistics of all stacks, each once.
    spec fn listed(&self, entries: Seq<StackStats>) -> bool {
        &&& entries.no_duplicates()
        &&& forall|entry: StackStats| #[trigger]
            entries.contains(entry) <==> self.stats@.contains_key(entry.stack_id) && entry.stats
                == self.stats@[entry.stack_id]
    }

    proof fn lemma_listed_ranking(&self, entries: Seq<StackStats>, ranking: Seq<StackStats>)
        requires
            self.listed(entries),
            entries.to_multiset() == ranking.to_multiset(),
        ensures
            self.listed(ranking),
    {
        broadcast use vstd::seq_lib::group_to_multiset_ensures;

        entries.lemma_multiset_has_no_duplicates();
        assert forall|entry: StackStats| ranking.to_multiset().contains(
            entry,
        ) implies ranking.to_multiset().count(entry) == 1 by {
            assert(entries.to_multiset().contains(entry));
        }
        ranking.lemma_multiset_has_no_duplicates_conv();
        assert forall|entry: StackStats| #[trigger]
            ranking.contains(entry) == entries.contains(entry) by {
            assert(ranking.contains(entry) <==> ranking.to_multiset().count(entry) > 0);
            assert(entries.contains(entry) <==> entries.to_multiset().count(entry) > 0);
        }
    }

    /// Produce a snapshot that callers can later diff, without the frames of
    /// the stacks.
    #[must_use]
    pub fn snapshot(&self) -> (snapshot: Snapshot)
        ensures
            self@.shown_by(snapshot@, Map::empty()),
    {
        self.snapshot_with_stacks(&StackTable::new())
    }

    /// Produce a snapshot that carries the frames of the stacks that the table
    /// knows.
    #[must_use]
    pub fn snapshot_with_stacks(&self, table: &StackTable) -> (snapshot: Snapshot)
        requires
            table.wf(),
        ensures
            self@.shown_by(snapshot@, table@.stacks),
    {
        let entries = self.entries();
        let ranking = rank(entries);
        proof {
            self.lemma_listed_ranking(entries@, ranking@);
        }
        let mut records: Vec<SnapshotRecord> = Vec::new();
        for i in 0..ranking.len()
            invariant
                table.wf(),
                self.listed(ranking@),
                records@.len() == i,
                forall|j: int|
                    0 <= j < i ==> (#[trigger] records@[j])@ == self@.record_of(
                        ranking@[j].stack_id,
                        table@.stacks,
                    ),
        {
            let entry = ranking[i];
            assert(ranking@.contains(entry));
            records.push(
                SnapshotRecord {
                    allocations: entry.stats.allocations,
                    current_bytes: entry.stats.current_bytes,
                    deallocations: entry.stats.deallocations,
                    stack: table.resolve(entry.stack_id),
                    stack_id: entry.stack_id,
                    total_allocated: entry.stats.total_allocated,
                    total_freed: entry.stats.total_freed,
                },
            );
        }
        let snapshot = Snapshot::new(records, self.dropped_events);
        proof {
            let views = snapshot@.records;
            assert forall|i: int| 0 <= i < views.len() implies {
                let record = #[trigger] views[i];
                &&& record.stack_id == ranking@[i].stack_id
                &&& record.current_bytes == ranking@[i].stats.current_bytes
                &&& self@.stats.contains_key(record.stack_id)
                &&& self@.stats[record.stack_id] == ranking@[i].stats
                &&& record == self@.record_of(record.stack_id, table@.stacks)
            } by {
                assert(views[i] == records@[i]@);
                assert(ranking@.contains(ranking@[i]));
            }
            assert forall|i: int, j: int|
                0 <= i < views.len() && 0 <= j < views.len() && (#[trigger] views[i]).stack_id == (
                #[trigger] views[j]).stack_id implies i == j by {
                assert(ranking@[i] == ranking@[j]);
            }
            assert forall|stack_id: StackId| #[trigger]
                self@.stats.contains_key(stack_id) implies exists|i: int|
                0 <= i < views.len() && (#[trigger] views[i]).stack_id == stack_id by {
                let entry = StackStats { stack_id, stats: self@.stats[stack_id] };
                assert(ranking@.contains(entry));
                let i = choose|i: int| 0 <= i < ranking@.len() && ranking@[i] == entry;
                assert(views[i].stack_id == stack_id);
            }
        }
        snapshot
    }
}

} // verus!
