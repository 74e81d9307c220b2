//! What an aggregator knows after a sequence of events.

use crate::aggregator::{AggregatorView, AllocationStats};
use crate::event::{EventKind, EventView, StackId};
use crate::frames::FrameView;
use crate::snapshot::{RecordView, SnapshotView};
use vstd::prelude::*;

verus! {

impl EventView {
    /// The sum of what each of the events weighs.
    pub open spec fn total(events: Seq<EventView>, weight: spec_fn(EventView) -> nat) -> nat
        decreases events.len(),
    {
        if events.len() == 0 {
            0
        } else {
            Self::total(events.drop_last(), weight) + weight(events.last())
        }
    }

    /// Whether the event is an allocation of countable size for the stack.
    pub open spec fn allocates_for(self, stack_id: StackId) -> bool {
        self.kind is Allocation && self.stack_id == stack_id && self.size <= i64::MAX
    }

    /// Whether the event is a deallocation of countable size for the stack.
    pub open spec fn frees_for(self, stack_id: StackId) -> bool {
        self.kind is Deallocation && self.stack_id == stack_id && self.size <= i64::MAX
    }

    /// Whether the event counts for the stack.
    pub open spec fn counts_for(self, stack_id: StackId) -> bool {
        self.allocates_for(stack_id) || self.frees_for(stack_id)
    }

    /// How many events this one stands for that were not counted.
    pub open spec fn lost(self) -> nat {
        match self.kind {
            EventKind::Dropped { count } => count as nat,
            _ => if self.size > i64::MAX {
                1
            } else {
                0
            },
        }
    }

    /// How many allocations of a stack there are among the events.
    pub open spec fn allocations(events: Seq<EventView>, stack_id: StackId) -> nat {
        Self::total(
            events,
            |event: EventView|
                if event.allocates_for(stack_id) {
                    1
                } else {
                    0
                },
        )
    }

    /// How many deallocations of a stack there are among the events.
    pub open spec fn deallocations(events: Seq<EventView>, stack_id: StackId) -> nat {
        Self::total(
            events,
            |event: EventView|
                if event.frees_for(stack_id) {
                    1
                } else {
                    0
                },
        )
    }

    /// How many bytes the events allocate for a stack.
    pub open spec fn bytes_allocated(events: Seq<EventView>, stack_id: StackId) -> nat {
        Self::total(
            events,
            |event: EventView|
                if event.allocates_for(stack_id) {
                    event.size as nat
                } else {
                    0
                },
        )
    }

    /// How many bytes the events free for a stack.
    pub open spec fn bytes_freed(events: Seq<EventView>, stack_id: StackId) -> nat {
        Self::total(
            events,
            |event: EventView|
                if event.frees_for(stack_id) {
                    event.size as nat
                } else {
                    0
                },
        )
    }

    /// How many events were not counted.
    pub open spec fn events_lost(events: Seq<EventView>) -> nat {
        Self::total(events, |event: EventView| event.lost())
    }

    proof fn lemma_total_without(
        events: Seq<EventView>,
        weight: spec_fn(EventView) -> nat,
        i: int,
    )
        requires
            0 <= i < events.len(),
        ensures
            Self::total(events, weight) == Self::total(events.remove(i), weight) + weight(
                events[i],
            ),
        decreases events.len(),
    {
        if i == events.len() - 1 {
            assert(events.remove(i) =~= events.drop_last());
        } else {
            Self::lemma_total_without(events.drop_last(), weight, i);
            assert(events.remove(i).drop_last() =~= events.drop_last().remove(i));
            assert(events.remove(i).last() == events.last());
        }
    }

    /// A sum does not depend on the order of the events.
    pub proof fn law_totals_have_no_order(
        events: Seq<EventView>,
        others: Seq<EventView>,
        weight: spec_fn(EventView) -> nat,
    )
        requires
            events.to_multiset() == others.to_multiset(),
        ensures
            Self::total(events, weight) == Self::total(others, weight),
        decreases events.len(),
    {
        broadcast use vstd::seq_lib::group_to_multiset_ensures;

        assert(events.len() == events.to_multiset().len());
        assert(others.len() == others.to_multiset().len());
        if events.len() > 0 {
            let event = events.last();
            assert(events.contains(event));
            assert(others.to_multiset().count(event) > 0);
            let i = choose|i: int| 0 <= i < others.len() && others[i] == event;
            assert(events.remove(events.len() - 1) =~= events.drop_last());
            assert(events.drop_last().to_multiset() =~= others.remove(i).to_multiset());
            Self::law_totals_have_no_order(events.drop_last(), others.remove(i), weight);
            Self::lemma_total_without(others, weight, i);
        }
    }
}

impl AllocationStats {
    /// The bytes that a stack holds once it holds what the events leave of
    /// their allocations.
    pub open spec fn bytes_after(self, events: Seq<EventView>, stack_id: StackId) -> int {
        self.current_bytes + EventView::bytes_allocated(events, stack_id)
            - EventView::bytes_freed(events, stack_id)
    }

    /// Whether no counter comes to the end of its range on the way through the
    /// events.
    pub open spec fn counts(self, events: Seq<EventView>, stack_id: StackId) -> bool {
        &&& self.allocations + EventView::allocations(events, stack_id) <= u64::MAX
        &&& self.deallocations + EventView::deallocations(events, stack_id) <= u64::MAX
        &&& self.total_allocated + EventView::bytes_allocated(events, stack_id) <= u64::MAX
        &&& self.total_freed + EventView::bytes_freed(events, stack_id) <= u64::MAX
        &&& forall|n: int|
            0 <= n <= events.len() ==> i64::MIN <= #[trigger] self.bytes_after(
                events.take(n),
                stack_id,
            ) <= i64::MAX
    }

    /// The statistics with what the events of a stack add up to.
    pub open spec fn plus(self, events: Seq<EventView>, stack_id: StackId) -> Self {
        AllocationStats {
            allocations: (self.allocations + EventView::allocations(events, stack_id)) as u64,
            current_bytes: self.bytes_after(events, stack_id) as i64,
            deallocations: (self.deallocations + EventView::deallocations(events, stack_id)) as u64,
            total_allocated: (self.total_allocated + EventView::bytes_allocated(
                events,
                stack_id,
            )) as u64,
            total_freed: (self.total_freed + EventView::bytes_freed(events, stack_id)) as u64,
        }
    }
}

impl AggregatorView {
    /// Events may come in parts.
    pub proof fn law_events_come_in_parts(self, first: Seq<EventView>, second: Seq<EventView>)
        ensures
            self.see_all(first + second) == self.see_all(first).see_all(second),
        decreases second.len(),
    {
        if second.len() == 0 {
            assert(first + second =~= first);
        } else {
            self.law_events_come_in_parts(first, second.drop_last());
            assert((first + second).drop_last() =~= first + second.drop_last());
            assert((first + second).last() == second.last());
        }
    }

    /// The statistics of a stack grow by the sums over its events: how many
    /// allocations and deallocations there were, how many bytes they allocated
    /// and freed, and as the current bytes the difference of the two.
    pub proof fn law_statistics_are_sums(self, events: Seq<EventView>, stack_id: StackId)
        requires
            self.stats_of(stack_id).counts(events, stack_id),
        ensures
            self.see_all(events).stats_of(stack_id) == self.stats_of(stack_id).plus(
                events,
                stack_id,
            ),
        decreases events.len(),
    {
        let start = self.stats_of(stack_id);
        if events.len() > 0 {
            let rest = events.drop_last();
            assert(events.take(events.len() as int) =~= events);
            assert forall|n: int| 0 <= n <= rest.len() implies i64::MIN
                <= #[trigger] start.bytes_after(rest.take(n), stack_id) <= i64::MAX by {
                assert(rest.take(n) =~= events.take(n));
                assert(start.bytes_after(events.take(n), stack_id) <= i64::MAX);
            }
            assert(rest.take(rest.len() as int) =~= rest);
            assert(start.bytes_after(rest.take(rest.len() as int), stack_id) <= i64::MAX);
            assert(start.bytes_after(events.take(events.len() as int), stack_id) <= i64::MAX);
            self.law_statistics_are_sums(rest, stack_id);
        }
    }

    /// A stack has statistics from its first countable event on.
    pub proof fn law_stacks_with_events_have_statistics(
        self,
        events: Seq<EventView>,
        stack_id: StackId,
    )
        ensures
            self.see_all(events).stats.contains_key(stack_id) <==> self.stats.contains_key(stack_id)
                || EventView::allocations(events, stack_id) + EventView::deallocations(
                events,
                stack_id,
            ) > 0,
        decreases events.len(),
    {
        if events.len() > 0 {
            self.law_stacks_with_events_have_statistics(events.drop_last(), stack_id);
        }
    }

    /// All events that were lost are counted as dropped, up to the end of the
    /// counter's range.
    pub proof fn law_lost_events_are_counted(self, events: Seq<EventView>)
        ensures
            self.see_all(events).dropped_events == if self.dropped_events + EventView::events_lost(
                events,
            ) > u64::MAX {
                u64::MAX as int
            } else {
                self.dropped_events + EventView::events_lost(events)
            },
        decreases events.len(),
    {
        if events.len() > 0 {
            self.law_lost_events_are_counted(events.drop_last());
        }
    }

    /// The order in which events arrive makes no difference, as long as no
    /// counter comes to the end of its range in either order.
    pub proof fn law_events_have_no_order(self, events: Seq<EventView>, others: Seq<EventView>)
        requires
            events.to_multiset() == others.to_multiset(),
            forall|stack_id: StackId| #[trigger]
                self.stats_of(stack_id).counts(events, stack_id),
            forall|stack_id: StackId| #[trigger]
                self.stats_of(stack_id).counts(others, stack_id),
        ensures
            self.see_all(events) == self.see_all(others),
    {
        let one = self.see_all(events);
        let other = self.see_all(others);
        assert forall|stack_id: StackId|
            one.stats_of(stack_id) == other.stats_of(stack_id) && #[trigger] one.stats.contains_key(
                stack_id,
            ) == other.stats.contains_key(stack_id) by {
            assert(self.stats_of(stack_id).counts(events, stack_id));
            assert(self.stats_of(stack_id).counts(others, stack_id));
            Self::lemma_same_sums(events, others, stack_id);
            self.law_statistics_are_sums(events, stack_id);
            self.law_statistics_are_sums(others, stack_id);
            self.law_stacks_with_events_have_statistics(events, stack_id);
            self.law_stacks_with_events_have_statistics(others, stack_id);
        }
        assert forall|stack_id: StackId| #[trigger]
            one.stats.contains_key(stack_id) implies one.stats[stack_id]
            == other.stats[stack_id] by {
            assert(one.stats_of(stack_id) == other.stats_of(stack_id));
        }
        self.law_lost_events_are_counted(events);
        self.law_lost_events_are_counted(others);
        EventView::law_totals_have_no_order(events, others, |event: EventView| event.lost());
        assert(one =~= other);
    }

    /// Whether an event makes the same difference after some later events:
    /// it counts for no stack, or none of them counts for its stack, or no
    /// counter of its stack comes to the end of its range either way.
    pub open spec fn may_come_later(
        self,
        first: Seq<EventView>,
        event: EventView,
        second: Seq<EventView>,
    ) -> bool {
        let stack_id = event.stack_id;
        ||| !event.counts_for(stack_id)
        ||| forall|i: int| 0 <= i < second.len() ==> !(#[trigger] second[i]).counts_for(stack_id)
        ||| {
            &&& self.stats_of(stack_id).counts(first.push(event) + second, stack_id)
            &&& self.stats_of(stack_id).counts((first + second).push(event), stack_id)
        }
    }

    proof fn lemma_same_statistics(self, other: Self, events: Seq<EventView>, stack_id: StackId)
        requires
            self.stats_of(stack_id) == other.stats_of(stack_id),
            self.stats.contains_key(stack_id) == other.stats.contains_key(stack_id),
        ensures
            self.see_all(events).stats_of(stack_id) == other.see_all(events).stats_of(stack_id),
            self.see_all(events).stats.contains_key(stack_id) == other.see_all(
                events,
            ).stats.contains_key(stack_id),
        decreases events.len(),
    {
        if events.len() > 0 {
            self.lemma_same_statistics(other, events.drop_last(), stack_id);
        }
    }

    proof fn lemma_statistics_stay(self, events: Seq<EventView>, stack_id: StackId)
        requires
            forall|i: int| 0 <= i < events.len() ==> !(#[trigger] events[i]).counts_for(stack_id),
        ensures
            self.see_all(events).stats_of(stack_id) == self.stats_of(stack_id),
            self.see_all(events).stats.contains_key(stack_id) == self.stats.contains_key(stack_id),
        decreases events.len(),
    {
        if events.len() > 0 {
            let rest = events.drop_last();
            assert forall|i: int| 0 <= i < rest.len() implies !(#[trigger] rest[i]).counts_for(
                stack_id,
            ) by {
                assert(rest[i] == events[i]);
            }
            self.lemma_statistics_stay(rest, stack_id);
            assert(!events[events.len() - 1].counts_for(stack_id));
        }
    }

    /// An event may come later than others, where it makes the same difference
    /// there.
    pub proof fn law_events_may_come_later(
        self,
        first: Seq<EventView>,
        event: EventView,
        second: Seq<EventView>,
    )
        requires
            self.may_come_later(first, event, second),
        ensures
            self.see_all(first.push(event) + second) == self.see_all(first + second).see(event),
    {
        let early = first.push(event) + second;
        let late = (first + second).push(event);
        let start = self.see_all(first);
        let with = start.see(event);
        let one = self.see_all(early);
        let other = self.see_all(late);
        assert(first.push(event).drop_last() =~= first);
        assert(self.see_all(first.push(event)) == with);
        self.law_events_come_in_parts(first.push(event), second);
        self.law_events_come_in_parts(first, second);
        assert(late.drop_last() =~= first + second);
        assert(other == self.see_all(first + second).see(event));
        assert(one == with.see_all(second));
        assert(other == start.see_all(second).see(event));
        assert(early.to_multiset() =~= late.to_multiset()) by {
            broadcast use vstd::seq_lib::group_to_multiset_ensures;

            vstd::seq_lib::lemma_multiset_commutative(first.push(event), second);
            vstd::seq_lib::lemma_multiset_commutative(first, second);
        }
        assert forall|stack_id: StackId|
            one.stats_of(stack_id) == other.stats_of(stack_id) && #[trigger] one.stats.contains_key(
                stack_id,
            ) == other.stats.contains_key(stack_id) by {
            if stack_id != event.stack_id || !event.counts_for(stack_id) {
                with.lemma_same_statistics(start, second, stack_id);
            } else if forall|i: int|
                0 <= i < second.len() ==> !(#[trigger] second[i]).counts_for(stack_id) {
                with.lemma_statistics_stay(second, stack_id);
                start.lemma_statistics_stay(second, stack_id);
            } else {
                Self::lemma_same_sums(early, late, stack_id);
                self.law_statistics_are_sums(early, stack_id);
                self.law_statistics_are_sums(late, stack_id);
                self.law_stacks_with_events_have_statistics(early, stack_id);
                self.law_stacks_with_events_have_statistics(late, stack_id);
            }
        }
        assert forall|stack_id: StackId| #[trigger]
            one.stats.contains_key(stack_id) implies one.stats[stack_id]
            == other.stats[stack_id] by {
            assert(one.stats_of(stack_id) == other.stats_of(stack_id));
        }
        self.law_lost_events_are_counted(early);
        self.law_lost_events_are_counted(late);
        EventView::law_totals_have_no_order(early, late, |event: EventView| event.lost());
        assert(one =~= other);
    }

    proof fn lemma_same_sums(
        events: Seq<EventView>,
        others: Seq<EventView>,
        stack_id: StackId,
    )
        requires
            events.to_multiset() == others.to_multiset(),
        ensures
            EventView::allocations(events, stack_id) == EventView::allocations(others, stack_id),
            EventView::deallocations(events, stack_id) == EventView::deallocations(
                others,
                stack_id,
            ),
            EventView::bytes_allocated(events, stack_id) == EventView::bytes_allocated(
                others,
                stack_id,
            ),
            EventView::bytes_freed(events, stack_id) == EventView::bytes_freed(others, stack_id),
    {
        EventView::law_totals_have_no_order(
            events,
            others,
            |event: EventView|
                if event.allocates_for(stack_id) {
                    1
                } else {
                    0
                },
        );
        EventView::law_totals_have_no_order(
            events,
            others,
            |event: EventView|
                if event.frees_for(stack_id) {
                    1
                } else {
                    0
                },
        );
        EventView::law_totals_have_no_order(
            events,
            others,
            |event: EventView|
                if event.allocates_for(stack_id) {
                    event.size as nat
                } else {
                    0
                },
        );
        EventView::law_totals_have_no_order(
            events,
            others,
            |event: EventView|
                if event.frees_for(stack_id) {
                    event.size as nat
                } else {
                    0
                },
        );
    }

    /// To free what was just allocated restores the current bytes, unless they
    /// were at the end of their range.
    pub proof fn law_freeing_restores_current_bytes(
        self,
        allocation: EventView,
        deallocation: EventView,
    )
        requires
            allocation.allocates_for(allocation.stack_id),
            deallocation.frees_for(allocation.stack_id),
            deallocation.size == allocation.size,
            self.stats_of(allocation.stack_id).current_bytes + allocation.size <= i64::MAX,
        ensures
            self.see(allocation).see(deallocation).stats_of(allocation.stack_id).current_bytes
                == self.stats_of(allocation.stack_id).current_bytes,
            self.see(allocation).see(deallocation).dropped_events == self.dropped_events,
    {
    }

    /// An event touches the statistics of its own stack only.
    pub proof fn law_stacks_are_apart(self, event: EventView, stack_id: StackId)
        requires
            event.stack_id != stack_id,
        ensures
            self.see(event).stats.contains_key(stack_id) == self.stats.contains_key(stack_id),
            self.see(event).stats_of(stack_id) == self.stats_of(stack_id),
    {
    }

    /// An allocation of countable size adds one to the allocations of its
    /// stack, and its size to the current bytes and to the total allocated.
    /// Counters stop at the end of their range.
    pub proof fn law_allocations_add_up(self, event: EventView)
        requires
            event.kind is Allocation,
            event.size <= i64::MAX,
        ensures
            ({
                let before = self.stats_of(event.stack_id);
                let after = self.see(event).stats[event.stack_id];
                let bytes = before.current_bytes + event.size;
                let total = before.total_allocated + event.size;
                &&& self.see(event).stats.dom() == self.stats.dom().insert(event.stack_id)
                &&& self.see(event).dropped_events == self.dropped_events
                &&& before.allocations < u64::MAX ==> after.allocations == before.allocations + 1
                &&& before.allocations == u64::MAX ==> after.allocations == u64::MAX
                &&& bytes <= i64::MAX ==> after.current_bytes == bytes
                &&& bytes > i64::MAX ==> after.current_bytes == i64::MAX
                &&& total <= u64::MAX ==> after.total_allocated == total
                &&& total > u64::MAX ==> after.total_allocated == u64::MAX
                &&& after.deallocations == before.deallocations
                &&& after.total_freed == before.total_freed
            }),
    {
        assert(self.see(event).stats.dom() =~= self.stats.dom().insert(event.stack_id));
    }

    /// A deallocation of countable size adds one to the deallocations of its
    /// stack and its size to the total freed, and takes its size from the
    /// current bytes. Counters stop at the end of their range.
    pub proof fn law_deallocations_add_up(self, event: EventView)
        requires
            event.kind is Deallocation,
            event.size <= i64::MAX,
        ensures
            ({
                let before = self.stats_of(event.stack_id);
                let after = self.see(event).stats[event.stack_id];
                let bytes = before.current_bytes - event.size;
                let total = before.total_freed + event.size;
                &&& self.see(event).stats.dom() == self.stats.dom().insert(event.stack_id)
                &&& self.see(event).dropped_events == self.dropped_events
                &&& before.deallocations < u64::MAX ==> after.deallocations
                    == before.deallocations + 1
                &&& before.deallocations == u64::MAX ==> after.deallocations == u64::MAX
                &&& bytes >= i64::MIN ==> after.current_bytes == bytes
                &&& bytes < i64::MIN ==> after.current_bytes == i64::MIN
                &&& total <= u64::MAX ==> after.total_freed == total
                &&& total > u64::MAX ==> after.total_freed == u64::MAX
                &&& after.allocations == before.allocations
                &&& after.total_allocated == before.total_allocated
            }),
    {
        assert(self.see(event).stats.dom() =~= self.stats.dom().insert(event.stack_id));
    }

    /// A stack of which nothing was seen has all its counters at zero; of any
    /// other stack the statistics are those that were gathered.
    pub proof fn law_counters_start_at_zero(self, stack_id: StackId)
        ensures
            ({
                let stats = self.stats_of(stack_id);
                if self.stats.contains_key(stack_id) {
                    stats == self.stats[stack_id]
                } else {
                    &&& stats.allocations == 0
                    &&& stats.deallocations == 0
                    &&& stats.current_bytes == 0
                    &&& stats.total_allocated == 0
                    &&& stats.total_freed == 0
                }
            }),
    {
    }

    /// An event that cannot be counted adds to the dropped events as many as it
    /// stands for, and leaves the statistics as they are.
    pub proof fn law_dropped_events_add_up(self, event: EventView, count: u64)
        requires
            event.kind == (EventKind::Dropped { count }) || !(event.kind is Dropped) && event.size
                > i64::MAX && count == 1,
        ensures
            ({
                let total = self.dropped_events + count;
                let after = self.see(event);
                &&& after.stats == self.stats
                &&& total <= u64::MAX ==> after.dropped_events == total
                &&& total > u64::MAX ==> after.dropped_events == u64::MAX
            }),
    {
    }

    /// A record of a snapshot carries the statistics of its stack, field by
    /// field, and the frames of the stack where they are known.
    pub proof fn law_records_carry_the_statistics(
        self,
        snapshot: SnapshotView,
        stacks: Map<StackId, Seq<FrameView>>,
        i: int,
    )
        requires
            self.shown_by(snapshot, stacks),
            0 <= i < snapshot.records.len(),
        ensures
            ({
                let record = snapshot.records[i];
                let stats = self.stats[record.stack_id];
                &&& self.stats.contains_key(record.stack_id)
                &&& record.allocations == stats.allocations
                &&& record.deallocations == stats.deallocations
                &&& record.current_bytes == stats.current_bytes
                &&& record.total_allocated == stats.total_allocated
                &&& record.total_freed == stats.total_freed
                &&& record.stack is Some <==> stacks.contains_key(record.stack_id)
                &&& record.stack matches Some(stack) ==> {
                    &&& stack.id == record.stack_id
                    &&& stack.frames == stacks[record.stack_id]
                }
                &&& snapshot.dropped_events == self.dropped_events
            }),
    {
    }

    /// A snapshot has one record for each stack that has statistics, and comes
    /// down from the most current bytes to the fewest.
    pub proof fn law_snapshots_list_every_stack_once(
        self,
        snapshot: SnapshotView,
        stacks: Map<StackId, Seq<FrameView>>,
    )
        requires
            self.shown_by(snapshot, stacks),
        ensures
            forall|stack_id: StackId| #[trigger]
                self.stats.contains_key(stack_id) ==> exists|i: int|
                    0 <= i < snapshot.records.len() && (#[trigger] snapshot.records[i]).stack_id
                        == stack_id,
            forall|i: int, j: int|
                0 <= i < j < snapshot.records.len() ==> (#[trigger] snapshot.records[i]).stack_id
                    != (#[trigger] snapshot.records[j]).stack_id
                    && snapshot.records[i].current_bytes >= snapshot.records[j].current_bytes,
    {
    }

    /// Two snapshots of one aggregator hold the same records, though perhaps
    /// not in the same order.
    pub proof fn law_snapshots_agree(
        self,
        one: SnapshotView,
        other: SnapshotView,
        stacks: Map<StackId, Seq<FrameView>>,
    )
        requires
            self.shown_by(one, stacks),
            self.shown_by(other, stacks),
        ensures
            one.records.to_multiset() == other.records.to_multiset(),
            one.dropped_events == other.dropped_events,
    {
        self.lemma_shown_records(one, other, stacks);
        self.lemma_shown_records(other, one, stacks);
        broadcast use vstd::seq_lib::group_to_multiset_ensures;

        one.records.lemma_multiset_has_no_duplicates();
        other.records.lemma_multiset_has_no_duplicates();
        assert forall|record: RecordView| #[trigger]
            one.records.to_multiset().count(record) == other.records.to_multiset().count(
                record,
            ) by {
            assert(one.records.contains(record) <==> one.records.to_multiset().count(record) > 0);
            assert(other.records.contains(record) <==> other.records.to_multiset().count(record)
                > 0);
        }
        assert(one.records.to_multiset() =~= other.records.to_multiset());
    }

    proof fn lemma_shown_records(
        self,
        one: SnapshotView,
        other: SnapshotView,
        stacks: Map<StackId, Seq<FrameView>>,
    )
        requires
            self.shown_by(one, stacks),
            self.shown_by(other, stacks),
        ensures
            one.records.no_duplicates(),
            forall|record: RecordView| #[trigger]
                one.records.contains(record) ==> other.records.contains(record),
    {
        assert forall|i: int, j: int|
            0 <= i < one.records.len() && 0 <= j < one.records.len() && i
                != j implies one.records[i] != one.records[j] by {
            assert(one.records[i].stack_id != one.records[j].stack_id);
        }
        assert forall|record: RecordView| #[trigger]
            one.records.contains(record) implies other.records.contains(record) by {
            let i = choose|i: int| 0 <= i < one.records.len() && one.records[i] == record;
            assert(self.stats.contains_key(one.records[i].stack_id));
            let j = choose|j: int|
                0 <= j < other.records.len() && (#[trigger] other.records[j]).stack_id
                    == record.stack_id;
            assert(other.records[j] == record);
        }
    }

    /// The snapshot of an aggregator that has seen nothing is empty.
    pub proof fn law_new_aggregators_show_nothing(
        snapshot: SnapshotView,
        stacks: Map<StackId, Seq<FrameView>>,
    )
        requires
            Self::initial().shown_by(snapshot, stacks),
        ensures
            snapshot.records.len() == 0,
            snapshot.dropped_events == 0,
    {
        if snapshot.records.len() > 0 {
            assert(Self::initial().stats.contains_key(snapshot.records[0].stack_id));
        }
    }
}

} // verus!
