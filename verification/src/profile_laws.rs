//! What holds of every profile.

use crate::export::{Line, ProfileView, TablesView};
use crate::frames::FrameView;
use crate::key_table::Numbering;
use crate::snapshot::RecordView;
use vstd::prelude::*;

verus! {

impl TablesView {
    /// Whether every entry has an index or an identifier of its own.
    pub open spec fn fits(self) -> bool {
        &&& self.strings.len() <= i64::MAX
        &&& self.functions.len() < usize::MAX
        &&& self.locations.len() < usize::MAX
    }

    /// Nothing occurs twice, functions name strings that are there, and
    /// locations name functions that are there.
    pub open spec fn sound(self) -> bool {
        &&& self.distinct()
        &&& forall|i: int|
            0 <= i < self.functions.len() ==> {
                let key = #[trigger] self.functions[i];
                &&& 0 <= key.filename < self.strings.len()
                &&& 0 <= key.function < self.strings.len()
            }
        &&& forall|i: int|
            0 <= i < self.locations.len() ==> {
                let key = #[trigger] self.locations[i];
                &&& 1 <= key.function_id <= self.functions.len()
                &&& self.functions[key.function_id - 1].lineno == key.lineno
            }
    }

    /// Whether every function has a location.
    pub open spec fn used(self) -> bool {
        forall|i: int|
            0 <= i < self.functions.len() ==> exists|l: int|
                0 <= l < self.locations.len() && (#[trigger] self.locations[l]).function_id
                    == #[trigger] TablesView::id_at(i)
    }

    /// Whether the tables are sound and every function has a location, as long
    /// as every entry has an index or an identifier of its own.
    pub open spec fn in_order(self) -> bool {
        self.fits() ==> self.sound() && self.used()
    }

    /// Whether the given location stands for the frame.
    pub open spec fn shows_at(self, frame: FrameView, location_id: u64) -> bool {
        1 <= location_id <= self.locations.len() && self.frame_at(location_id) == frame
    }

    /// Whether some location stands for the frame.
    pub open spec fn knows(self, frame: FrameView) -> bool {
        exists|location_id: u64| #[trigger] self.shows_at(frame, location_id)
    }

    /// Whether every location stands for one of certain frames.
    pub open spec fn made_of(self, frames: spec_fn(FrameView) -> bool) -> bool {
        forall|location_id: u64|
            1 <= location_id <= self.locations.len() ==> frames(
                #[trigger] self.frame_at(location_id),
            )
    }

    /// Whether all that stands in the tables stands at the same place in the
    /// other ones.
    pub open spec fn extended_by(self, other: TablesView) -> bool {
        &&& self.strings.is_prefix_of(other.strings)
        &&& self.functions.is_prefix_of(other.functions)
        &&& self.locations.is_prefix_of(other.locations)
    }

    /// The frame that a location stands for.
    pub open spec fn frame_at(self, location_id: u64) -> FrameView {
        let location = self.locations[location_id - 1];
        let function = self.functions[location.function_id - 1];
        FrameView {
            filename: self.strings[function.filename as int],
            function: self.strings[function.function as int],
            lineno: location.lineno,
        }
    }
}

proof fn lemma_with_extends<K>(table: Seq<K>, key: K)
    ensures
        table.is_prefix_of(Numbering::with(table, key)),
{
    assert(table =~= Numbering::with(table, key).subrange(0, table.len() as int));
}

proof fn lemma_extended_transitive(a: TablesView, b: TablesView, c: TablesView)
    requires
        a.extended_by(b),
        b.extended_by(c),
    ensures
        a.extended_by(c),
{
    assert(a.strings =~= c.strings.subrange(0, a.strings.len() as int));
    assert(a.functions =~= c.functions.subrange(0, a.functions.len() as int));
    assert(a.locations =~= c.locations.subrange(0, a.locations.len() as int));
}

proof fn lemma_extended_reflexive(a: TablesView)
    ensures
        a.extended_by(a),
{
    assert(a.strings =~= a.strings.subrange(0, a.strings.len() as int));
    assert(a.functions =~= a.functions.subrange(0, a.functions.len() as int));
    assert(a.locations =~= a.locations.subrange(0, a.locations.len() as int));
}

/// A location keeps its frame as the tables grow.
proof fn lemma_frame_at_extended(a: TablesView, b: TablesView, location_id: u64)
    requires
        a.sound(),
        a.extended_by(b),
        1 <= location_id <= a.locations.len(),
    ensures
        location_id <= b.locations.len(),
        b.frame_at(location_id) == a.frame_at(location_id),
{
    let i = location_id - 1;
    assert(b.locations.subrange(0, a.locations.len() as int)[i] == b.locations[i]);
    let key = a.locations[i];
    let j = key.function_id - 1;
    assert(b.functions.subrange(0, a.functions.len() as int)[j] == b.functions[j]);
    let function = a.functions[j];
    assert(b.strings.subrange(0, a.strings.len() as int)[function.filename as int]
        == b.strings[function.filename as int]);
    assert(b.strings.subrange(0, a.strings.len() as int)[function.function as int]
        == b.strings[function.function as int]);
}

proof fn lemma_with_string(tables: TablesView, text: Seq<char>)
    requires
        tables.sound(),
    ensures
        tables.with_string(text).sound(),
        tables.extended_by(tables.with_string(text)),
{
    Numbering::lemma_with(tables.strings, text);
    lemma_with_extends(tables.strings, text);
    lemma_extended_reflexive(tables);
}

/// Entering a frame keeps the tables sound and gives the frame a location
/// that stands for it.
proof fn lemma_with_frame(tables: TablesView, frame: FrameView)
    requires
        tables.sound(),
        tables.with_frame(frame).fits(),
    ensures
        tables.with_frame(frame).sound(),
        tables.extended_by(tables.with_frame(frame)),
        1 <= tables.location_id(frame) <= tables.with_frame(frame).locations.len(),
        tables.with_frame(frame).frame_at(tables.location_id(frame)) == frame,
{
    let one = tables.with_string(frame.filename);
    let two = one.with_string(frame.function);
    let after = tables.with_frame(frame);
    lemma_with_string(tables, frame.filename);
    lemma_with_string(one, frame.function);
    lemma_extended_transitive(tables, one, two);
    Numbering::lemma_with(tables.strings, frame.filename);
    Numbering::lemma_with(one.strings, frame.function);
    assert(after.strings == two.strings);

    let function_key = tables.function_key(frame);
    let location_key = tables.location_key(frame);
    Numbering::lemma_with(tables.functions, function_key);
    lemma_with_extends(tables.functions, function_key);
    Numbering::lemma_with(tables.locations, location_key);
    lemma_with_extends(tables.locations, location_key);

    let function_place = Numbering::place(tables.functions, function_key);
    let location_place = Numbering::place(tables.locations, location_key);
    assert(after.functions[function_place] == function_key);
    assert(after.locations[location_place] == location_key);
    assert(location_key.function_id == function_place + 1);
    assert(tables.location_id(frame) == location_place + 1);
    assert(function_key.filename == Numbering::place(tables.strings, frame.filename));
    assert(function_key.function == Numbering::place(one.strings, frame.function));
    assert(two.strings[function_key.filename as int] == frame.filename) by {
        assert(one.strings[function_key.filename as int] == frame.filename);
    }
    assert(two.strings[function_key.function as int] == frame.function);

    assert forall|i: int| 0 <= i < after.functions.len() implies {
        let key = #[trigger] after.functions[i];
        &&& 0 <= key.filename < after.strings.len()
        &&& 0 <= key.function < after.strings.len()
    } by {
        if i < tables.functions.len() {
            assert(after.functions[i] == tables.functions[i]);
        } else {
            assert(after.functions[i] == function_key);
        }
    }
    assert forall|i: int| 0 <= i < after.locations.len() implies {
        let key = #[trigger] after.locations[i];
        &&& 1 <= key.function_id <= after.functions.len()
        &&& after.functions[key.function_id - 1].lineno == key.lineno
    } by {
        if i < tables.locations.len() {
            assert(after.locations[i] == tables.locations[i]);
            let j = tables.locations[i].function_id - 1;
            assert(after.functions[j] == tables.functions[j]);
        } else {
            assert(after.locations[i] == location_key);
        }
    }
}

proof fn lemma_fits(a: TablesView, b: TablesView)
    requires
        a.extended_by(b),
        b.fits(),
    ensures
        a.fits(),
{
}

proof fn lemma_with_frame_extends(tables: TablesView, frame: FrameView)
    ensures
        tables.extended_by(tables.with_frame(frame)),
{
    let one = tables.with_string(frame.filename);
    lemma_with_extends(tables.strings, frame.filename);
    lemma_with_extends(one.strings, frame.function);
    lemma_with_extends(tables.functions, tables.function_key(frame));
    lemma_with_extends(tables.locations, tables.location_key(frame));
    assert(tables.strings =~= tables.with_frame(frame).strings.subrange(
        0,
        tables.strings.len() as int,
    ));
}

proof fn lemma_with_frames_extends(tables: TablesView, frames: Seq<FrameView>)
    ensures
        tables.extended_by(tables.with_frames(frames)),
    decreases frames.len(),
{
    if frames.len() == 0 {
        lemma_extended_reflexive(tables);
    } else {
        let before = tables.with_frames(frames.drop_last());
        lemma_with_frames_extends(tables, frames.drop_last());
        lemma_with_frame_extends(before, frames.last());
        lemma_extended_transitive(tables, before, tables.with_frames(frames));
    }
}

impl TablesView {
    /// A frame gets a location that stands for it, with one line, in a
    /// function of its name, file and line. What stood in the tables stays
    /// where it was.
    pub proof fn law_frames_get_a_location(self, frame: FrameView)
        requires
            self.sound(),
            self.with_frame(frame).fits(),
        ensures
            ({
                let after = self.with_frame(frame);
                let id = self.location_id(frame);
                let location = after.location_list()[id - 1];
                let function_id = location.line[0].function_id;
                let function = after.function_list()[function_id - 1];
                &&& after.sound()
                &&& self.extended_by(after)
                &&& 1 <= id <= after.locations.len()
                &&& location.id == id
                &&& location.line == seq![Line { function_id, line: frame.lineno as i64 }]
                &&& 1 <= function_id <= after.functions.len()
                &&& function.id == function_id
                &&& function.start_line == frame.lineno
                &&& after.strings[function.filename as int] == frame.filename
                &&& after.strings[function.name as int] == frame.function
                &&& after.shows_at(frame, id)
            }),
    {
        lemma_with_frame(self, frame);
    }

    /// A frame that has a location keeps it, and no table grows.
    pub proof fn law_known_frames_keep_their_location(self, frame: FrameView, location_id: u64)
        requires
            self.sound(),
            self.fits(),
            self.shows_at(frame, location_id),
        ensures
            self.location_id(frame) == location_id,
            self.with_frame(frame) == self,
    {
        let location = self.locations[location_id - 1];
        let function = self.functions[location.function_id - 1];
        Numbering::lemma_place(self.strings, function.filename as int);
        Numbering::lemma_place(self.strings, function.function as int);
        assert(self.function_key(frame) == function);
        Numbering::lemma_place(self.functions, location.function_id - 1);
        assert(self.location_key(frame) == location);
        Numbering::lemma_place(self.locations, location_id - 1);
    }

    /// A frame that has no location adds one function and one location, each
    /// at the end of its table.
    pub proof fn law_new_frames_add_one_location(self, frame: FrameView)
        requires
            self.sound(),
            self.used(),
            self.with_frame(frame).fits(),
            !self.knows(frame),
        ensures
            self.with_frame(frame).functions == self.functions.push(self.function_key(frame)),
            self.with_frame(frame).locations == self.locations.push(self.location_key(frame)),
            self.location_id(frame) == self.locations.len() + 1,
            self.strings.is_prefix_of(self.with_frame(frame).strings),
    {
        let after = self.with_frame(frame);
        let function_key = self.function_key(frame);
        let location_key = self.location_key(frame);
        lemma_with_frame(self, frame);
        lemma_with_frame_extends(self, frame);
        if self.locations.contains(location_key) {
            let l = self.locations.index_of(location_key);
            assert(self.locations[l] == location_key);
            lemma_frame_at_extended(self, after, (l + 1) as u64);
            Numbering::lemma_place(self.locations, l);
            assert(self.shows_at(frame, (l + 1) as u64));
        }
        if self.functions.contains(function_key) {
            let i = self.functions.index_of(function_key);
            assert(self.functions[i] == function_key);
            Numbering::lemma_place(self.functions, i);
            let id = TablesView::id_at(i);
            let l = choose|l: int|
                0 <= l < self.locations.len() && (#[trigger] self.locations[l]).function_id == id;
            assert(self.locations[l].lineno == function_key.lineno);
            assert(self.locations[l] == location_key);
            assert(self.locations.contains(location_key));
        }
    }

    /// Every function has a location, whatever frames are entered.
    pub proof fn law_functions_are_used(self, frame: FrameView)
        requires
            self.sound(),
            self.used(),
            self.with_frame(frame).fits(),
        ensures
            self.with_frame(frame).used(),
    {
        let after = self.with_frame(frame);
        let location_key = self.location_key(frame);
        Numbering::lemma_with(self.functions, self.function_key(frame));
        Numbering::lemma_with(self.locations, location_key);
        assert forall|i: int| 0 <= i < after.functions.len() implies exists|l: int|
            0 <= l < after.locations.len() && (#[trigger] after.locations[l]).function_id
                == #[trigger] TablesView::id_at(i) by {
            if i < self.functions.len() {
                let l = choose|l: int|
                    0 <= l < self.locations.len() && (#[trigger] self.locations[l]).function_id
                        == TablesView::id_at(i);
                assert(after.locations[l] == self.locations[l]);
            } else {
                let l = Numbering::place(self.locations, location_key);
                assert(after.locations[l] == location_key);
            }
        }
    }

    /// Tables stay in order, whatever frames are entered, and a frame has its
    /// location.
    pub proof fn law_tables_stay_in_order(self, frame: FrameView)
        requires
            self.in_order(),
        ensures
            self.with_frame(frame).in_order(),
            self.with_frame(frame).fits() ==> self.with_frame(frame).shows_at(
                frame,
                self.location_id(frame),
            ),
            self.extended_by(self.with_frame(frame)),
    {
        lemma_with_frame_extends(self, frame);
        if self.with_frame(frame).fits() {
            lemma_fits(self, self.with_frame(frame));
            lemma_with_frame(self, frame);
            self.law_functions_are_used(frame);
        }
    }

    proof fn lemma_made_of(self, frame: FrameView, frames: spec_fn(FrameView) -> bool)
        requires
            self.sound(),
            self.with_frame(frame).fits(),
            self.made_of(frames),
            frames(frame),
        ensures
            self.with_frame(frame).made_of(frames),
    {
        let after = self.with_frame(frame);
        let location_key = self.location_key(frame);
        lemma_with_frame(self, frame);
        assert forall|location_id: u64|
            1 <= location_id <= after.locations.len() implies frames(
            #[trigger] after.frame_at(location_id),
        ) by {
            if location_id <= self.locations.len() {
                lemma_frame_at_extended(self, after, location_id);
                assert(frames(self.frame_at(location_id)));
            } else {
                assert(location_id == self.location_id(frame));
            }
        }
    }

    proof fn lemma_all_made_of(self, entered: Seq<FrameView>, frames: spec_fn(FrameView) -> bool)
        requires
            self.sound(),
            self.used(),
            self.with_frames(entered).fits(),
            self.made_of(frames),
            forall|i: int| 0 <= i < entered.len() ==> frames(#[trigger] entered[i]),
        ensures
            self.with_frames(entered).sound(),
            self.with_frames(entered).used(),
            self.with_frames(entered).made_of(frames),
        decreases entered.len(),
    {
        if entered.len() > 0 {
            let rest = entered.drop_last();
            let before = self.with_frames(rest);
            lemma_with_frame_extends(before, entered.last());
            lemma_fits(before, self.with_frames(entered));
            assert forall|i: int| 0 <= i < rest.len() implies frames(#[trigger] rest[i]) by {
                assert(rest[i] == entered[i]);
            }
            self.lemma_all_made_of(rest, frames);
            lemma_with_frame(before, entered.last());
            before.law_functions_are_used(entered.last());
            before.lemma_made_of(entered.last(), frames);
        }
    }

    /// Frames that are entered into new tables share a location where they are
    /// equal: one that was entered before gets the location that it got then,
    /// and no table grows; any other adds one function and one location, each
    /// at the end of its table.
    pub proof fn law_equal_frames_are_entered_once(entered: Seq<FrameView>, frame: FrameView)
        requires
            Self::initial().with_frames(entered).with_frame(frame).fits(),
        ensures
            ({
                let before = Self::initial().with_frames(entered);
                let after = before.with_frame(frame);
                &&& forall|j: int|
                    0 <= j < entered.len() && #[trigger] entered[j] == frame
                        ==> before.location_id(frame) == Self::initial().location_ids(entered)[j]
                        && after == before
                &&& !entered.contains(frame) ==> {
                    &&& after.functions == before.functions.push(before.function_key(frame))
                    &&& after.locations == before.locations.push(before.location_key(frame))
                    &&& before.location_id(frame) == before.locations.len() + 1
                }
                &&& before.extended_by(after)
                &&& after.shows_at(frame, before.location_id(frame))
            }),
    {
        let start = Self::initial();
        let before = start.with_frames(entered);
        let among = |f: FrameView| entered.contains(f);
        lemma_initial_sound();
        lemma_with_frame_extends(before, frame);
        lemma_fits(before, before.with_frame(frame));
        lemma_with_frames(start, entered);
        assert(start.used());
        start.lemma_all_made_of(entered, among);
        lemma_with_frame(before, frame);
        assert forall|j: int| 0 <= j < entered.len() && #[trigger] entered[j] == frame implies
            before.location_id(frame) == start.location_ids(entered)[j] && before.with_frame(frame)
            == before by {
            let id = start.location_ids(entered)[j];
            assert(before.shows_at(frame, id));
            before.law_known_frames_keep_their_location(frame, id);
        }
        if !entered.contains(frame) {
            if before.knows(frame) {
                let id = choose|id: u64| #[trigger] before.shows_at(frame, id);
                assert(among(before.frame_at(id)));
            }
            before.law_new_frames_add_one_location(frame);
        }
    }
}

/// Entering frames gives each of them a location that stands for it.
proof fn lemma_with_frames(tables: TablesView, frames: Seq<FrameView>)
    requires
        tables.sound(),
        tables.with_frames(frames).fits(),
    ensures
        tables.with_frames(frames).sound(),
        tables.location_ids(frames).len() == frames.len(),
        forall|j: int|
            0 <= j < frames.len() ==> {
                let id = #[trigger] tables.location_ids(frames)[j];
                &&& 1 <= id <= tables.with_frames(frames).locations.len()
                &&& tables.with_frames(frames).frame_at(id) == frames[j]
            },
    decreases frames.len(),
{
    tables.lemma_location_ids_len(frames);
    if frames.len() > 0 {
        let rest = frames.drop_last();
        let before = tables.with_frames(rest);
        let after = tables.with_frames(frames);
        lemma_with_frame_extends(before, frames.last());
        lemma_fits(before, after);
        lemma_with_frames(tables, rest);
        lemma_with_frame(before, frames.last());
        assert forall|j: int| 0 <= j < frames.len() implies {
            let id = #[trigger] tables.location_ids(frames)[j];
            &&& 1 <= id <= after.locations.len()
            &&& after.frame_at(id) == frames[j]
        } by {
            if j < rest.len() {
                let id = tables.location_ids(rest)[j];
                assert(tables.location_ids(frames)[j] == id);
                lemma_frame_at_extended(before, after, id);
            }
        }
    }
}

proof fn lemma_with_records_extends(tables: TablesView, records: Seq<RecordView>, n: int)
    requires
        0 <= n <= records.len(),
    ensures
        tables.with_records(records.take(n)).extended_by(tables.with_records(records)),
    decreases records.len() - n,
{
    if n == records.len() {
        assert(records.take(n) =~= records);
        lemma_extended_reflexive(tables.with_records(records));
    } else {
        let longer = records.take(n + 1);
        assert(longer.drop_last() =~= records.take(n));
        lemma_with_frames_extends(
            tables.with_records(records.take(n)),
            ProfileView::frames_of(longer.last()),
        );
        lemma_with_records_extends(tables, records, n + 1);
        lemma_extended_transitive(
            tables.with_records(records.take(n)),
            tables.with_records(longer),
            tables.with_records(records),
        );
    }
}

/// The frames of the samples can be read back from the tables.
proof fn lemma_with_records(tables: TablesView, records: Seq<RecordView>)
    requires
        tables.sound(),
        tables.with_records(records).fits(),
    ensures
        tables.with_records(records).sound(),
        tables.samples(records).len() == records.len(),
        forall|i: int|
            0 <= i < records.len() ==> {
                let sample = #[trigger] tables.samples(records)[i];
                &&& sample.value == ProfileView::values_of(records[i])
                &&& sample.location_id.len() == ProfileView::frames_of(records[i]).len()
            },
        forall|i: int, j: int|
            0 <= i < records.len() && 0 <= j < ProfileView::frames_of(records[i]).len() ==> {
                let id = #[trigger] tables.samples(records)[i].location_id[j];
                &&& 1 <= id <= tables.with_records(records).locations.len()
                &&& tables.with_records(records).frame_at(id) == ProfileView::frames_of(
                    records[i],
                )[j]
            },
    decreases records.len(),
{
    if records.len() > 0 {
        let rest = records.drop_last();
        let before = tables.with_records(rest);
        let after = tables.with_records(records);
        let frames = ProfileView::frames_of(records.last());
        lemma_with_frames_extends(before, frames);
        lemma_fits(before, after);
        lemma_with_records(tables, rest);
        lemma_with_frames(before, frames);
        assert forall|i: int, j: int|
            0 <= i < records.len() && 0 <= j < ProfileView::frames_of(records[i]).len() implies {
            let id = #[trigger] tables.samples(records)[i].location_id[j];
            &&& 1 <= id <= after.locations.len()
            &&& after.frame_at(id) == ProfileView::frames_of(records[i])[j]
        } by {
            if i < rest.len() {
                let id = tables.samples(rest)[i].location_id[j];
                assert(tables.samples(records)[i] == tables.samples(rest)[i]);
                assert(records[i] == rest[i]);
                lemma_frame_at_extended(before, after, id);
            } else {
                assert(tables.samples(records)[i].location_id == before.location_ids(frames));
            }
        }
    }
}

proof fn lemma_initial_sound()
    ensures
        TablesView::initial().sound(),
{
}

impl ProfileView {
    /// Whether every entry of the tables has an index or an identifier of its
    /// own.
    pub open spec fn fits(self) -> bool {
        &&& self.string_table.len() <= i64::MAX
        &&& self.function.len() < usize::MAX
        &&& self.location.len() < usize::MAX
    }

    /// The frame that a location of the profile stands for.
    pub open spec fn frame_at(self, location_id: u64) -> FrameView {
        let line = self.location[location_id - 1].line[0];
        let function = self.function[line.function_id - 1];
        FrameView {
            filename: self.string_table[function.filename as int],
            function: self.string_table[function.name as int],
            lineno: line.line as u32,
        }
    }
}

/// The tables of the profile at its completion.
spec fn final_tables(records: Seq<RecordView>) -> TablesView {
    TablesView::initial().with_records(records).with_string("space"@).with_string(
        "bytes"@,
    ).with_string("allocations"@).with_string("count"@)
}

proof fn lemma_final_tables(records: Seq<RecordView>)
    requires
        ProfileView::of(records).fits(),
    ensures
        ({
            let tables = TablesView::initial().with_records(records);
            let finished = final_tables(records);
            &&& tables.fits()
            &&& tables.sound()
            &&& finished.sound()
            &&& tables.extended_by(finished)
            &&& finished.functions == tables.functions
            &&& finished.locations == tables.locations
            &&& finished.strings == ProfileView::of(records).string_table
        }),
{
    let tables = TablesView::initial().with_records(records);
    let space = tables.with_string("space"@);
    let bytes = space.with_string("bytes"@);
    let allocations = bytes.with_string("allocations"@);
    let count = allocations.with_string("count"@);
    lemma_with_extends(tables.strings, "space"@);
    lemma_with_extends(space.strings, "bytes"@);
    lemma_with_extends(bytes.strings, "allocations"@);
    lemma_with_extends(allocations.strings, "count"@);
    assert(tables.fits());
    lemma_initial_sound();
    lemma_with_records(TablesView::initial(), records);
    lemma_with_string(tables, "space"@);
    lemma_with_string(space, "bytes"@);
    lemma_with_string(bytes, "allocations"@);
    lemma_with_string(allocations, "count"@);
    lemma_extended_transitive(tables, space, bytes);
    lemma_extended_transitive(tables, bytes, allocations);
    lemma_extended_transitive(tables, allocations, count);
}

/// Nothing is lost in a profile: it has one sample for each record, in the
/// same order, with the bytes and the number of allocations of the record, and
/// the locations of the sample stand, one by one, for the frames of the
/// record.
pub proof fn law_profile_reads_back(records: Seq<RecordView>)
    requires
        ProfileView::of(records).fits(),
    ensures
        ProfileView::of(records).sample.len() == records.len(),
        forall|i: int|
            0 <= i < records.len() ==> {
                let sample = #[trigger] ProfileView::of(records).sample[i];
                &&& sample.value == ProfileView::values_of(records[i])
                &&& sample.location_id.len() == ProfileView::frames_of(records[i]).len()
            },
        forall|i: int, j: int|
            0 <= i < records.len() && 0 <= j < ProfileView::frames_of(records[i]).len() ==> {
                let id = #[trigger] ProfileView::of(records).sample[i].location_id[j];
                &&& 1 <= id <= ProfileView::of(records).location.len()
                &&& ProfileView::of(records).frame_at(id) == ProfileView::frames_of(records[i])[j]
            },
{
    let profile = ProfileView::of(records);
    let tables = TablesView::initial().with_records(records);
    let finished = final_tables(records);
    lemma_final_tables(records);
    lemma_initial_sound();
    lemma_with_records(TablesView::initial(), records);
    assert forall|i: int, j: int|
        0 <= i < records.len() && 0 <= j < ProfileView::frames_of(records[i]).len() implies {
        let id = #[trigger] profile.sample[i].location_id[j];
        &&& 1 <= id <= profile.location.len()
        &&& profile.frame_at(id) == ProfileView::frames_of(records[i])[j]
    } by {
        let id = TablesView::initial().samples(records)[i].location_id[j];
        lemma_frame_at_extended(tables, finished, id);
        let key = tables.locations[id - 1];
        assert(profile.location[id - 1].line[0].function_id == key.function_id);
        assert(profile.frame_at(id) =~= finished.frame_at(id));
    }
}

/// Nothing stands in a profile twice: strings differ from one another, so do
/// functions in file, name or line, and locations in function or line. The
/// first string is the empty one, and identifiers count from one.
pub proof fn law_profile_has_no_duplicates(records: Seq<RecordView>)
    requires
        ProfileView::of(records).fits(),
    ensures
        ({
            let profile = ProfileView::of(records);
            &&& profile.string_table.no_duplicates()
            &&& profile.string_table.len() > 0
            &&& profile.string_table[0] == Seq::<char>::empty()
            &&& forall|i: int, j: int|
                0 <= i < profile.function.len() && 0 <= j < profile.function.len() && i != j ==> {
                    let left = #[trigger] profile.function[i];
                    let right = #[trigger] profile.function[j];
                    left.filename != right.filename || left.name != right.name || left.start_line
                        != right.start_line
                }
            &&& forall|i: int, j: int|
                0 <= i < profile.location.len() && 0 <= j < profile.location.len() && i != j
                    ==> (#[trigger] profile.location[i]).line != (
                #[trigger] profile.location[j]).line
            &&& forall|i: int|
                0 <= i < profile.function.len() ==> (#[trigger] profile.function[i]).id == i + 1
            &&& forall|i: int|
                0 <= i < profile.location.len() ==> (#[trigger] profile.location[i]).id == i + 1
        }),
{
    let profile = ProfileView::of(records);
    let tables = TablesView::initial().with_records(records);
    let finished = final_tables(records);
    lemma_final_tables(records);
    lemma_with_records_extends(TablesView::initial(), records, 0);
    assert(records.take(0) =~= Seq::<RecordView>::empty());
    lemma_extended_transitive(TablesView::initial(), tables, finished);
    assert(finished.strings.subrange(0, 1)[0] == finished.strings[0]);
    assert forall|i: int, j: int|
        0 <= i < profile.function.len() && 0 <= j < profile.function.len() && i != j implies {
        let left = #[trigger] profile.function[i];
        let right = #[trigger] profile.function[j];
        left.filename != right.filename || left.name != right.name || left.start_line
            != right.start_line
    } by {
        assert(tables.functions[i] != tables.functions[j]);
    }
    assert forall|i: int, j: int|
        0 <= i < profile.location.len() && 0 <= j < profile.location.len() && i != j implies (
    #[trigger] profile.location[i]).line != (#[trigger] profile.location[j]).line by {
        assert(tables.locations[i] != tables.locations[j]);
        assert(profile.location[i].line[0].function_id == tables.locations[i].function_id);
        assert(profile.location[j].line[0].function_id == tables.locations[j].function_id);
        assert(profile.location[i].line[0].line == tables.locations[i].lineno);
        assert(profile.location[j].line[0].line == tables.locations[j].lineno);
    }
}

/// Equal frames share a location: where two samples show the same frame, they
/// name the same location.
pub proof fn law_equal_frames_share_a_location(
    records: Seq<RecordView>,
    i: int,
    j: int,
    k: int,
    l: int,
)
    requires
        ProfileView::of(records).fits(),
        0 <= i < records.len(),
        0 <= k < records.len(),
        0 <= j < ProfileView::frames_of(records[i]).len(),
        0 <= l < ProfileView::frames_of(records[k]).len(),
        ProfileView::frames_of(records[i])[j] == ProfileView::frames_of(records[k])[l],
    ensures
        ProfileView::of(records).sample[i].location_id[j] == ProfileView::of(
            records,
        ).sample[k].location_id[l],
{
    let profile = ProfileView::of(records);
    let tables = TablesView::initial().with_records(records);
    let finished = final_tables(records);
    lemma_final_tables(records);
    lemma_initial_sound();
    lemma_with_records(TablesView::initial(), records);
    let left = TablesView::initial().samples(records)[i].location_id[j];
    let right = TablesView::initial().samples(records)[k].location_id[l];
    assert(tables.frame_at(left) == tables.frame_at(right));
    lemma_locations_are_frames(tables, left, right);
}

/// Locations that stand for the same frame are the same.
proof fn lemma_locations_are_frames(tables: TablesView, left: u64, right: u64)
    requires
        tables.sound(),
        1 <= left <= tables.locations.len(),
        1 <= right <= tables.locations.len(),
        tables.frame_at(left) == tables.frame_at(right),
    ensures
        left == right,
{
    let left_location = tables.locations[left - 1];
    let right_location = tables.locations[right - 1];
    let left_function = tables.functions[left_location.function_id - 1];
    let right_function = tables.functions[right_location.function_id - 1];
    assert(left_function.filename == right_function.filename) by {
        assert(tables.strings[left_function.filename as int]
            == tables.strings[right_function.filename as int]);
    }
    assert(left_function.function == right_function.function) by {
        assert(tables.strings[left_function.function as int]
            == tables.strings[right_function.function as int]);
    }
    assert(left_function == right_function);
    assert(left_location.function_id == right_location.function_id);
    assert(left_location == right_location);
}

impl ProfileView {
    /// Whether one of the records is shown under the frame.
    pub open spec fn shows(records: Seq<RecordView>, frame: FrameView) -> bool {
        exists|i: int, j: int|
            0 <= i < records.len() && 0 <= j < Self::frames_of(records[i]).len()
                && #[trigger] Self::frames_of(records[i])[j] == frame
    }

    /// Whether an index lies inside the string table.
    pub open spec fn names_a_string(self, index: i64) -> bool {
        0 <= index < self.string_table.len()
    }
}

proof fn lemma_records_made_of(
    tables: TablesView,
    records: Seq<RecordView>,
    frames: spec_fn(FrameView) -> bool,
)
    requires
        tables.sound(),
        tables.used(),
        tables.with_records(records).fits(),
        tables.made_of(frames),
        forall|i: int, j: int|
            0 <= i < records.len() && 0 <= j < ProfileView::frames_of(records[i]).len() ==> frames(
                #[trigger] ProfileView::frames_of(records[i])[j],
            ),
    ensures
        tables.with_records(records).sound(),
        tables.with_records(records).used(),
        tables.with_records(records).made_of(frames),
    decreases records.len(),
{
    if records.len() > 0 {
        let rest = records.drop_last();
        let before = tables.with_records(rest);
        let entered = ProfileView::frames_of(records.last());
        lemma_with_frames_extends(before, entered);
        lemma_fits(before, tables.with_records(records));
        assert forall|i: int, j: int|
            0 <= i < rest.len() && 0 <= j < ProfileView::frames_of(rest[i]).len() implies frames(
            #[trigger] ProfileView::frames_of(rest[i])[j],
        ) by {
            assert(rest[i] == records[i]);
            assert(frames(ProfileView::frames_of(records[i])[j]));
        }
        lemma_records_made_of(tables, rest, frames);
        assert forall|j: int| 0 <= j < entered.len() implies frames(#[trigger] entered[j]) by {
            let last = records.len() - 1;
            assert(frames(ProfileView::frames_of(records[last])[j]));
        }
        before.lemma_all_made_of(entered, frames);
    }
}

/// Nothing stands in a profile that does not belong to it: every location
/// stands for a frame of some record, and so does every function; a location
/// has one line, whose function is there; and the names and files of
/// functions and the descriptions of the values lie inside the string table.
pub proof fn law_profile_holds_nothing_else(records: Seq<RecordView>)
    requires
        ProfileView::of(records).fits(),
    ensures
        ({
            let profile = ProfileView::of(records);
            &&& forall|i: int|
                0 <= i < profile.location.len() ==> {
                    let location = #[trigger] profile.location[i];
                    let line = location.line[0];
                    &&& location.line.len() == 1
                    &&& 1 <= line.function_id <= profile.function.len()
                    &&& profile.function[line.function_id - 1].id == line.function_id
                    &&& profile.function[line.function_id - 1].start_line == line.line
                    &&& ProfileView::shows(records, profile.frame_at(location.id))
                }
            &&& forall|i: int|
                0 <= i < profile.function.len() ==> {
                    let function = #[trigger] profile.function[i];
                    &&& profile.names_a_string(function.name)
                    &&& profile.names_a_string(function.system_name)
                    &&& profile.names_a_string(function.filename)
                    &&& ProfileView::shows(
                        records,
                        FrameView {
                            filename: profile.string_table[function.filename as int],
                            function: profile.string_table[function.name as int],
                            lineno: function.start_line as u32,
                        },
                    )
                }
            &&& forall|i: int|
                0 <= i < profile.sample_type.len() ==> {
                    &&& profile.names_a_string((#[trigger] profile.sample_type[i]).ty)
                    &&& profile.names_a_string(profile.sample_type[i].unit)
                }
        }),
{
    let profile = ProfileView::of(records);
    let start = TablesView::initial();
    let tables = start.with_records(records);
    let finished = final_tables(records);
    let shown = |frame: FrameView| ProfileView::shows(records, frame);
    lemma_final_tables(records);
    lemma_initial_sound();
    assert forall|i: int, j: int|
        0 <= i < records.len() && 0 <= j < ProfileView::frames_of(records[i]).len() implies shown(
        #[trigger] ProfileView::frames_of(records[i])[j],
    ) by {}
    lemma_records_made_of(start, records, shown);
    assert forall|i: int| 0 <= i < profile.location.len() implies {
        let location = #[trigger] profile.location[i];
        let line = location.line[0];
        &&& location.line.len() == 1
        &&& 1 <= line.function_id <= profile.function.len()
        &&& profile.function[line.function_id - 1].id == line.function_id
        &&& profile.function[line.function_id - 1].start_line == line.line
        &&& ProfileView::shows(records, profile.frame_at(location.id))
    } by {
        lemma_profile_frame(records, i);
        assert(shown(tables.frame_at((i + 1) as u64)));
    }
    assert forall|i: int| 0 <= i < profile.function.len() implies {
        let function = #[trigger] profile.function[i];
        &&& profile.names_a_string(function.name)
        &&& profile.names_a_string(function.system_name)
        &&& profile.names_a_string(function.filename)
        &&& ProfileView::shows(
            records,
            FrameView {
                filename: profile.string_table[function.filename as int],
                function: profile.string_table[function.name as int],
                lineno: function.start_line as u32,
            },
        )
    } by {
        assert(finished.functions[i] == tables.functions[i]);
        let id = TablesView::id_at(i);
        let l = choose|l: int|
            0 <= l < tables.locations.len() && (#[trigger] tables.locations[l]).function_id == id;
        lemma_profile_frame(records, l);
        assert(shown(tables.frame_at((l + 1) as u64)));
        assert(tables.locations[l].lineno == tables.functions[i].lineno);
    }
    let space = tables.with_string("space"@);
    let bytes = space.with_string("bytes"@);
    let allocations = bytes.with_string("allocations"@);
    Numbering::lemma_with(tables.strings, "space"@);
    Numbering::lemma_with(space.strings, "bytes"@);
    Numbering::lemma_with(bytes.strings, "allocations"@);
    Numbering::lemma_with(allocations.strings, "count"@);
}

/// A location of the profile stands for the frame for which the tables have
/// it.
proof fn lemma_profile_frame(records: Seq<RecordView>, i: int)
    requires
        ProfileView::of(records).fits(),
        0 <= i < ProfileView::of(records).location.len(),
    ensures
        ({
            let profile = ProfileView::of(records);
            let tables = TablesView::initial().with_records(records);
            let location = profile.location[i];
            let key = tables.locations[i];
            &&& location.id == i + 1
            &&& location.line == seq![
                Line { function_id: key.function_id, line: key.lineno as i64 },
            ]
            &&& 1 <= key.function_id <= profile.function.len()
            &&& profile.function[key.function_id - 1].id == key.function_id
            &&& profile.function[key.function_id - 1].start_line == key.lineno
            &&& profile.frame_at(location.id) == tables.frame_at(location.id)
        }),
{
    let profile = ProfileView::of(records);
    let tables = TablesView::initial().with_records(records);
    let finished = final_tables(records);
    lemma_final_tables(records);
    let id = (i + 1) as u64;
    lemma_frame_at_extended(tables, finished, id);
    let key = tables.locations[i];
    assert(profile.location[i].line[0].function_id == key.function_id);
    assert(profile.frame_at(id) =~= finished.frame_at(id));
}

proof fn lemma_sample_values(tables: TablesView, records: Seq<RecordView>)
    ensures
        tables.samples(records).len() == records.len(),
        forall|i: int|
            0 <= i < records.len() ==> (#[trigger] tables.samples(records)[i]).value
                == ProfileView::values_of(records[i]),
    decreases records.len(),
{
    if records.len() > 0 {
        let rest = records.drop_last();
        lemma_sample_values(tables, rest);
        assert forall|i: int| 0 <= i < records.len() implies (
        #[trigger] tables.samples(records)[i]).value == ProfileView::values_of(records[i]) by {
            if i < rest.len() {
                assert(tables.samples(records)[i] == tables.samples(rest)[i]);
                assert(records[i] == rest[i]);
            }
        }
    }
}

/// The sample of a record has two values: the bytes that its stack holds, and
/// the number of its allocations, up to the largest value that there is.
pub proof fn law_samples_carry_bytes_and_allocations(records: Seq<RecordView>, i: int)
    requires
        0 <= i < records.len(),
    ensures
        ({
            let profile = ProfileView::of(records);
            let value = profile.sample[i].value;
            &&& profile.sample.len() == records.len()
            &&& value.len() == 2
            &&& value[0] == records[i].current_bytes
            &&& records[i].allocations <= i64::MAX ==> value[1] == records[i].allocations
            &&& records[i].allocations > i64::MAX ==> value[1] == i64::MAX
        }),
{
    lemma_sample_values(TablesView::initial(), records);
}

/// The locations of a sample stand for the frames of the stack of its record,
/// innermost first and none left out. A record without a stack, or with an
/// empty one, is shown under a single placeholder.
pub proof fn law_samples_carry_the_stack(records: Seq<RecordView>, i: int)
    requires
        0 <= i < records.len(),
        ProfileView::of(records).fits(),
    ensures
        ({
            let profile = ProfileView::of(records);
            let ids = profile.sample[i].location_id;
            match records[i].stack {
                Some(stack) if stack.frames.len() > 0 => {
                    &&& ids.len() == stack.frames.len()
                    &&& forall|j: int|
                        0 <= j < ids.len() ==> profile.frame_at(#[trigger] ids[j])
                            == stack.frames[j]
                },
                _ => {
                    let frame = profile.frame_at(ids[0]);
                    &&& ids.len() == 1
                    &&& frame.filename == "<unknown>"@
                    &&& frame.function == "<unknown>"@
                    &&& frame.lineno == 0
                },
            }
        }),
{
    let profile = ProfileView::of(records);
    law_profile_reads_back(records);
    let sample = profile.sample[i];
    let frames = ProfileView::frames_of(records[i]);
    assert(sample.location_id.len() == frames.len());
    assert forall|j: int| 0 <= j < frames.len() implies profile.frame_at(
        #[trigger] sample.location_id[j],
    ) == frames[j] by {
        let id = profile.sample[i].location_id[j];
        assert(profile.frame_at(id) == frames[j]);
    }
}

/// The values of a profile are described as bytes of space and as a count of
/// allocations, in this order.
pub proof fn law_values_are_described(records: Seq<RecordView>)
    requires
        ProfileView::of(records).fits(),
    ensures
        ({
            let profile = ProfileView::of(records);
            let texts = profile.string_table;
            &&& profile.sample_type.len() == 2
            &&& texts[profile.sample_type[0].ty as int] == "space"@
            &&& texts[profile.sample_type[0].unit as int] == "bytes"@
            &&& texts[profile.sample_type[1].ty as int] == "allocations"@
            &&& texts[profile.sample_type[1].unit as int] == "count"@
        }),
{
    let tables = TablesView::initial().with_records(records);
    let space = tables.with_string("space"@);
    let bytes = space.with_string("bytes"@);
    let allocations = bytes.with_string("allocations"@);
    let count = allocations.with_string("count"@);
    lemma_final_tables(records);
    Numbering::lemma_with(tables.strings, "space"@);
    Numbering::lemma_with(space.strings, "bytes"@);
    Numbering::lemma_with(bytes.strings, "allocations"@);
    Numbering::lemma_with(allocations.strings, "count"@);
    lemma_with_extends(space.strings, "bytes"@);
    lemma_with_extends(bytes.strings, "allocations"@);
    lemma_with_extends(allocations.strings, "count"@);
    let a = Numbering::place(tables.strings, "space"@);
    let b = Numbering::place(space.strings, "bytes"@);
    let c = Numbering::place(bytes.strings, "allocations"@);
    assert(bytes.strings[a] == space.strings[a]);
    assert(allocations.strings[a] == bytes.strings[a]);
    assert(count.strings[a] == allocations.strings[a]);
    assert(allocations.strings[b] == bytes.strings[b]);
    assert(count.strings[b] == allocations.strings[b]);
    assert(count.strings[c] == allocations.strings[c]);
}

/// Whatever a profile does not use is left empty: there is no mapping, no
/// address and no folding, a function has one name, nothing is dropped or kept
/// by pattern, there is no time and no comment, and the period is one.
pub proof fn law_the_rest_of_a_profile_is_empty(records: Seq<RecordView>)
    ensures
        ({
            let profile = ProfileView::of(records);
            &&& forall|i: int|
                0 <= i < profile.location.len() ==> {
                    let location = #[trigger] profile.location[i];
                    location.mapping_id == 0 && location.address == 0 && !location.is_folded
                }
            &&& forall|i: int|
                0 <= i < profile.function.len() ==> (#[trigger] profile.function[i]).system_name
                    == profile.function[i].name
            &&& profile.drop_frames == 0
            &&& profile.keep_frames == 0
            &&& profile.time_nanos == 0
            &&& profile.duration_nanos == 0
            &&& profile.period_type matches Some(kind) && kind.ty == 0 && kind.unit == 0
            &&& profile.period == 1
            &&& profile.comment.len() == 0
            &&& profile.default_sample_type == 0
        }),
{
}

impl TablesView {
    /// The tables start with the empty string alone. What a frame brings is
    /// entered at the ends of the tables: the file before the function, and
    /// nothing that is there already.
    pub proof fn law_tables_grow_at_the_end(self, frame: FrameView)
        ensures
            ({
                let after = self.with_frame(frame);
                let start = Self::initial();
                &&& start.strings.len() == 1
                &&& start.strings[0].len() == 0
                &&& start.functions.len() == 0
                &&& start.locations.len() == 0
                &&& !self.strings.contains(frame.filename) && !self.strings.contains(frame.function)
                    && frame.filename != frame.function ==> after.strings == self.strings.push(
                    frame.filename,
                ).push(frame.function)
                &&& !self.strings.contains(frame.filename) && frame.filename == frame.function
                    ==> after.strings == self.strings.push(frame.filename)
                &&& !self.strings.contains(frame.filename) && self.strings.contains(frame.function)
                    ==> after.strings == self.strings.push(frame.filename)
                &&& self.strings.contains(frame.filename) && !self.strings.contains(frame.function)
                    ==> after.strings == self.strings.push(frame.function)
                &&& self.strings.contains(frame.filename) && self.strings.contains(frame.function)
                    ==> after.strings == self.strings
                &&& after.functions.len() <= self.functions.len() + 1
                &&& after.locations.len() <= self.locations.len() + 1
            }),
    {
        let first = self.strings.push(frame.filename);
        assert(first[self.strings.len() as int] == frame.filename);
        assert(first.contains(frame.filename));
        if self.strings.contains(frame.function) {
            let i = choose|i: int|
                0 <= i < self.strings.len() && self.strings[i] == frame.function;
            assert(first[i] == frame.function);
        } else if frame.filename != frame.function {
            assert(!first.contains(frame.function));
        }
    }
}

} // verus!
