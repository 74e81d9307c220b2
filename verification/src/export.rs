//! Snapshots in the shape of a pprof profile.

use crate::frames::{FrameMetadata, FrameView};
use crate::key_table::{HashedKey, KeyTable, Numbering};
use crate::snapshot::{RecordView, Snapshot, SnapshotRecord};
use vstd::hash_map::StringHashMap;
use vstd::prelude::*;

verus! {

/// The meaning and the unit of a sample value, as string table indices.
#[derive(Debug, Clone, Copy, PartialEq, Eq, Structural)]
pub struct ValueType {
    pub ty: i64,
    pub unit: i64,
}

/// A line of a function.
#[derive(Debug, Clone, Copy, PartialEq, Eq, Structural)]
pub struct Line {
    pub function_id: u64,
    pub line: i64,
}

/// A function, whose names are string table indices.
#[derive(Debug, Clone, Copy, PartialEq, Eq, Structural)]
pub struct Function {
    pub id: u64,
    pub name: i64,
    pub system_name: i64,
    pub filename: i64,
    pub start_line: i64,
}

/// A place in the program.
#[derive(Debug)]
pub struct Location {
    pub id: u64,
    pub mapping_id: u64,
    pub address: u64,
    pub line: Vec<Line>,
    pub is_folded: bool,
}

/// The values of one stack, whose places are given from the innermost out.
#[derive(Debug)]
pub struct Sample {
    pub location_id: Vec<u64>,
    pub value: Vec<i64>,
}

/// A profile as the pprof tools read it, without mappings and labels, of which
/// a snapshot has none.
#[derive(Debug)]
pub struct Profile {
    pub sample_type: Vec<ValueType>,
    pub sample: Vec<Sample>,
    pub location: Vec<Location>,
    pub function: Vec<Function>,
    pub string_table: Vec<String>,
    pub drop_frames: i64,
    pub keep_frames: i64,
    pub time_nanos: i64,
    pub duration_nanos: i64,
    pub period_type: Option<ValueType>,
    pub period: i64,
    pub comment: Vec<i64>,
    pub default_sample_type: i64,
}

#[verifier::ext_equal]
pub struct LocationView {
    pub id: u64,
    pub mapping_id: u64,
    pub address: u64,
    pub line: Seq<Line>,
    pub is_folded: bool,
}

impl View for Location {
    type V = LocationView;

    open spec fn view(&self) -> LocationView {
        LocationView {
            id: self.id,
            mapping_id: self.mapping_id,
            address: self.address,
            line: self.line@,
            is_folded: self.is_folded,
        }
    }
}

#[verifier::ext_equal]
pub struct SampleView {
    pub location_id: Seq<u64>,
    pub value: Seq<i64>,
}

impl View for Sample {
    type V = SampleView;

    open spec fn view(&self) -> SampleView {
        SampleView { location_id: self.location_id@, value: self.value@ }
    }
}

#[verifier::ext_equal]
pub struct ProfileView {
    pub sample_type: Seq<ValueType>,
    pub sample: Seq<SampleView>,
    pub location: Seq<LocationView>,
    pub function: Seq<Function>,
    pub string_table: Seq<Seq<char>>,
    pub drop_frames: i64,
    pub keep_frames: i64,
    pub time_nanos: i64,
    pub duration_nanos: i64,
    pub period_type: Option<ValueType>,
    pub period: i64,
    pub comment: Seq<i64>,
    pub default_sample_type: i64,
}

impl View for Profile {
    type V = ProfileView;

    open spec fn view(&self) -> ProfileView {
        ProfileView {
            sample_type: self.sample_type@,
            sample: self.sample@.map_values(|sample: Sample| sample@),
            location: self.location@.map_values(|location: Location| location@),
            function: self.function@,
            string_table: self.string_table@.map_values(|text: String| text@),
            drop_frames: self.drop_frames,
            keep_frames: self.keep_frames,
            time_nanos: self.time_nanos,
            duration_nanos: self.duration_nanos,
            period_type: self.period_type,
            period: self.period,
            comment: self.comment@,
            default_sample_type: self.default_sample_type,
        }
    }
}

/// What tells functions apart.
#[derive(Debug, Clone, Copy, PartialEq, Eq, Structural)]
pub struct FunctionKey {
    pub filename: i64,
    pub function: i64,
    pub lineno: u32,
}

impl HashedKey for FunctionKey {
    open spec fn hash_value(self) -> u64 {
        (self.filename as u64).wrapping_mul(0x9E37_79B9_7F4A_7C15).wrapping_add(
            (self.function as u64).wrapping_mul(0xC2B2_AE3D_27D4_EB4F),
        ).wrapping_add(self.lineno as u64)
    }

    fn hash_code(&self) -> (hash: u64) {
        (self.filename as u64).wrapping_mul(0x9E37_79B9_7F4A_7C15).wrapping_add(
            (self.function as u64).wrapping_mul(0xC2B2_AE3D_27D4_EB4F),
        ).wrapping_add(self.lineno as u64)
    }

    fn same(&self, other: &Self) -> (same: bool) {
        *self == *other
    }
}

/// What tells locations apart.
#[derive(Debug, Clone, Copy, PartialEq, Eq, Structural)]
pub struct LocationKey {
    pub function_id: u64,
    pub lineno: u32,
}

impl HashedKey for LocationKey {
    open spec fn hash_value(self) -> u64 {
        self.function_id.wrapping_add(self.lineno as u64)
    }

    fn hash_code(&self) -> (hash: u64) {
        self.function_id.wrapping_add(self.lineno as u64)
    }

    fn same(&self, other: &Self) -> (same: bool) {
        *self == *other
    }
}

/// The string, function and location tables of a profile, in the order of
/// first appearance.
#[verifier::ext_equal]
pub struct TablesView {
    pub strings: Seq<Seq<char>>,
    pub functions: Seq<FunctionKey>,
    pub locations: Seq<LocationKey>,
}

impl TablesView {
    /// The tables that a profile starts with: the first string is empty.
    pub open spec fn initial() -> Self {
        TablesView {
            strings: seq![Seq::<char>::empty()],
            functions: Seq::empty(),
            locations: Seq::empty(),
        }
    }

    /// The index of a string at the given place of the string table.
    pub open spec fn string_index(place: int) -> i64 {
        if place > i64::MAX {
            i64::MAX
        } else {
            place as i64
        }
    }

    /// The identifier of what stands at the given place of a table. Zero is no
    /// identifier.
    pub open spec fn id_at(place: int) -> u64 {
        if place >= usize::MAX {
            usize::MAX as u64
        } else {
            (place + 1) as u64
        }
    }

    pub open spec fn with_string(self, text: Seq<char>) -> Self {
        TablesView { strings: Numbering::with(self.strings, text), ..self }
    }

    pub open spec fn index_of_string(self, text: Seq<char>) -> i64 {
        Self::string_index(Numbering::place(self.strings, text))
    }

    pub open spec fn function_key(self, frame: FrameView) -> FunctionKey {
        FunctionKey {
            filename: self.index_of_string(frame.filename),
            function: self.with_string(frame.filename).index_of_string(frame.function),
            lineno: frame.lineno,
        }
    }

    pub open spec fn location_key(self, frame: FrameView) -> LocationKey {
        LocationKey {
            function_id: Self::id_at(Numbering::place(self.functions, self.function_key(frame))),
            lineno: frame.lineno,
        }
    }

    /// The tables once a frame has its location in them.
    pub open spec fn with_frame(self, frame: FrameView) -> Self {
        TablesView {
            strings: self.with_string(frame.filename).with_string(frame.function).strings,
            functions: Numbering::with(self.functions, self.function_key(frame)),
            locations: Numbering::with(self.locations, self.location_key(frame)),
        }
    }

    /// The location identifier that a frame has or gets.
    pub open spec fn location_id(self, frame: FrameView) -> u64 {
        Self::id_at(Numbering::place(self.locations, self.location_key(frame)))
    }

    pub open spec fn with_frames(self, frames: Seq<FrameView>) -> Self
        decreases frames.len(),
    {
        if frames.len() == 0 {
            self
        } else {
            self.with_frames(frames.drop_last()).with_frame(frames.last())
        }
    }

    pub open spec fn location_ids(self, frames: Seq<FrameView>) -> Seq<u64>
        decreases frames.len(),
    {
        if frames.len() == 0 {
            Seq::empty()
        } else {
            self.location_ids(frames.drop_last()).push(
                self.with_frames(frames.drop_last()).location_id(frames.last()),
            )
        }
    }

    pub open spec fn with_records(self, records: Seq<RecordView>) -> Self
        decreases records.len(),
    {
        if records.len() == 0 {
            self
        } else {
            self.with_records(records.drop_last()).with_frames(
                ProfileView::frames_of(records.last()),
            )
        }
    }

    pub open spec fn samples(self, records: Seq<RecordView>) -> Seq<SampleView>
        decreases records.len(),
    {
        if records.len() == 0 {
            Seq::empty()
        } else {
            let record = records.last();
            self.samples(records.drop_last()).push(
                SampleView {
                    location_id: self.with_records(records.drop_last()).location_ids(
                        ProfileView::frames_of(record),
                    ),
                    value: ProfileView::values_of(record),
                },
            )
        }
    }

    pub open spec fn function_list(self) -> Seq<Function> {
        self.functions.map(
            |place: int, key: FunctionKey|
                Function {
                    id: Self::id_at(place),
                    name: key.function,
                    system_name: key.function,
                    filename: key.filename,
                    start_line: key.lineno as i64,
                },
        )
    }

    pub open spec fn location_list(self) -> Seq<LocationView> {
        self.locations.map(
            |place: int, key: LocationKey|
                LocationView {
                    id: Self::id_at(place),
                    mapping_id: 0,
                    address: 0,
                    line: seq![Line { function_id: key.function_id, line: key.lineno as i64 }],
                    is_folded: false,
                },
        )
    }

    /// No table holds anything twice.
    pub open spec fn distinct(self) -> bool {
        &&& self.strings.no_duplicates()
        &&& self.functions.no_duplicates()
        &&& self.locations.no_duplicates()
    }
}

impl ProfileView {
    /// The frame that stands for a stack of which nothing is known, so that
    /// tools still show the allocation bucket.
    pub open spec fn unknown_frame() -> FrameView {
        FrameView { filename: "<unknown>"@, function: "<unknown>"@, lineno: 0 }
    }

    /// The frames under which a record is shown.
    pub open spec fn frames_of(record: RecordView) -> Seq<FrameView> {
        match record.stack {
            Some(stack) if stack.frames.len() > 0 => stack.frames,
            _ => seq![Self::unknown_frame()],
        }
    }

    /// The bytes and the number of allocations of a record.
    pub open spec fn values_of(record: RecordView) -> Seq<i64> {
        seq![
            record.current_bytes,
            if record.allocations > i64::MAX {
                i64::MAX
            } else {
                record.allocations as i64
            },
        ]
    }

    /// The profile of a sequence of records.
    pub open spec fn of(records: Seq<RecordView>) -> ProfileView {
        let tables = TablesView::initial().with_records(records);
        let space = tables.with_string("space"@);
        let bytes = space.with_string("bytes"@);
        let allocations = bytes.with_string("allocations"@);
        let count = allocations.with_string("count"@);
        ProfileView {
            sample_type: seq![
                ValueType {
                    ty: tables.index_of_string("space"@),
                    unit: space.index_of_string("bytes"@),
                },
                ValueType {
                    ty: bytes.index_of_string("allocations"@),
                    unit: allocations.index_of_string("count"@),
                },
            ],
            sample: TablesView::initial().samples(records),
            location: tables.location_list(),
            function: tables.function_list(),
            string_table: count.strings,
            drop_frames: 0,
            keep_frames: 0,
            time_nanos: 0,
            duration_nanos: 0,
            period_type: Some(ValueType { ty: 0, unit: 0 }),
            period: 1,
            comment: Seq::empty(),
            default_sample_type: 0,
        }
    }
}

/// Strings numbered by first appearance; the first is empty.
pub(crate) struct StringTable {
    entries: Vec<String>,
    index: StringHashMap<i64>,
}

impl View for StringTable {
    type V = Seq<Seq<char>>;

    closed spec fn view(&self) -> Seq<Seq<char>> {
        self.entries@.map_values(|text: String| text@)
    }
}

impl StringTable {
    pub closed spec fn wf(&self) -> bool {
        &&& self@.no_duplicates()
        &&& forall|text: Seq<char>| #[trigger]
            self.index@.contains_key(text) == self@.contains(text)
        &&& forall|i: int|
            0 <= i < self@.len() ==> self.index@[#[trigger] self@[i]] == TablesView::string_index(i)
    }

    pub fn intern(&mut self, value: &str) -> (index: i64)
        requires
            old(self).wf(),
        ensures
            final(self).wf(),
            index == TablesView::string_index(Numbering::place(old(self)@, value@)),
            final(self)@ == Numbering::with(old(self)@, value@),
    {
        if let Some(index) = self.index.get(value) {
            assert(self@.contains(value@));
            assert(self@[self@.index_of(value@)] == value@);
            return *index;
        }
        let place: usize = self.entries.len();
        let index: i64 = if place as u128 > i64::MAX as u128 {
            i64::MAX
        } else {
            place as i64
        };
        let ghost before = self@;
        assert(!before.contains(value@));
        self.entries.push(value.to_owned());
        self.index.insert(value.to_owned(), index);
        proof {
            assert(self@ =~= before.push(value@));
            Numbering::lemma_with(before, value@);
            assert forall|text: Seq<char>| #[trigger]
                self.index@.contains_key(text) == self@.contains(text) by {
                if before.contains(text) {
                    let i = choose|i: int| 0 <= i < before.len() && before[i] == text;
                    assert(self@[i] == text);
                }
                if self@.contains(text) && text != value@ {
                    let i = choose|i: int| 0 <= i < self@.len() && self@[i] == text;
                    assert(before[i] == text);
                }
            }
            assert forall|i: int| 0 <= i < self@.len() implies self.index@[#[trigger] self@[i]]
                == TablesView::string_index(i) by {
                if i < before.len() {
                    assert(self@[i] == before[i]);
                    assert(before.contains(before[i]));
                }
            }
        }
        index
    }

    pub fn into_vec(self) -> (entries: Vec<String>)
        ensures
            entries@.map_values(|text: String| text@) == self@,
    {
        self.entries
    }

    pub fn new() -> (table: Self)
        ensures
            table.wf(),
            table@ == seq![Seq::<char>::empty()],
    {
        let mut table = StringTable { entries: Vec::new(), index: StringHashMap::new() };
        table.entries.push(String::new());
        table.index.insert(String::new(), 0);
        proof {
            let empty = Seq::<char>::empty();
            assert(table@ =~= seq![empty]);
            assert forall|text: Seq<char>| #[trigger]
                table.index@.contains_key(text) == table@.contains(text) by {
                assert(table@[0] == empty);
            }
        }
        table
    }
}

/// The identifier of the entry that follows the given number of entries.
fn next_id(len: usize) -> (id: u64)
    ensures
        id == TablesView::id_at(len as int),
{
    len.saturating_add(1) as u64
}

/// The tables of a profile under construction.
pub struct ProfileTables {
    strings: StringTable,
    functions: KeyTable<FunctionKey>,
    locations: KeyTable<LocationKey>,
}

impl View for ProfileTables {
    type V = TablesView;

    closed spec fn view(&self) -> TablesView {
        TablesView {
            strings: self.strings@,
            functions: self.functions@,
            locations: self.locations@,
        }
    }
}

impl ProfileTables {
    /// The tables are in order, and all that stands in them can be found.
    pub closed spec fn wf(&self) -> bool {
        &&& self@.in_order()
        &&& self.strings.wf()
        &&& self.functions.wf()
        &&& self.locations.wf()
    }

    /// What the tables promise to whoever can see them.
    pub proof fn lemma_wf(&self)
        requires
            self.wf(),
        ensures
            self@.in_order(),
    {
    }

    /// The tables that a profile starts with.
    #[must_use]
    pub fn new() -> (tables: Self)
        ensures
            tables.wf(),
            tables@ == TablesView::initial(),
    {
        ProfileTables {
            strings: StringTable::new(),
            functions: KeyTable::new(),
            locations: KeyTable::new(),
        }
    }

    /// The identifier of the location of a frame, which is entered into the
    /// tables where it is not there yet.
    pub fn intern_location_for_frame(&mut self, filename: &str, function: &str, lineno: u32) -> (id:
        u64)
        requires
            old(self).wf(),
        ensures
            final(self).wf(),
            id == old(self)@.location_id(
                FrameView { filename: filename@, function: function@, lineno },
            ),
            final(self)@ == old(self)@.with_frame(
                FrameView { filename: filename@, function: function@, lineno },
            ),
            final(self)@.fits() ==> final(self)@.shows_at(
                FrameView { filename: filename@, function: function@, lineno },
                id,
            ),
            old(self)@.extended_by(final(self)@),
    {
        proof {
            old(self)@.law_tables_stay_in_order(
                FrameView { filename: filename@, function: function@, lineno },
            );
        }
        let filename: i64 = self.strings.intern(filename);
        let function: i64 = self.strings.intern(function);
        let function_id: u64 = next_id(
            self.functions.number(FunctionKey { filename, function, lineno }),
        );
        next_id(self.locations.number(LocationKey { function_id, lineno }))
    }

    /// The location identifiers of a sequence of frames.
    fn intern_frames(&mut self, frames: &[FrameMetadata]) -> (ids: Vec<u64>)
        requires
            old(self).wf(),
        ensures
            final(self).wf(),
            ids@ == old(self)@.location_ids(FrameView::all(frames@)),
            final(self)@ == old(self)@.with_frames(FrameView::all(frames@)),
    {
        let mut ids: Vec<u64> = Vec::new();
        let ghost views = FrameView::all(frames@);
        for i in 0..frames.len()
            invariant
                views == FrameView::all(frames@),
                self.wf(),
                ids@ == old(self)@.location_ids(views.take(i as int)),
                self@ == old(self)@.with_frames(views.take(i as int)),
        {
            let frame = &frames[i];
            assert(views.take(i as int + 1).drop_last() =~= views.take(i as int));
            assert(views.take(i as int + 1).last() == frame@);
            ids.push(self.intern_location_for_frame(&frame.filename, &frame.function, frame.lineno));
        }
        assert(views.take(views.len() as int) =~= views);
        ids
    }

    /// The location identifiers under which a record is shown.
    fn intern_record(&mut self, record: &SnapshotRecord) -> (ids: Vec<u64>)
        requires
            old(self).wf(),
        ensures
            final(self).wf(),
            ids@ == old(self)@.location_ids(ProfileView::frames_of(record@)),
            final(self)@ == old(self)@.with_frames(ProfileView::frames_of(record@)),
    {
        let mut ids: Vec<u64> = Vec::new();
        if let Some(stack) = &record.stack {
            ids = self.intern_frames(stack.frames());
            proof {
                old(self)@.lemma_location_ids_len(stack@.frames);
            }
        }
        if ids.len() == 0 {
            let ghost unknown = seq![ProfileView::unknown_frame()];
            assert(unknown.drop_last() =~= Seq::<FrameView>::empty());
            assert(self@ == old(self)@);
            assert(ids@ =~= Seq::<u64>::empty());
            ids.push(self.intern_location_for_frame("<unknown>", "<unknown>", 0));
            assert(unknown.last() == ProfileView::unknown_frame());
            proof {
                reveal_with_fuel(TablesView::with_frames, 2);
                reveal_with_fuel(TablesView::location_ids, 2);
            }
        }
        ids
    }

    /// The functions of the profile.
    #[must_use]
    pub fn function_list(&self) -> (list: Vec<Function>)
        requires
            self.wf(),
        ensures
            list@ == self@.function_list(),
    {
        let mut list: Vec<Function> = Vec::new();
        let len: usize = self.functions.len();
        for place in 0..len
            invariant
                len == self@.functions.len(),
                list@.len() == place,
                forall|i: int|
                    0 <= i < place ==> #[trigger] list@[i] == self@.function_list()[i],
        {
            let key = self.functions.get(place);
            list.push(
                Function {
                    id: next_id(place),
                    name: key.function,
                    system_name: key.function,
                    filename: key.filename,
                    start_line: key.lineno as i64,
                },
            );
        }
        assert(list@ =~= self@.function_list());
        list
    }

    /// The locations of the profile.
    #[must_use]
    pub fn location_list(&self) -> (list: Vec<Location>)
        requires
            self.wf(),
        ensures
            list@.map_values(|location: Location| location@) == self@.location_list(),
    {
        let mut list: Vec<Location> = Vec::new();
        let len: usize = self.locations.len();
        for place in 0..len
            invariant
                len == self@.locations.len(),
                list@.len() == place,
                forall|i: int|
                    0 <= i < place ==> (#[trigger] list@[i])@ == self@.location_list()[i],
        {
            let key = self.locations.get(place);
            let line = Line { function_id: key.function_id, line: key.lineno as i64 };
            let lines: Vec<Line> = vec![line];
            assert(lines@ =~= seq![line]);
            list.push(
                Location {
                    id: next_id(place),
                    mapping_id: 0,
                    address: 0,
                    line: lines,
                    is_folded: false,
                },
            );
        }
        assert(list@.map_values(|location: Location| location@) =~= self@.location_list());
        list
    }
}

impl TablesView {
    /// A frame has one location.
    pub proof fn lemma_location_ids_len(self, frames: Seq<FrameView>)
        ensures
            self.location_ids(frames).len() == frames.len(),
        decreases frames.len(),
    {
        if frames.len() > 0 {
            self.lemma_location_ids_len(frames.drop_last());
        }
    }
}

/// The pprof profile of a snapshot.
#[must_use]
pub fn build_pprof_profile(snapshot: &Snapshot) -> (profile: Profile)
    ensures
        profile@ == ProfileView::of(snapshot@.records),
        profile@.sample.len() == snapshot@.records.len(),
        forall|i: int|
            0 <= i < snapshot@.records.len() ==> {
                let record = #[trigger] snapshot@.records[i];
                let value = profile@.sample[i].value;
                &&& value.len() == 2
                &&& value[0] == record.current_bytes
                &&& value[1] == if record.allocations > i64::MAX {
                    i64::MAX as int
                } else {
                    record.allocations as int
                }
            },
{
    let mut tables = ProfileTables::new();
    let mut samples: Vec<Sample> = Vec::new();
    let records = snapshot.records();
    let ghost views = snapshot@.records;

    for i in 0..records.len()
        invariant
            views == RecordView::all(records@),
            tables.wf(),
            tables@ == TablesView::initial().with_records(views.take(i as int)),
            samples@.map_values(|sample: Sample| sample@) == TablesView::initial().samples(
                views.take(i as int),
            ),
    {
        let record = &records[i];
        assert(views.take(i as int + 1).drop_last() =~= views.take(i as int));
        assert(views.take(i as int + 1).last() == record@);
        let location_id = tables.intern_record(record);
        let allocations: i64 = if record.allocations > i64::MAX as u64 {
            i64::MAX
        } else {
            record.allocations as i64
        };
        let value: Vec<i64> = vec![record.current_bytes, allocations];
        assert(value@ =~= ProfileView::values_of(record@));
        let ghost before = samples@;
        samples.push(Sample { location_id, value });
        assert(samples@.map_values(|sample: Sample| sample@) =~= before.map_values(
            |sample: Sample| sample@,
        ).push(samples@.last()@));
    }
    assert(views.take(views.len() as int) =~= views);

    let function = tables.function_list();
    let location = tables.location_list();
    let space: i64 = tables.strings.intern("space");
    let bytes: i64 = tables.strings.intern("bytes");
    let allocations: i64 = tables.strings.intern("allocations");
    let count: i64 = tables.strings.intern("count");
    let profile = Profile {
        sample_type: vec![
            ValueType { ty: space, unit: bytes },
            ValueType { ty: allocations, unit: count },
        ],
        sample: samples,
        location,
        function,
        string_table: tables.strings.into_vec(),
        drop_frames: 0,
        keep_frames: 0,
        time_nanos: 0,
        duration_nanos: 0,
        period_type: Some(ValueType { ty: 0, unit: 0 }),
        period: 1,
        comment: Vec::new(),
        default_sample_type: 0,
    };
    assert(profile@ =~= ProfileView::of(snapshot@.records));
    proof {
        assert forall|i: int| 0 <= i < views.len() implies {
            let value = profile@.sample[i].value;
            &&& profile@.sample.len() == views.len()
            &&& value.len() == 2
            &&& value[0] == (#[trigger] views[i]).current_bytes
            &&& value[1] == if views[i].allocations > i64::MAX {
                i64::MAX as int
            } else {
                views[i].allocations as int
            }
        } by {
            crate::profile_laws::law_samples_carry_bytes_and_allocations(views, i);
        }
    }
    profile
}

} // verus!
