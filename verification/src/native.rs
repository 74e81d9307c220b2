//! Native stack frames.

use crate::frames::{FrameMetadata, FrameView};
use crate::origin::Origin;
use backtrace::Frame;
use vstd::prelude::*;

verus! {

/// A native stack frame of the `backtrace` crate.
#[verifier::external_type_specification]
#[verifier::external_body]
pub struct ExFrame(backtrace::Frame);

/// What a symbol says of a frame.
#[verifier::ext_equal]
pub struct SymbolView {
    /// The path of the source file, where it is a text.
    pub path: Option<Seq<char>>,
    /// The last component of the path, where it is a text.
    pub last_component: Option<Seq<char>>,
    pub function: Option<Seq<char>>,
    pub lineno: Option<u32>,
}

/// What is known of a frame.
#[verifier::ext_equal]
pub struct InfoView {
    pub filename: Option<Seq<char>>,
    pub function: Option<Seq<char>>,
    pub lineno: Option<u32>,
}

impl InfoView {
    pub open spec fn nothing() -> Self {
        InfoView { filename: None, function: None, lineno: None }
    }

    /// What is known already, or else what is offered.
    pub open spec fn first<T>(known: Option<T>, offered: Option<T>) -> Option<T> {
        if known is Some {
            known
        } else {
            offered
        }
    }

    /// What is known once a symbol has been seen. A path that is no text is
    /// given by its last component.
    pub open spec fn see(self, symbol: SymbolView) -> Self {
        InfoView {
            filename: Self::first(self.filename, Self::first(symbol.path, symbol.last_component)),
            function: Self::first(self.function, symbol.function),
            lineno: Self::first(self.lineno, symbol.lineno),
        }
    }

    /// What is known once all the symbols have been seen, one after the other.
    pub open spec fn see_all(self, symbols: Seq<SymbolView>) -> Self
        decreases symbols.len(),
    {
        if symbols.len() == 0 {
            self
        } else {
            self.see_all(symbols.drop_last()).see(symbols.last())
        }
    }

    /// Whether this is what is known once the symbols of a native frame have
    /// been seen, one after the other.
    pub open spec fn follows(self, before: Self, frame: Frame) -> bool {
        exists|symbols: Seq<SymbolView>|
            Origin::resolved(frame, symbols) && self == #[trigger] before.see_all(symbols)
    }

    /// The frame that is known, with placeholders for the rest.
    pub open spec fn frame(self) -> FrameView {
        FrameView {
            filename: match self.filename {
                Some(filename) => filename,
                None => "<native>"@,
            },
            function: match self.function {
                Some(function) => function,
                None => "<unknown>"@,
            },
            lineno: match self.lineno {
                Some(lineno) => lineno,
                None => 0,
            },
        }
    }
}

impl InfoView {
    proof fn lemma_first_known(self, symbols: Seq<SymbolView>, i: int)
        requires
            0 <= i <= symbols.len(),
        ensures
            self.see_all(symbols) == self.see_all(symbols.take(i)).see_all(symbols.skip(i)),
        decreases symbols.len(),
    {
        if i == symbols.len() {
            assert(symbols.take(i) =~= symbols);
            assert(symbols.skip(i) =~= Seq::empty());
        } else {
            self.lemma_first_known(symbols.drop_last(), i);
            assert(symbols.drop_last().take(i) =~= symbols.take(i));
            assert(symbols.drop_last().skip(i) =~= symbols.skip(i).drop_last());
        }
    }

    proof fn lemma_known_stays(self, symbols: Seq<SymbolView>)
        ensures
            self.filename is Some ==> self.see_all(symbols).filename == self.filename,
            self.function is Some ==> self.see_all(symbols).function == self.function,
            self.lineno is Some ==> self.see_all(symbols).lineno == self.lineno,
        decreases symbols.len(),
    {
        if symbols.len() > 0 {
            self.lemma_known_stays(symbols.drop_last());
        }
    }

    proof fn lemma_unknown_stays(self, symbols: Seq<SymbolView>)
        ensures
            self.filename is None && (forall|j: int|
                0 <= j < symbols.len() ==> (#[trigger] symbols[j]).path is None
                    && symbols[j].last_component is None) ==> self.see_all(
                symbols,
            ).filename is None,
            self.function is None && (forall|j: int|
                0 <= j < symbols.len() ==> (#[trigger] symbols[j]).function is None)
                ==> self.see_all(symbols).function is None,
            self.lineno is None && (forall|j: int|
                0 <= j < symbols.len() ==> (#[trigger] symbols[j]).lineno is None)
                ==> self.see_all(symbols).lineno is None,
        decreases symbols.len(),
    {
        if symbols.len() > 0 {
            let rest = symbols.drop_last();
            self.lemma_unknown_stays(rest);
            assert(forall|j: int| 0 <= j < rest.len() ==> rest[j] == #[trigger] symbols[j]);
        }
    }

    /// Of each part of a frame, the first symbol that knows it decides, whatever
    /// the other parts are. A file is known by its path or else by the last
    /// component of it.
    pub proof fn law_the_first_symbol_decides(symbols: Seq<SymbolView>, i: int)
        requires
            0 <= i < symbols.len(),
        ensures
            ({
                let info = Self::nothing().see_all(symbols);
                let symbol = symbols[i];
                &&& (forall|j: int| 0 <= j < i ==> (#[trigger] symbols[j]).function is None)
                    && symbol.function is Some ==> info.function == symbol.function
                &&& (forall|j: int| 0 <= j < i ==> (#[trigger] symbols[j]).lineno is None)
                    && symbol.lineno is Some ==> info.lineno == symbol.lineno
                &&& (forall|j: int|
                    0 <= j < i ==> (#[trigger] symbols[j]).path is None
                        && symbols[j].last_component is None) ==> {
                    &&& symbol.path is Some ==> info.filename == symbol.path
                    &&& symbol.path is None && symbol.last_component is Some ==> info.filename
                        == symbol.last_component
                }
            }),
    {
        let before = symbols.take(i);
        let upto = symbols.take(i + 1);
        let nothing = Self::nothing();
        nothing.lemma_first_known(symbols, i + 1);
        nothing.see_all(upto).lemma_known_stays(symbols.skip(i + 1));
        assert(upto.drop_last() =~= before);
        assert(upto.last() == symbols[i]);
        assert(forall|j: int| 0 <= j < before.len() ==> before[j] == #[trigger] symbols[j]);
        nothing.lemma_unknown_stays(before);
    }

    /// A part of a frame that no symbol knows is shown by a placeholder, and any
    /// other part as it is known.
    pub proof fn law_unknown_parts_have_placeholders(symbols: Seq<SymbolView>)
        ensures
            ({
                let info = Self::nothing().see_all(symbols);
                let frame = info.frame();
                &&& (forall|j: int|
                    0 <= j < symbols.len() ==> (#[trigger] symbols[j]).path is None
                        && symbols[j].last_component is None) ==> frame.filename == "<native>"@
                &&& (forall|j: int|
                    0 <= j < symbols.len() ==> (#[trigger] symbols[j]).function is None)
                    ==> frame.function == "<unknown>"@
                &&& (forall|j: int|
                    0 <= j < symbols.len() ==> (#[trigger] symbols[j]).lineno is None)
                    ==> frame.lineno == 0
                &&& info.filename matches Some(filename) ==> frame.filename == filename
                &&& info.function matches Some(function) ==> frame.function == function
                &&& info.lineno matches Some(lineno) ==> frame.lineno == lineno
            }),
    {
        Self::nothing().lemma_unknown_stays(symbols);
    }
}

/// What is known of a native frame from its symbols. A frame has several where
/// functions were inlined into it.
#[derive(Debug)]
pub struct SymbolInfo {
    filename: Option<String>,
    function: Option<String>,
    lineno: Option<u32>,
}

impl View for SymbolInfo {
    type V = InfoView;

    closed spec fn view(&self) -> InfoView {
        InfoView {
            filename: SymbolInfo::text(self.filename),
            function: SymbolInfo::text(self.function),
            lineno: self.lineno,
        }
    }
}

impl SymbolInfo {
    /// The text of an optional string.
    pub open spec fn text(value: Option<String>) -> Option<Seq<char>> {
        match value {
            Some(value) => Some(value@),
            None => None,
        }
    }

    /// Nothing is known.
    #[must_use]
    pub fn new() -> (info: Self)
        ensures
            info@ == InfoView::nothing(),
    {
        SymbolInfo { filename: None, function: None, lineno: None }
    }

    /// Takes from a symbol what is not known yet. A path that is no text is
    /// given by its last component, where that is one.
    pub fn see(
        &mut self,
        path: Option<String>,
        last_component: Option<String>,
        function: Option<String>,
        lineno: Option<u32>,
    )
        ensures
            final(self)@ == old(self)@.see(
                (SymbolView {
                    path: Self::text(path),
                    last_component: Self::text(last_component),
                    function: Self::text(function),
                    lineno,
                }),
            ),
    {
        if self.filename.is_none() {
            self.filename = path_to_string(path, last_component);
        }
        if self.function.is_none() {
            self.function = function;
        }
        if self.lineno.is_none() {
            self.lineno = lineno;
        }
    }

    /// The frame that is known, with placeholders for the rest.
    #[must_use]
    pub fn into_frame(self) -> (frame: FrameMetadata)
        ensures
            frame@ == self@.frame(),
    {
        FrameMetadata::new(
            match &self.filename {
                Some(filename) => filename.as_str(),
                None => "<native>",
            },
            match &self.function {
                Some(function) => function.as_str(),
                None => "<unknown>",
            },
            match self.lineno {
                Some(lineno) => lineno,
                None => 0,
            },
        )
    }
}

/// A path as text, or else its last component.
fn path_to_string(path: Option<String>, last_component: Option<String>) -> (text: Option<String>)
    ensures
        SymbolInfo::text(text) == InfoView::first(
            SymbolInfo::text(path),
            SymbolInfo::text(last_component),
        ),
{
    if path.is_some() {
        path
    } else {
        last_component
    }
}

/// `backtrace::resolve_frame`: offers the symbols of a frame one by one to
/// [`SymbolInfo::see`], each with its path, the last component of the path,
/// its demangled name and its line as far as it has them. The symbols are those
/// of the frame; which they are depends on the program that runs, and is left
/// open.
#[verifier::external_body]
fn resolve_symbols(frame: &Frame, info: &mut SymbolInfo)
    ensures
        final(info)@.follows(old(info)@, *frame),
{
    backtrace::resolve_frame(
        frame,
        |symbol| {
            info.see(
                symbol.filename().and_then(|path| path.to_str()).map(str::to_string),
                symbol.filename().and_then(|path| path.file_name()).and_then(|name| name.to_str()).map(str::to_string),
                symbol.name().map(|name| format!("{name}")),
                symbol.lineno(),
            )
        },
    )
}

/// What the symbols of a native frame say of it.
fn extract_metadata(frame: &Frame) -> (metadata: FrameMetadata)
    ensures
        exists|symbols: Seq<SymbolView>|
            Origin::resolved(*frame, symbols) && metadata@ == (
            #[trigger] InfoView::nothing().see_all(symbols)).frame(),
{
    let mut info = SymbolInfo::new();
    resolve_symbols(frame, &mut info);
    info.into_frame()
}

/// The state of a walk up the native stack.
#[verifier::ext_equal]
pub struct NativeWalkView {
    /// The frames seen so far, apart from those to be left out.
    pub frames: Seq<FrameView>,
    /// How many frames are wanted.
    pub limit: usize,
    /// How many frames are still to be left out.
    pub remaining_skip: usize,
}

impl NativeWalkView {
    pub open spec fn initial(skip: usize, limit: usize) -> Self {
        NativeWalkView { frames: Seq::empty(), limit, remaining_skip: skip }
    }

    /// Whether the walk goes on once another frame is shown to it.
    pub open spec fn goes_on(self) -> bool {
        self.remaining_skip > 0 || self.frames.len() < self.limit
    }

    /// The walk once a frame has been shown to it.
    pub open spec fn visit(self, frame: FrameView) -> Self {
        if self.remaining_skip > 0 {
            NativeWalkView { remaining_skip: (self.remaining_skip - 1) as usize, ..self }
        } else if self.frames.len() < self.limit {
            NativeWalkView { frames: self.frames.push(frame), ..self }
        } else {
            self
        }
    }

    /// The walk up a stack, innermost frame first, as far as it goes.
    pub open spec fn walk(self, stack: Seq<FrameView>) -> Self
        decreases stack.len(),
    {
        if stack.len() == 0 || !self.goes_on() {
            self
        } else {
            self.visit(stack[0]).walk(stack.skip(1))
        }
    }

    /// Whether this is where a walk stands after it went up the native stack of
    /// the thread.
    pub open spec fn follows(self, before: Self) -> bool {
        exists|stack: Seq<FrameView>|
            Origin::captured(stack) && self == #[trigger] before.walk(stack)
    }

    proof fn lemma_walk(self, stack: Seq<FrameView>)
        requires
            self.frames.len() <= self.limit,
            self.remaining_skip > 0 ==> self.frames.len() == 0,
        ensures
            self.walk(stack).frames == self.frames + FrameView::window(
                stack,
                self.remaining_skip as int,
                self.limit - self.frames.len(),
            ),
        decreases stack.len(),
    {
        let window = FrameView::window(
            stack,
            self.remaining_skip as int,
            self.limit - self.frames.len(),
        );
        if stack.len() == 0 || !self.goes_on() {
            assert(self.frames + window =~= self.frames);
        } else {
            let next = self.visit(stack[0]);
            let rest = stack.skip(1);
            next.lemma_walk(rest);
            let rest_window = FrameView::window(
                rest,
                next.remaining_skip as int,
                next.limit - next.frames.len(),
            );
            if self.remaining_skip > 0 {
                assert(window =~= rest_window);
            } else {
                assert(window =~= seq![stack[0]] + rest_window);
                assert(next.frames + rest_window =~= self.frames + window);
            }
        }
    }

    /// A walk goes on exactly as long as another frame makes a difference to it:
    /// it is left out, or it is kept.
    pub proof fn law_walks_go_on_while_frames_count(self, frame: FrameView)
        ensures
            self.goes_on() <==> self.visit(frame) != self,
            self.remaining_skip > 0 ==> self.visit(frame).frames == self.frames
                && self.visit(frame).remaining_skip == self.remaining_skip - 1,
            self.remaining_skip == 0 && self.frames.len() < self.limit ==> self.visit(frame).frames
                == self.frames.push(frame),
            self.visit(frame).limit == self.limit,
    {
        assert(self.frames.push(frame).len() != self.frames.len());
    }

    /// A walk takes a window of the stack: the innermost frames are left out,
    /// and no more are taken than asked for.
    pub proof fn law_walks_take_a_window(skip: usize, limit: usize, stack: Seq<FrameView>)
        ensures
            Self::initial(skip, limit).walk(stack).frames == FrameView::window(
                stack,
                skip as int,
                limit as int,
            ),
    {
        let start = Self::initial(skip, limit);
        start.lemma_walk(stack);
        assert(start.frames + FrameView::window(stack, skip as int, limit as int)
            =~= FrameView::window(stack, skip as int, limit as int));
    }
}

/// A walk up the native stack.
#[derive(Debug)]
pub(crate) struct NativeWalk {
    frames: Vec<FrameMetadata>,
    limit: usize,
    remaining_skip: usize,
}

impl View for NativeWalk {
    type V = NativeWalkView;

    closed spec fn view(&self) -> NativeWalkView {
        NativeWalkView {
            frames: FrameView::all(self.frames@),
            limit: self.limit,
            remaining_skip: self.remaining_skip,
        }
    }
}

impl NativeWalk {
    pub fn new(skip: usize, limit: usize) -> (walk: Self)
        ensures
            walk@ == NativeWalkView::initial(skip, limit),
    {
        let walk = NativeWalk { frames: Vec::new(), limit, remaining_skip: skip };
        assert(walk@ =~= NativeWalkView::initial(skip, limit));
        walk
    }

    /// Takes the next frame of the stack. Returns whether the walk goes on.
    pub fn visit(&mut self, frame: &Frame) -> (more: bool)
        ensures
            more == old(self)@.goes_on(),
            exists|symbols: Seq<SymbolView>|
                {
                    &&& old(self)@.remaining_skip == 0 && old(self)@.frames.len()
                        < old(self)@.limit ==> Origin::resolved(*frame, symbols)
                    &&& final(self)@ == old(self)@.visit(
                        (#[trigger] InfoView::nothing().see_all(symbols)).frame(),
                    )
                },
    {
        let ghost before = self.frames@;
        if self.remaining_skip > 0 {
            self.remaining_skip = self.remaining_skip - 1;
            assert(self@ =~= old(self)@.visit(InfoView::nothing().see_all(Seq::empty()).frame()));
            return true;
        }
        if self.frames.len() >= self.limit {
            assert(self@ =~= old(self)@.visit(InfoView::nothing().see_all(Seq::empty()).frame()));
            return false;
        }
        let metadata = extract_metadata(frame);
        self.frames.push(metadata);
        assert(FrameView::all(self.frames@) =~= FrameView::all(before).push(metadata@));
        proof {
            let symbols = choose|symbols: Seq<SymbolView>|
                Origin::resolved(*frame, symbols) && metadata@ == (
                #[trigger] InfoView::nothing().see_all(symbols)).frame();
            assert(self@ =~= old(self)@.visit(InfoView::nothing().see_all(symbols).frame()));
        }
        true
    }

    pub fn into_frames(self) -> (frames: Vec<FrameMetadata>)
        ensures
            FrameView::all(frames@) == self@.frames,
    {
        self.frames
    }
}

/// `backtrace::trace`: hands the frames of the calling thread, innermost
/// first, to [`NativeWalk::visit`] until there are no more or it returns
/// `false`. The frames are those of the stack at the time; which they are
/// depends on the program that runs, and is left open.
#[verifier::external_body]
fn trace(walk: &mut NativeWalk)
    ensures
        final(walk)@.follows(old(walk)@),
{
    backtrace::trace(|frame| walk.visit(frame))
}

/// The native frames of the calling thread: all but the first `skip`, and at
/// most `limit` of them.
pub(crate) fn capture_native_frames(skip: usize, limit: usize) -> (frames: Vec<FrameMetadata>)
    ensures
        exists|stack: Seq<FrameView>|
            Origin::captured(stack) && FrameView::all(frames@) == #[trigger] FrameView::window(
                stack,
                skip as int,
                limit as int,
            ),
{
    let mut walk = NativeWalk::new(skip, limit);
    trace(&mut walk);
    proof {
        let start = NativeWalkView::initial(skip, limit);
        let stack = choose|stack: Seq<FrameView>|
            Origin::captured(stack) && walk@ == #[trigger] start.walk(stack);
        NativeWalkView::law_walks_take_a_window(skip, limit, stack);
    }
    walk.into_frames()
}

} // verus!
