//! Frames of stack traces.

use crate::text::{shared_str, str_eq};
use std::sync::Arc;
use vstd::prelude::*;

verus! {

/// Metadata describing a single frame in a stack trace.
#[derive(Debug, Eq, PartialEq, Hash)]
pub struct FrameMetadata {
    pub filename: Arc<str>,
    pub function: Arc<str>,
    pub lineno: u32,
}

/// What a frame says.
#[verifier::ext_equal]
pub struct FrameView {
    pub filename: Seq<char>,
    pub function: Seq<char>,
    pub lineno: u32,
}

impl View for FrameMetadata {
    type V = FrameView;

    open spec fn view(&self) -> FrameView {
        FrameView {
            filename: (*self.filename)@,
            function: (*self.function)@,
            lineno: self.lineno,
        }
    }
}

impl Clone for FrameMetadata {
    fn clone(&self) -> (frame: Self)
        ensures
            frame@ == self@,
    {
        FrameMetadata {
            filename: self.filename.clone(),
            function: self.function.clone(),
            lineno: self.lineno,
        }
    }
}

impl FrameMetadata {
    #[must_use]
    pub fn new(filename: &str, function: &str, lineno: u32) -> (frame: Self)
        ensures
            frame@ == (FrameView { filename: filename@, function: function@, lineno }),
    {
        FrameMetadata {
            filename: shared_str(filename),
            function: shared_str(function),
            lineno,
        }
    }

    /// Whether two frames say the same.
    fn same(&self, other: &FrameMetadata) -> (same: bool)
        ensures
            same == (self@ == other@),
    {
        self.lineno == other.lineno && str_eq(&self.filename, &other.filename) && str_eq(
            &self.function,
            &other.function,
        )
    }
}

impl FrameView {
    /// What a sequence of frames says.
    pub open spec fn all(frames: Seq<FrameMetadata>) -> Seq<FrameView> {
        frames.map_values(|frame: FrameMetadata| frame@)
    }

    /// All but the first `skip` frames, and at most `limit` of them.
    pub open spec fn window(frames: Seq<FrameView>, skip: int, limit: int) -> Seq<FrameView> {
        let rest = if skip <= frames.len() {
            frames.skip(skip)
        } else {
            Seq::empty()
        };
        if limit <= rest.len() {
            rest.take(limit)
        } else {
            rest
        }
    }

    /// A window leaves out as many of the first frames as asked for, and holds
    /// the next ones in order, up to the limit or the last.
    pub proof fn law_windows(frames: Seq<FrameView>, skip: int, limit: int)
        requires
            0 <= skip,
            0 <= limit,
        ensures
            ({
                let window = Self::window(frames, skip, limit);
                &&& frames.len() <= skip ==> window.len() == 0
                &&& skip <= frames.len() <= skip + limit ==> window.len() == frames.len() - skip
                &&& skip + limit <= frames.len() ==> window.len() == limit
                &&& forall|i: int|
                    0 <= i < window.len() ==> #[trigger] window[i] == frames[skip + i]
            }),
    {
    }

    /// What a frame says, where there is one.
    pub open spec fn of(frame: Option<FrameMetadata>) -> Option<FrameView> {
        match frame {
            Some(frame) => Some(frame@),
            None => None,
        }
    }

    /// What a sequence of frames says, where there is one.
    pub open spec fn optional(frames: Option<&[FrameMetadata]>) -> Option<Seq<FrameView>> {
        match frames {
            Some(frames) => Some(FrameView::all(frames@)),
            None => None,
        }
    }
}

/// A copy of a sequence of frames.
pub fn clone_frames(frames: &[FrameMetadata]) -> (copy: Vec<FrameMetadata>)
    ensures
        FrameView::all(copy@) == FrameView::all(frames@),
{
    let mut copy: Vec<FrameMetadata> = Vec::new();
    for i in 0..frames.len()
        invariant
            copy@.len() == i,
            forall|j: int| 0 <= j < i ==> (#[trigger] copy@[j])@ == frames@[j]@,
    {
        copy.push(frames[i].clone());
    }
    assert(FrameView::all(copy@) =~= FrameView::all(frames@));
    copy
}

/// Whether two sequences of frames say the same.
pub fn same_frames(left: &[FrameMetadata], right: &[FrameMetadata]) -> (same: bool)
    ensures
        same == (FrameView::all(left@) == FrameView::all(right@)),
{
    if left.len() != right.len() {
        assert(FrameView::all(left@).len() != FrameView::all(right@).len());
        return false;
    }
    for i in 0..left.len()
        invariant
            left@.len() == right@.len(),
            forall|j: int| 0 <= j < i ==> #[trigger] left@[j]@ == right@[j]@,
    {
        if !left[i].same(&right[i]) {
            assert(FrameView::all(left@)[i as int] != FrameView::all(right@)[i as int]);
            return false;
        }
    }
    assert(FrameView::all(left@) =~= FrameView::all(right@));
    true
}

} // verus!
