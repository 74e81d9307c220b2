//! Where values come from that no argument determines.

use crate::frames::FrameView;
use crate::native::SymbolView;
use vstd::prelude::*;

verus! {

/// What comes from outside: numbers drawn by chance, and what the thread that
/// runs finds on its stack. Any value can come, and only the call that brings
/// one tells that it came: elsewhere nothing more is known of this.
pub struct Origin {}

impl Origin {
    /// Whether the number was drawn from the random source.
    pub closed spec fn drawn(number: u64) -> bool {
        true
    }

    /// Whether the frames are the native stack of the thread that asked for
    /// it, innermost frame first.
    pub closed spec fn captured(stack: Seq<FrameView>) -> bool {
        true
    }

    /// Whether the symbols are those of the native frame.
    pub closed spec fn resolved(frame: backtrace::Frame, symbols: Seq<SymbolView>) -> bool {
        true
    }
}

} // verus!
