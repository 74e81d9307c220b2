//! What holds of a stack table, and of the caches in front of it, from one
//! call to the next.

use crate::event::StackId;
use crate::frames::FrameView;
use crate::stack::StackTableView;
use crate::stack_capture::CollectorView;
use vstd::prelude::*;

verus! {

impl StackTableView {
    /// Whether frames are known under an identifier that resolves to them.
    ///
    /// This holds of a new table and stays so, but for an identifier that is
    /// given to two stacks: by explicit registration, or because there are no
    /// more identifiers.
    pub open spec fn consistent(self) -> bool {
        forall|frames: Seq<FrameView>| #[trigger]
            self.ids.contains_key(frames) ==> self.stacks.contains_pair(self.ids[frames], frames)
    }

    /// Whether the frames have an identifier, or can get one that is not in
    /// use.
    pub open spec fn has_room_for(self, frames: Seq<FrameView>) -> bool {
        self.ids.contains_key(frames) || !self.stacks.contains_key(self.next_id)
    }

    /// Whether all identifiers of an earlier table resolve as they did.
    pub open spec fn keeps_stacks_of(self, earlier: Self) -> bool {
        forall|id: StackId| #[trigger]
            earlier.stacks.contains_key(id) ==> self.stacks.contains_pair(id, earlier.stacks[id])
    }

    /// A new table is in order.
    pub proof fn law_initial_table()
        ensures
            Self::initial().wf(),
            Self::initial().consistent(),
            forall|frames: Seq<FrameView>| #[trigger] Self::initial().has_room_for(frames),
    {
    }

    /// There is room for any frames until the largest identifier is reached.
    pub proof fn law_room(self, frames: Seq<FrameView>)
        requires
            self.wf(),
            self.next_id < u64::MAX,
        ensures
            self.has_room_for(frames),
    {
    }

    /// Identifiers count up from one: frames that are not known get the next
    /// number, and are known under it from then on. Frames that are known keep
    /// the number that they have, and use up none.
    pub proof fn law_identifiers_count_up(self, frames: Seq<FrameView>)
        ensures
            Self::initial().next_id == 1,
            Self::initial().ids.dom().len() == 0,
            Self::initial().stacks.dom().len() == 0,
            self.ids.contains_key(frames) ==> self.id_of(frames) == self.ids[frames]
                && self.intern(frames) == self,
            !self.ids.contains_key(frames) ==> {
                let after = self.intern(frames);
                &&& self.id_of(frames) == self.next_id
                &&& after.ids == self.ids.insert(frames, self.next_id)
                &&& after.stacks == self.stacks.insert(self.next_id, frames)
                &&& self.next_id < u64::MAX ==> after.next_id == self.next_id + 1
                &&& self.next_id == u64::MAX ==> after.next_id == u64::MAX
            },
    {
    }

    /// Frames that are registered under an identifier are known under it, and
    /// the numbers that are handed out go on behind it.
    pub proof fn law_numbers_go_on_behind_registered_ones(
        self,
        stack_id: StackId,
        frames: Seq<FrameView>,
    )
        ensures
            ({
                let after = self.insert_with_id(stack_id, frames);
                &&& after.ids == self.ids.insert(frames, stack_id)
                &&& after.stacks == self.stacks.insert(stack_id, frames)
                &&& stack_id < self.next_id ==> after.next_id == self.next_id
                &&& self.next_id <= stack_id < u64::MAX ==> after.next_id == stack_id + 1
                &&& stack_id == u64::MAX ==> after.next_id == u64::MAX
            }),
    {
    }

    /// Frames keep their identifier: to intern them again gives the same
    /// identifier and changes nothing.
    pub proof fn law_interning_is_stable(self, frames: Seq<FrameView>)
        ensures
            self.intern(frames).id_of(frames) == self.id_of(frames),
            self.intern(frames).intern(frames) == self.intern(frames),
    {
    }

    /// Frames that are known keep their identifier when others are interned.
    pub proof fn law_interning_keeps_identifiers(
        self,
        known: Seq<FrameView>,
        frames: Seq<FrameView>,
    )
        requires
            self.ids.contains_key(known),
        ensures
            self.intern(frames).ids.contains_key(known),
            self.intern(frames).id_of(known) == self.id_of(known),
    {
    }

    /// An identifier resolves to the frames that were interned, and whatever
    /// resolved before still does.
    pub proof fn law_interned_frames_resolve(self, frames: Seq<FrameView>)
        requires
            self.wf(),
            self.consistent(),
            self.has_room_for(frames),
        ensures
            self.intern(frames).wf(),
            self.intern(frames).consistent(),
            self.intern(frames).stacks.contains_pair(self.id_of(frames), frames),
            self.intern(frames).keeps_stacks_of(self),
    {
        let after = self.intern(frames);
        assert forall|known: Seq<FrameView>| #[trigger]
            after.ids.contains_key(known) implies after.stacks.contains_pair(
            after.ids[known],
            known,
        ) by {
            if known != frames {
                assert(self.ids.contains_key(known));
            }
        }
    }

    /// Different frames have different identifiers.
    pub proof fn law_different_frames_have_different_identifiers(
        self,
        first: Seq<FrameView>,
        second: Seq<FrameView>,
    )
        requires
            self.wf(),
            self.consistent(),
            self.has_room_for(first),
            self.intern(first).has_room_for(second),
            first != second,
        ensures
            self.id_of(first) != self.intern(first).id_of(second),
    {
        self.law_interned_frames_resolve(first);
        let after = self.intern(first);
        assert(after.ids.contains_key(first));
    }

    /// Unknown frames get an identifier that nothing resolves from yet.
    pub proof fn law_new_identifiers_are_unused(self, frames: Seq<FrameView>)
        requires
            !self.ids.contains_key(frames),
            self.has_room_for(frames),
        ensures
            !self.stacks.contains_key(self.id_of(frames)),
    {
    }

    /// Frames that are registered under an identifier are known under it, and
    /// no identifier that is handed out later is the same.
    pub proof fn law_registered_frames_resolve(self, stack_id: StackId, frames: Seq<FrameView>)
        requires
            self.wf(),
        ensures
            self.insert_with_id(stack_id, frames).wf(),
            self.insert_with_id(stack_id, frames).id_of(frames) == stack_id,
            self.insert_with_id(stack_id, frames).stacks.contains_pair(stack_id, frames),
            stack_id < u64::MAX ==> stack_id < self.insert_with_id(stack_id, frames).next_id,
            self.next_id <= self.insert_with_id(stack_id, frames).next_id,
    {
    }

    /// To register frames under an identifier that is not in use for others
    /// leaves all else as it was.
    pub proof fn law_registering_keeps_the_rest(self, stack_id: StackId, frames: Seq<FrameView>)
        requires
            self.consistent(),
            self.stacks.contains_key(stack_id) ==> self.stacks[stack_id] == frames,
        ensures
            self.insert_with_id(stack_id, frames).consistent(),
            self.insert_with_id(stack_id, frames).keeps_stacks_of(self),
    {
        let after = self.insert_with_id(stack_id, frames);
        assert forall|known: Seq<FrameView>| #[trigger]
            after.ids.contains_key(known) implies after.stacks.contains_pair(
            after.ids[known],
            known,
        ) by {
            if known != frames {
                assert(self.ids.contains_key(known));
            }
        }
    }
}

impl CollectorView {
    /// Whether what the threads remember is what the table says.
    pub open spec fn consistent(self) -> bool {
        &&& self.table.wf()
        &&& self.table.consistent()
        &&& forall|thread: u64, frames: Seq<FrameView>|
            #![trigger self.caches[thread].contains_key(frames)]
            self.caches.contains_key(thread) && self.caches[thread].contains_key(frames)
                ==> self.table.stacks.contains_pair(self.caches[thread][frames], frames)
    }

    /// A new collector remembers nothing that is wrong.
    pub proof fn law_initial_collector(
        table: StackTableView,
        config: crate::config::TracerConfig,
    )
        requires
            table.wf(),
            table.consistent(),
        ensures
            CollectorView::initial(table, config).consistent(),
    {
    }

    /// The identifier of a stack resolves to its frames, whether the thread
    /// remembers it or the table gives it, and what the threads remember stays
    /// right.
    pub proof fn law_captured_stacks_resolve(self, frames: Seq<FrameView>)
        requires
            self.consistent(),
            self.table.has_room_for(frames),
        ensures
            self.intern(frames).consistent(),
            self.intern(frames).table.stacks.contains_pair(self.id_of(frames), frames),
            self.intern(frames).table.keeps_stacks_of(self.table),
    {
        if !self.cache().contains_key(frames) {
            self.table.law_interned_frames_resolve(frames);
            let after = self.intern(frames);
            assert forall|thread: u64, known: Seq<FrameView>|
                #![trigger after.caches[thread].contains_key(known)]
                after.caches.contains_key(thread) && after.caches[thread].contains_key(
                    known,
                ) implies after.table.stacks.contains_pair(
                after.caches[thread][known],
                known,
            ) by {
                if thread == self.thread && known == frames {
                } else if self.caches.contains_key(thread) && self.caches[thread].contains_key(
                    known,
                ) {
                    assert(self.table.stacks.contains_key(self.caches[thread][known]));
                }
            }
        } else {
            assert(self.caches[self.thread].contains_key(frames));
        }
    }

    /// To capture a stack a second time gives the same identifier and changes
    /// nothing.
    pub proof fn law_capturing_is_stable(self, frames: Seq<FrameView>)
        ensures
            self.intern(frames).id_of(frames) == self.id_of(frames),
            self.intern(frames).intern(frames) == self.intern(frames),
    {
    }

    /// A collector captures as the configuration asks for, with at least one
    /// frame in a stack, and remembers nothing at first.
    pub proof fn law_collectors_follow_the_configuration(
        table: StackTableView,
        config: crate::config::TracerConfig,
    )
        ensures
            ({
                let collector = CollectorView::initial(table, config);
                &&& collector.capture_native == config.capture_native
                &&& 0 < config.max_stack_depth ==> collector.max_depth == config.max_stack_depth
                &&& config.max_stack_depth == 0 ==> collector.max_depth == 1
                &&& collector.native_skip_frames == config.native_skip_frames
                &&& collector.python_skip_frames == config.python_skip_frames
                &&& collector.table == table
                &&& collector.caches == Map::<u64, Map<Seq<FrameView>, StackId>>::empty()
            }),
    {
    }

    /// A stack holds the Python frames after those to leave out and then, where
    /// native frames are asked for, the native frames after those to leave out,
    /// up to the depth. Where there is no frame, it holds a placeholder.
    pub proof fn law_stacks_hold_python_and_native_frames(
        self,
        python: Seq<FrameView>,
        native: Seq<FrameView>,
    )
        ensures
            ({
                let stack = self.stack_of(Some(python), native);
                let left = python.len() - self.python_skip_frames;
                let first = if left <= 0 {
                    0
                } else if left < self.max_depth {
                    left
                } else {
                    self.max_depth as int
                };
                let room = self.max_depth - first;
                let more = native.len() - self.native_skip_frames;
                let second = if !self.capture_native || more <= 0 {
                    0
                } else if more < room {
                    more
                } else {
                    room
                };
                &&& 0 < first + second ==> stack.len() == first + second
                &&& forall|i: int|
                    0 <= i < first ==> #[trigger] stack[i] == python[self.python_skip_frames + i]
                &&& forall|i: int|
                    first <= i < first + second ==> #[trigger] stack[i]
                        == native[self.native_skip_frames + i - first]
                &&& first + second == 0 ==> {
                    &&& stack.len() == 1
                    &&& stack[0].filename == "<unknown>"@
                    &&& stack[0].function == "<unknown>"@
                    &&& stack[0].lineno == 0
                }
            }),
    {
    }

    /// Native frames are asked for where they are to be captured and the Python
    /// frames that are not left out do not fill the stack.
    pub proof fn law_native_frames_fill_up(self, python: Seq<FrameView>)
        ensures
            self.wants_native(Some(python)) <==> self.capture_native && 0 < self.max_depth
                && python.len() < self.python_skip_frames + self.max_depth,
            self.wants_native(None) <==> self.capture_native && 0 < self.max_depth,
    {
    }

    /// No Python frames are as good as an empty sequence of them.
    pub proof fn law_no_python_frames(self, native: Seq<FrameView>)
        ensures
            self.stack_of(None, native) == self.stack_of(Some(Seq::empty()), native),
    {
        assert(self.python_part(None) =~= self.python_part(Some(Seq::empty())));
    }

    /// A thread remembers the identifier of each stack that it captures. Once it
    /// remembers 1024 of them it forgets them all before the next new one. What
    /// other threads remember stays as it is.
    pub proof fn law_threads_remember_stacks(self, frames: Seq<FrameView>, thread: u64)
        requires
            self.caches.contains_key(self.thread),
            thread != self.thread,
        ensures
            ({
                let before = self.caches[self.thread];
                let after = self.intern(frames);
                &&& before.contains_key(frames) ==> after == self && self.id_of(frames)
                    == before[frames]
                &&& !before.contains_key(frames) ==> {
                    &&& self.id_of(frames) == self.table.id_of(frames)
                    &&& after.table == self.table.intern(frames)
                    &&& before.dom().len() < 1024 ==> after.caches[self.thread] == before.insert(
                        frames,
                        self.table.id_of(frames),
                    )
                    &&& before.dom().len() >= 1024 ==> after.caches[self.thread] == Map::<
                        Seq<FrameView>,
                        StackId,
                    >::empty().insert(frames, self.table.id_of(frames))
                }
                &&& after.caches.contains_key(thread) == self.caches.contains_key(thread)
                &&& after.caches.contains_key(thread) ==> after.caches[thread]
                    == self.caches[thread]
                &&& after.thread == self.thread
                &&& after.max_depth == self.max_depth
                &&& after.capture_native == self.capture_native
                &&& after.python_skip_frames == self.python_skip_frames
                &&& after.native_skip_frames == self.native_skip_frames
            }),
    {
    }

    /// A thread that remembers nothing yet asks the table, and remembers the one
    /// stack afterwards.
    pub proof fn law_new_threads_remember_one_stack(self, frames: Seq<FrameView>)
        requires
            !self.caches.contains_key(self.thread),
        ensures
            self.id_of(frames) == self.table.id_of(frames),
            self.intern(frames).table == self.table.intern(frames),
            self.intern(frames).caches == self.caches.insert(
                self.thread,
                Map::<Seq<FrameView>, StackId>::empty().insert(frames, self.table.id_of(frames)),
            ),
    {
    }

    /// A stack has at least one frame, and no more than asked for.
    pub proof fn law_stacks_are_bounded(
        self,
        python: Option<Seq<FrameView>>,
        native: Seq<FrameView>,
    )
        requires
            0 < self.max_depth,
        ensures
            0 < self.stack_of(python, native).len() <= self.max_depth,
    {
    }

    /// A stack starts with its Python frames.
    pub proof fn law_python_frames_come_first(
        self,
        python: Option<Seq<FrameView>>,
        native: Seq<FrameView>,
    )
        requires
            0 < self.python_part(python).len(),
        ensures
            self.python_part(python).is_prefix_of(self.stack_of(python, native)),
    {
    }
}

} // verus!
