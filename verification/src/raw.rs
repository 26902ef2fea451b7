//! The raw building blocks of a double buffer: the buffer pair and the shared
//! state that one writer and many readers coordinate through.

use vstd::prelude::*;

use crate::flag::Flag;
use crate::strategy::hazard::HazardStrategy;

pub mod reader;
pub mod writer;

verus! {

/// A pair of buffers of the same type at two fixed slots.
///
/// Given the flag value `w`, the slot indexed by `w` is the write side and
/// the other slot is the read side.
pub struct SizedRawDoubleBuffer<T> {
    slot0: T,
    slot1: T,
}

impl<T> SizedRawDoubleBuffer<T> {
    /// The buffer stored in the slot selected by `w`.
    pub closed spec fn spec_at(&self, w: bool) -> T {
        if w {
            self.slot1
        } else {
            self.slot0
        }
    }

    /// Create a pair from the two initial buffers.
    pub fn new(front: T, back: T) -> (r: Self)
        ensures
            r.spec_at(false) == front,
            r.spec_at(true) == back,
    {
        SizedRawDoubleBuffer { slot0: front, slot1: back }
    }

    /// Borrow the buffer in the slot selected by `w`.
    pub fn at(&self, w: bool) -> (r: &T)
        ensures
            *r == self.spec_at(w),
    {
        if w {
            &self.slot1
        } else {
            &self.slot0
        }
    }

    /// Exclusively borrow the slot selected by `w` and share the other one.
    pub(crate) fn halves_mut(&mut self, w: bool) -> (r: crate::raw::writer::SplitMut<T>)
        ensures
            *r.writer == old(self).spec_at(w),
            *r.reader == old(self).spec_at(!w),
            final(self).spec_at(w) == *final(r.writer),
            final(self).spec_at(!w) == old(self).spec_at(!w),
    {
        if w {
            crate::raw::writer::SplitMut { writer: &mut self.slot1, reader: &self.slot0 }
        } else {
            crate::raw::writer::SplitMut { writer: &mut self.slot0, reader: &self.slot1 }
        }
    }

    /// Replace the buffer in the slot selected by `w`, returning the old one.
    pub fn replace_at(&mut self, w: bool, value: T) -> (r: T)
        ensures
            final(self).spec_at(w) == value,
            final(self).spec_at(!w) == old(self).spec_at(!w),
            r == old(self).spec_at(w),
    {
        let mut value = value;
        if w {
            core::mem::swap(&mut self.slot1, &mut value);
        } else {
            core::mem::swap(&mut self.slot0, &mut value);
        }
        value
    }
}

/// A pair of equally long buffer halves stored in one flat vector: the half
/// selected by the flag value `w` is the write side.
pub struct SliceRawDoubleBuffer<T> {
    data: Vec<T>,
}

impl<T> SliceRawDoubleBuffer<T> {
    /// All elements, both halves in a row.
    pub closed spec fn data_spec(&self) -> Seq<T> {
        self.data@
    }

    /// The half selected by `w`.
    pub open spec fn half_spec(&self, w: bool) -> Seq<T> {
        let half = self.data_spec().len() as int / 2;
        if w {
            self.data_spec().skip(half)
        } else {
            self.data_spec().take(half)
        }
    }

    /// The invariant: the two halves split the data evenly.
    pub open spec fn wf(&self) -> bool {
        self.data_spec().len() % 2 == 0
    }

    /// Create the pair from one flat array holding both halves; its length
    /// must be even.
    pub fn from_array<const N: usize>(array: [T; N]) -> (r: Self) where T: Copy
        requires
            N % 2 == 0,
        ensures
            r.wf(),
            r.data_spec() == array@,
    {
        let slice = array.as_slice();
        let mut data: Vec<T> = Vec::new();
        let n = slice.len();
        let mut i: usize = 0;
        while i < n
            invariant
                n == array@.len(),
                slice@ == array@,
                i <= n,
                data@ =~= array@.take(i as int),
            decreases n - i,
        {
            data.push(*vstd::slice::slice_index_get(slice, i));
            proof {
                assert(data@ =~= array@.take(i as int + 1));
            }
            i = i + 1;
        }
        proof {
            assert(data@ =~= array@);
        }
        SliceRawDoubleBuffer { data }
    }

    /// Borrow the element at `i` of the half selected by `w`.
    pub fn at(&self, w: bool, i: usize) -> (r: &T)
        requires
            self.wf(),
            i < self.half_spec(w).len(),
        ensures
            *r == self.half_spec(w)[i as int],
    {
        let half = self.data.len() / 2;
        if w {
            &self.data[half + i]
        } else {
            &self.data[i]
        }
    }
}

/// The shared state of one double buffer: the synchronization strategy, the
/// flag that selects the write side, and the buffer pair.
///
/// The state is a value owned by its user; the writer and the readers are
/// handles presented to it. Whether a writer handle currently exists is
/// recorded so that readers can observe a dropped writer, as they would
/// through a failed weak-reference upgrade.
pub struct Shared<T> {
    strategy: HazardStrategy,
    which: Flag,
    buffers: SizedRawDoubleBuffer<T>,
    writer_claimed: bool,
    writer_live: bool,
}

impl<T> Shared<T> {
    /// The strategy's state.
    pub closed spec fn strategy_spec(&self) -> HazardStrategy {
        self.strategy
    }

    /// The flag value: which slot is the write side.
    pub closed spec fn which_spec(&self) -> bool {
        self.which@
    }

    /// The buffer in the slot selected by `w`.
    pub closed spec fn buffer_at(&self, w: bool) -> T {
        self.buffers.spec_at(w)
    }

    /// The buffer the writer currently mutates.
    pub open spec fn writer_side(&self) -> T {
        self.buffer_at(self.which_spec())
    }

    /// The buffer the readers currently observe.
    pub open spec fn reader_side(&self) -> T {
        self.buffer_at(!self.which_spec())
    }

    /// Whether a writer handle has ever been created.
    pub closed spec fn writer_claimed_spec(&self) -> bool {
        self.writer_claimed
    }

    /// Whether the writer handle still exists.
    pub closed spec fn writer_live_spec(&self) -> bool {
        self.writer_live
    }

    /// The shared state's invariant: the strategy's own invariant.
    pub open spec fn wf(&self) -> bool {
        self.strategy_spec().wf()
    }

    /// Create the shared state from a strategy and two initial buffers.
    pub fn new(strategy: HazardStrategy, buffers: SizedRawDoubleBuffer<T>) -> (r: Self)
        requires
            strategy.wf(),
        ensures
            r.wf(),
            r.strategy_spec() == strategy,
            r.which_spec() == false,
            r.buffer_at(false) == buffers.spec_at(false),
            r.buffer_at(true) == buffers.spec_at(true),
            !r.writer_claimed_spec(),
            !r.writer_live_spec(),
    {
        Shared { strategy, which: Flag::new(), buffers, writer_claimed: false, writer_live: false }
    }

    /// Create the shared state from a strategy and two initial buffers.
    pub fn from_raw_parts(strategy: HazardStrategy, buffers: SizedRawDoubleBuffer<T>) -> (r: Self)
        requires
            strategy.wf(),
        ensures
            r.wf(),
            r.strategy_spec() == strategy,
            r.which_spec() == false,
            r.buffer_at(false) == buffers.spec_at(false),
            r.buffer_at(true) == buffers.spec_at(true),
            !r.writer_claimed_spec(),
            !r.writer_live_spec(),
    {
        Self::new(strategy, buffers)
    }

    /// How many reader slots the strategy has ever allocated.
    pub fn reader_slot_count(&self) -> (r: usize)
        ensures
            r == self.strategy_spec().slot_gens().len(),
    {
        self.strategy.slot_count()
    }

    /// Record that the writer handle was minted.
    pub(crate) fn mark_writer_claimed(&mut self)
        ensures
            final(self).writer_claimed_spec(),
            final(self).writer_live_spec(),
            final(self).strategy_spec() == old(self).strategy_spec(),
            final(self).which_spec() == old(self).which_spec(),
            forall|w: bool| final(self).buffer_at(w) == old(self).buffer_at(w),
    {
        self.writer_claimed = true;
        self.writer_live = true;
    }

    /// Record that the writer handle was given up.
    pub(crate) fn mark_writer_dead(&mut self)
        ensures
            !final(self).writer_live_spec(),
            final(self).writer_claimed_spec() == old(self).writer_claimed_spec(),
            final(self).strategy_spec() == old(self).strategy_spec(),
            final(self).which_spec() == old(self).which_spec(),
            forall|w: bool| final(self).buffer_at(w) == old(self).buffer_at(w),
    {
        self.writer_live = false;
    }

    /// Whether the writer handle still exists.
    pub fn is_writer_live(&self) -> (r: bool)
        ensures
            r == self.writer_live_spec(),
    {
        self.writer_live
    }

    /// Borrow the strategy.
    pub(crate) fn strategy_ref(&self) -> (r: &HazardStrategy)
        ensures
            *r == self.strategy_spec(),
    {
        &self.strategy
    }

    /// Load the flag.
    pub(crate) fn load_which(&self) -> (r: bool)
        ensures
            r == self.which_spec(),
    {
        self.which.load()
    }

    /// Flip the flag.
    pub(crate) fn flip_which(&mut self)
        ensures
            final(self).which_spec() == !old(self).which_spec(),
            final(self).strategy_spec() == old(self).strategy_spec(),
            forall|w: bool| final(self).buffer_at(w) == old(self).buffer_at(w),
            final(self).writer_claimed_spec() == old(self).writer_claimed_spec(),
            final(self).writer_live_spec() == old(self).writer_live_spec(),
    {
        self.which.flip();
    }

    /// Borrow the buffer in the slot selected by `w`.
    pub(crate) fn buffer_ref(&self, w: bool) -> (r: &T)
        ensures
            *r == self.buffer_at(w),
    {
        self.buffers.at(w)
    }

    /// Replace the buffer in the slot selected by `w`, returning the old one.
    pub(crate) fn replace_buffer(&mut self, w: bool, value: T) -> (r: T)
        ensures
            final(self).buffer_at(w) == value,
            final(self).buffer_at(!w) == old(self).buffer_at(!w),
            r == old(self).buffer_at(w),
            final(self).strategy_spec() == old(self).strategy_spec(),
            final(self).which_spec() == old(self).which_spec(),
            final(self).writer_claimed_spec() == old(self).writer_claimed_spec(),
            final(self).writer_live_spec() == old(self).writer_live_spec(),
    {
        self.buffers.replace_at(w, value)
    }

    /// Exclusively borrow the buffer in the slot selected by `w`.
    pub(crate) fn buffer_mut(&mut self, w: bool) -> (r: &mut T)
        ensures
            *r == old(self).buffer_at(w),
            final(self).buffer_at(w) == *final(r),
            final(self).buffer_at(!w) == old(self).buffer_at(!w),
            final(self).strategy_spec() == old(self).strategy_spec(),
            final(self).which_spec() == old(self).which_spec(),
            final(self).writer_claimed_spec() == old(self).writer_claimed_spec(),
            final(self).writer_live_spec() == old(self).writer_live_spec(),
    {
        if w {
            &mut self.buffers.slot1
        } else {
            &mut self.buffers.slot0
        }
    }

    /// Exclusively borrow the write-side buffer and share the read-side one.
    pub(crate) fn split_buffers_mut(&mut self) -> (r: crate::raw::writer::SplitMut<T>)
        ensures
            *r.reader == old(self).reader_side(),
            *r.writer == old(self).writer_side(),
            final(self).writer_side() == *final(r.writer),
            final(self).reader_side() == old(self).reader_side(),
            final(self).strategy_spec() == old(self).strategy_spec(),
            final(self).which_spec() == old(self).which_spec(),
            final(self).writer_claimed_spec() == old(self).writer_claimed_spec(),
            final(self).writer_live_spec() == old(self).writer_live_spec(),
    {
        let w = self.which.load();
        self.buffers.halves_mut(w)
    }

    /// Run the strategy's swap validation.
    pub(crate) fn validate(&mut self) -> (t: crate::strategy::hazard::ValidationToken)
        requires
            old(self).wf(),
            old(self).strategy_spec().phase_spec() is Idle,
        ensures
            final(self).wf(),
            final(self).strategy_spec().phase_spec() is Validated,
            final(self).strategy_spec().current_gen() == crate::strategy::hazard::next_gen(
                old(self).strategy_spec().current_gen(),
            ),
            t.gen_spec() == old(self).strategy_spec().current_gen(),
            t.gen_spec() == crate::strategy::hazard::prev_gen(
                final(self).strategy_spec().current_gen(),
            ),
            final(self).strategy_spec().slot_gens() == old(self).strategy_spec().slot_gens(),
            final(self).strategy_spec().pause_count() == old(self).strategy_spec().pause_count(),
            final(self).which_spec() == old(self).which_spec(),
            forall|w: bool| final(self).buffer_at(w) == old(self).buffer_at(w),
            final(self).writer_claimed_spec() == old(self).writer_claimed_spec(),
            final(self).writer_live_spec() == old(self).writer_live_spec(),
    {
        self.strategy.validate_swap()
    }

    /// Run the strategy's reader capture.
    pub(crate) fn capture(&mut self, token: crate::strategy::hazard::ValidationToken) -> (c:
        crate::strategy::hazard::Capture)
        requires
            old(self).wf(),
            old(self).strategy_spec().phase_spec() is Validated,
            token.gen_spec() == crate::strategy::hazard::prev_gen(
                old(self).strategy_spec().current_gen(),
            ),
        ensures
            final(self).wf(),
            final(self).strategy_spec().phase_spec() is Draining,
            final(self).strategy_spec().current_gen() == old(self).strategy_spec().current_gen(),
            final(self).strategy_spec().slot_gens() == old(self).strategy_spec().slot_gens(),
            final(self).strategy_spec().pause_count() == old(self).strategy_spec().pause_count(),
            final(self).which_spec() == old(self).which_spec(),
            forall|w: bool| final(self).buffer_at(w) == old(self).buffer_at(w),
            final(self).writer_claimed_spec() == old(self).writer_claimed_spec(),
            final(self).writer_live_spec() == old(self).writer_live_spec(),
            c.gen_spec() == token.gen_spec(),
            c.members_spec().no_duplicates(),
            forall|j: int| 0 <= j < c.members_spec().len() ==> {
                &&& c.members_spec()[j] < final(self).strategy_spec().slot_gens().len()
                &&& final(self).strategy_spec().slot_gens()[c.members_spec()[j] as int]
                    == c.gen_spec()
            },
            forall|i: usize|
                i < final(self).strategy_spec().slot_gens().len() && final(self).strategy_spec().slot_gens()[i as int] == c.gen_spec() ==> c.members_spec().contains(
                    i,
                ),
    {
        self.strategy.capture_readers(token)
    }

    /// Run the strategy's drain probe.
    pub(crate) fn probe_capture(&mut self, capture: &mut crate::strategy::hazard::Capture) -> (r:
        bool)
        requires
            old(self).wf(),
            old(self).strategy_spec().phase_spec() is Draining,
            old(capture).gen_spec() == crate::strategy::hazard::prev_gen(
                old(self).strategy_spec().current_gen(),
            ),
            old(capture).members_spec().no_duplicates(),
            forall|j: int| 0 <= j < old(capture).members_spec().len() ==> old(capture).members_spec()[j] < old(self).strategy_spec().slot_gens().len(),
            forall|i: usize|
                i < old(self).strategy_spec().slot_gens().len() && old(self).strategy_spec().slot_gens()[i as int] == old(capture).gen_spec() ==> old(capture).members_spec().contains(i),
        ensures
            final(self).wf(),
            final(self).strategy_spec().current_gen() == old(self).strategy_spec().current_gen(),
            final(self).strategy_spec().slot_gens() == old(self).strategy_spec().slot_gens(),
            final(self).strategy_spec().pause_count() == old(self).strategy_spec().pause_count(),
            final(self).which_spec() == old(self).which_spec(),
            forall|w: bool| final(self).buffer_at(w) == old(self).buffer_at(w),
            final(self).writer_claimed_spec() == old(self).writer_claimed_spec(),
            final(self).writer_live_spec() == old(self).writer_live_spec(),
            final(capture).gen_spec() == old(capture).gen_spec(),
            final(capture).members_spec().no_duplicates(),
            forall|m: usize|
                final(capture).members_spec().contains(m) <==> (old(capture).members_spec().contains(m) && final(self).strategy_spec().slot_gens()[m as int]
                    == final(capture).gen_spec()),
            forall|j: int| 0 <= j < final(capture).members_spec().len() ==> final(capture).members_spec()[j] < final(self).strategy_spec().slot_gens().len(),
            r == (final(capture).members_spec().len() == 0),
            r ==> final(self).strategy_spec().phase_spec() is Idle,
            r ==> forall|i: usize|
                i < final(self).strategy_spec().slot_gens().len() ==> final(self).strategy_spec().slot_gens()[i as int] != final(capture).gen_spec(),
            !r ==> final(self).strategy_spec().phase_spec() is Draining,
    {
        self.strategy.have_readers_exited(capture)
    }

    /// Run the strategy's read-guard entry.
    pub(crate) fn begin_guard(
        &mut self,
        tag: &mut crate::strategy::hazard::ReaderTag,
    ) -> (g: crate::strategy::hazard::ReaderGuard)
        requires
            old(self).wf(),
        ensures
            final(self).wf(),
            final(self).strategy_spec().current_gen() == old(self).strategy_spec().current_gen(),
            final(self).strategy_spec().phase_spec() == old(self).strategy_spec().phase_spec(),
            final(self).strategy_spec().pause_count() == old(self).strategy_spec().pause_count(),
            final(self).which_spec() == old(self).which_spec(),
            forall|w: bool| final(self).buffer_at(w) == old(self).buffer_at(w),
            final(self).writer_claimed_spec() == old(self).writer_claimed_spec(),
            final(self).writer_live_spec() == old(self).writer_live_spec(),
            g.gen_spec() == old(self).strategy_spec().current_gen(),
            g.slot_spec() < final(self).strategy_spec().slot_gens().len(),
            g.slot_spec() <= old(self).strategy_spec().slot_gens().len(),
            g.slot_spec() < old(self).strategy_spec().slot_gens().len() ==> {
                &&& old(self).strategy_spec().slot_gens()[g.slot_spec() as int] == 0
                &&& final(self).strategy_spec().slot_gens() =~= old(self).strategy_spec().slot_gens().update(
                    g.slot_spec() as int,
                    old(self).strategy_spec().current_gen(),
                )
            },
            g.slot_spec() == old(self).strategy_spec().slot_gens().len() ==> final(self).strategy_spec().slot_gens() =~= old(self).strategy_spec().slot_gens().push(
                old(self).strategy_spec().current_gen(),
            ),
            (match old(tag).cached_spec() {
                Some(c) => c < old(self).strategy_spec().slot_gens().len() && old(self).strategy_spec().slot_gens()[c as int] == 0,
                None => false,
            }) ==> g.slot_spec() == old(tag).cached_spec().unwrap(),
            final(tag).cached_spec() == Some(g.slot_spec()),
    {
        self.strategy.begin_read_guard(tag)
    }

    /// Run the strategy's read-guard release.
    pub(crate) fn end_guard(
        &mut self,
        tag: &mut crate::strategy::hazard::ReaderTag,
        guard: crate::strategy::hazard::ReaderGuard,
    )
        requires
            old(self).wf(),
            guard.slot_spec() < old(self).strategy_spec().slot_gens().len(),
        ensures
            final(self).wf(),
            final(self).strategy_spec().current_gen() == old(self).strategy_spec().current_gen(),
            final(self).strategy_spec().phase_spec() == old(self).strategy_spec().phase_spec(),
            final(self).strategy_spec().pause_count() == old(self).strategy_spec().pause_count(),
            final(self).which_spec() == old(self).which_spec(),
            forall|w: bool| final(self).buffer_at(w) == old(self).buffer_at(w),
            final(self).writer_claimed_spec() == old(self).writer_claimed_spec(),
            final(self).writer_live_spec() == old(self).writer_live_spec(),
            final(self).strategy_spec().slot_gens() =~= old(self).strategy_spec().slot_gens().update(
                guard.slot_spec() as int,
                0u32,
            ),
    {
        self.strategy.end_read_guard(tag, guard);
    }
}

} // verus!
