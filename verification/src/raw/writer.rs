//! The writer to a double buffer.

use vstd::prelude::*;

use crate::raw::reader::{ReadGuard, Reader};
use crate::raw::Shared;
use crate::strategy::hazard::{next_gen, prev_gen, Capture};

verus! {

/// The single writer handle of a double buffer.
///
/// Exactly one writer handle exists per shared state; it is minted once from
/// a freshly constructed state and identifies the writer to the strategy.
pub struct Writer {
    token: (),
}

/// The two buffers as the writer sees them, both read-only.
pub struct Split<'a, T> {
    /// The buffer the readers currently observe.
    pub reader: &'a T,
    /// The buffer the writer currently owns.
    pub writer: &'a T,
}

/// The two buffers as the writer sees them during mutation: the read side
/// shared, the write side exclusive.
pub struct SplitMut<'a, T> {
    /// The buffer the readers currently observe.
    pub reader: &'a T,
    /// The buffer the writer currently owns.
    pub writer: &'a mut T,
}

/// An in-progress buffer swap: the capture of the readers that were in the
/// pre-swap buffer and must drain before the writer may mutate it.
pub struct Swap {
    capture: Capture,
}

impl Swap {
    /// The capture the swap is waiting on.
    pub closed spec fn capture_spec(&self) -> Capture {
        self.capture
    }
}

/// A guard value is coherent with the shared state when its slot still holds
/// the generation it was stamped with, and the side it observes is the read
/// side of its generation: the current read side for a current-generation
/// guard, the pre-swap read side — today's write side — for a guard that
/// predates an in-progress swap.
pub open spec fn guard_coherent<T>(shared: Shared<T>, g: ReadGuard) -> bool {
    let strat = shared.strategy_spec();
    &&& (g.slot_spec() as int) < strat.slot_gens().len()
    &&& strat.slot_gens()[g.slot_spec() as int] == g.gen_spec()
    &&& g.gen_spec() != 0
    &&& (g.gen_spec() == strat.current_gen() ==> g.side_spec() == !shared.which_spec())
    &&& (g.gen_spec() != strat.current_gen() ==> {
        &&& g.gen_spec() == prev_gen(strat.current_gen())
        &&& !(strat.phase_spec() is Idle)
        &&& g.side_spec() == shared.which_spec()
    })
}

/// A swap token is coherent with the shared state while the capture is still
/// draining: the captured generation is the pre-swap one, and the capture
/// lists every slot that still holds it.
pub open spec fn swap_coherent<T>(shared: Shared<T>, swap: Swap) -> bool {
    let strat = shared.strategy_spec();
    let cap = swap.capture_spec();
    &&& strat.phase_spec() is Draining
    &&& cap.gen_spec() == prev_gen(strat.current_gen())
    &&& cap.members_spec().no_duplicates()
    &&& (forall|j: int| 0 <= j < cap.members_spec().len() ==> cap.members_spec()[j]
        < strat.slot_gens().len())
    &&& (forall|i: usize|
        i < strat.slot_gens().len() && strat.slot_gens()[i as int] == cap.gen_spec()
            ==> cap.members_spec().contains(i))
}

impl Writer {
    /// Mint the unique writer handle of a freshly constructed shared state.
    pub fn new<T>(shared: &mut Shared<T>) -> (r: Writer)
        requires
            old(shared).wf(),
            !old(shared).writer_claimed_spec(),
        ensures
            final(shared).wf(),
            final(shared).writer_claimed_spec(),
            final(shared).writer_live_spec(),
            final(shared).strategy_spec() == old(shared).strategy_spec(),
            final(shared).which_spec() == old(shared).which_spec(),
            forall|w: bool| final(shared).buffer_at(w) == old(shared).buffer_at(w),
    {
        shared.mark_writer_claimed();
        Writer { token: () }
    }

    /// Mint a fresh reader from the writer.
    pub fn reader<T>(&self, shared: &Shared<T>) -> (r: Reader)
        ensures
            r.tag_spec().cached_spec() is None,
    {
        Reader::from_tag(shared.strategy_ref().create_reader_tag())
    }

    /// Borrow both buffers read-only.
    pub fn split<'a, T>(&self, shared: &'a Shared<T>) -> (r: Split<'a, T>)
        ensures
            *r.writer == shared.writer_side(),
            *r.reader == shared.reader_side(),
    {
        let w = shared.load_which();
        Split { writer: shared.buffer_ref(w), reader: shared.buffer_ref(!w) }
    }

    /// Replace the write-side buffer with a new value, returning the old one.
    ///
    /// The writer may only do this while no swap is in progress: a reader
    /// that predates an unfinished swap is still observing what is now the
    /// write side. Coherent read guards therefore observe exactly the same
    /// buffer before and after the call.
    pub fn replace_writer_side<T>(&self, shared: &mut Shared<T>, value: T) -> (r: T)
        requires
            old(shared).wf(),
            old(shared).strategy_spec().phase_spec() is Idle,
        ensures
            final(shared).wf(),
            final(shared).writer_side() == value,
            final(shared).reader_side() == old(shared).reader_side(),
            r == old(shared).writer_side(),
            final(shared).strategy_spec() == old(shared).strategy_spec(),
            final(shared).which_spec() == old(shared).which_spec(),
            final(shared).writer_claimed_spec() == old(shared).writer_claimed_spec(),
            final(shared).writer_live_spec() == old(shared).writer_live_spec(),
            // no coherent guard observes the write side, so every guard keeps
            // both its coherence and the buffer it sees
            forall|g: ReadGuard| guard_coherent(*old(shared), g) ==> guard_coherent(
                *final(shared),
                g,
            ) && final(shared).buffer_at(g.side_spec()) == old(shared).buffer_at(g.side_spec()),
    {
        let w = shared.load_which();
        shared.replace_buffer(w, value)
    }

    /// Exclusively borrow the write-side buffer.
    ///
    /// As with replacing it, this is only possible while no swap is in
    /// progress, so no coherent read guard can observe the borrowed buffer.
    pub fn writer_side_mut<'a, T>(&self, shared: &'a mut Shared<T>) -> (r: &'a mut T)
        requires
            old(shared).wf(),
            old(shared).strategy_spec().phase_spec() is Idle,
        ensures
            final(shared).wf(),
            *r == old(shared).writer_side(),
            final(shared).writer_side() == *final(r),
            final(shared).reader_side() == old(shared).reader_side(),
            final(shared).strategy_spec() == old(shared).strategy_spec(),
            final(shared).which_spec() == old(shared).which_spec(),
            final(shared).writer_claimed_spec() == old(shared).writer_claimed_spec(),
            final(shared).writer_live_spec() == old(shared).writer_live_spec(),
            forall|g: ReadGuard| guard_coherent(*old(shared), g) ==> guard_coherent(
                *final(shared),
                g,
            ) && final(shared).buffer_at(g.side_spec()) == old(shared).buffer_at(g.side_spec()),
    {
        let w = shared.load_which();
        shared.buffer_mut(w)
    }

    /// Borrow the two buffers at once: the read side shared, the write side
    /// exclusive. Only possible while no swap is in progress, so no coherent
    /// read guard can observe the exclusively borrowed buffer.
    pub fn split_mut<'a, T>(&self, shared: &'a mut Shared<T>) -> (r: SplitMut<'a, T>)
        requires
            old(shared).wf(),
            old(shared).strategy_spec().phase_spec() is Idle,
        ensures
            final(shared).wf(),
            *r.reader == old(shared).reader_side(),
            *r.writer == old(shared).writer_side(),
            final(shared).writer_side() == *final(r.writer),
            final(shared).reader_side() == old(shared).reader_side(),
            final(shared).strategy_spec() == old(shared).strategy_spec(),
            final(shared).which_spec() == old(shared).which_spec(),
            final(shared).writer_claimed_spec() == old(shared).writer_claimed_spec(),
            final(shared).writer_live_spec() == old(shared).writer_live_spec(),
            forall|g: ReadGuard| guard_coherent(*old(shared), g) ==> guard_coherent(
                *final(shared),
                g,
            ) && final(shared).buffer_at(g.side_spec()) == old(shared).buffer_at(g.side_spec()),
    {
        shared.split_buffers_mut()
    }

    /// Begin a buffer swap: advance the generation, flip the flag, and
    /// capture the readers that are still in the pre-swap buffer. The
    /// returned token must be drained before the writer mutates again.
    pub fn start_buffer_swap<T>(&self, shared: &mut Shared<T>) -> (r: Swap)
        requires
            old(shared).wf(),
            old(shared).strategy_spec().phase_spec() is Idle,
        ensures
            final(shared).wf(),
            swap_coherent(*final(shared), r),
            final(shared).strategy_spec().current_gen() == next_gen(
                old(shared).strategy_spec().current_gen(),
            ),
            r.capture_spec().gen_spec() == old(shared).strategy_spec().current_gen(),
            final(shared).strategy_spec().slot_gens() == old(shared).strategy_spec().slot_gens(),
            final(shared).strategy_spec().pause_count() == old(shared).strategy_spec().pause_count(),
            final(shared).which_spec() == !old(shared).which_spec(),
            forall|w: bool| final(shared).buffer_at(w) == old(shared).buffer_at(w),
            final(shared).writer_claimed_spec() == old(shared).writer_claimed_spec(),
            final(shared).writer_live_spec() == old(shared).writer_live_spec(),
            // the capture holds exactly the slots stamped with the pre-swap
            // generation
            forall|i: usize|
                i < final(shared).strategy_spec().slot_gens().len() ==> (r.capture_spec(
                ).members_spec().contains(i) <==> final(shared).strategy_spec().slot_gens()[i as int]
                    == r.capture_spec().gen_spec()),
            // guards stay coherent across the swap
            forall|g: ReadGuard| guard_coherent(*old(shared), g) ==> guard_coherent(
                *final(shared),
                g,
            ),
    {
        let token = shared.validate();
        shared.flip_which();
        let capture = shared.capture(token);
        proof {
            crate::strategy::hazard::lemma_gen_roundtrip(old(shared).strategy_spec().current_gen());
            assert forall|i: usize| i < shared.strategy_spec().slot_gens().len() implies (
                capture.members_spec().contains(i) <==> shared.strategy_spec().slot_gens()[i as int]
                    == capture.gen_spec()) by {
                if capture.members_spec().contains(i) {
                    let j = choose|j: int|
                        0 <= j < capture.members_spec().len() && capture.members_spec()[j] == i;
                    assert(shared.strategy_spec().slot_gens()[i as int] == capture.gen_spec());
                }
            }
            assert forall|g: ReadGuard| guard_coherent(*old(shared), g) implies guard_coherent(
                *shared,
                g,
            ) by {
                let strat0 = old(shared).strategy_spec();
                assert(strat0.slot_gens()[g.slot_spec() as int] == g.gen_spec());
                assert(g.gen_spec() == strat0.current_gen());
            }
        }
        Swap { capture }
    }

    /// Probe whether every captured reader has drained; drained slots leave
    /// the capture. Once this returns true the swap is over.
    pub fn is_swap_finished<T>(&self, shared: &mut Shared<T>, swap: &mut Swap) -> (r: bool)
        requires
            old(shared).wf(),
            swap_coherent(*old(shared), *old(swap)),
        ensures
            final(shared).wf(),
            final(shared).strategy_spec().current_gen() == old(shared).strategy_spec().current_gen(),
            final(shared).strategy_spec().slot_gens() == old(shared).strategy_spec().slot_gens(),
            final(shared).strategy_spec().pause_count() == old(shared).strategy_spec().pause_count(),
            final(shared).which_spec() == old(shared).which_spec(),
            forall|w: bool| final(shared).buffer_at(w) == old(shared).buffer_at(w),
            final(shared).writer_claimed_spec() == old(shared).writer_claimed_spec(),
            final(shared).writer_live_spec() == old(shared).writer_live_spec(),
            final(swap).capture_spec().gen_spec() == old(swap).capture_spec().gen_spec(),
            forall|m: usize|
                final(swap).capture_spec().members_spec().contains(m) <==> (old(swap).capture_spec().members_spec().contains(m) && final(shared).strategy_spec().slot_gens()[m as int] == final(swap).capture_spec().gen_spec()),
            r == (final(swap).capture_spec().members_spec().len() == 0),
            !r ==> swap_coherent(*final(shared), *final(swap)),
            !r ==> final(shared).strategy_spec().phase_spec() is Draining,
            // success means no pre-swap reader is left in the buffer
            r ==> final(shared).strategy_spec().phase_spec() is Idle,
            r ==> forall|i: usize|
                i < final(shared).strategy_spec().slot_gens().len() ==> final(shared).strategy_spec().slot_gens()[i as int] != old(swap).capture_spec().gen_spec(),
            forall|g: ReadGuard| guard_coherent(*old(shared), g) ==> guard_coherent(
                *final(shared),
                g,
            ),
    {
        shared.probe_capture(&mut swap.capture)
    }

    /// Finish a swap whose captured readers have all left: one probe
    /// confirms the drain, without any pause.
    pub fn finish_swap<T>(&self, shared: &mut Shared<T>, swap: Swap)
        requires
            old(shared).wf(),
            swap_coherent(*old(shared), swap),
            forall|j: int| 0 <= j < swap.capture_spec().members_spec().len() ==> old(shared).strategy_spec().slot_gens()[swap.capture_spec().members_spec()[j] as int]
                != swap.capture_spec().gen_spec(),
        ensures
            final(shared).wf(),
            final(shared).strategy_spec().phase_spec() is Idle,
            final(shared).strategy_spec().current_gen() == old(shared).strategy_spec().current_gen(),
            final(shared).strategy_spec().slot_gens() == old(shared).strategy_spec().slot_gens(),
            final(shared).strategy_spec().pause_count() == old(shared).strategy_spec().pause_count(),
            final(shared).which_spec() == old(shared).which_spec(),
            forall|w: bool| final(shared).buffer_at(w) == old(shared).buffer_at(w),
            final(shared).writer_claimed_spec() == old(shared).writer_claimed_spec(),
            final(shared).writer_live_spec() == old(shared).writer_live_spec(),
            forall|i: usize|
                i < final(shared).strategy_spec().slot_gens().len() ==> final(shared).strategy_spec().slot_gens()[i as int] != swap.capture_spec().gen_spec(),
            forall|g: ReadGuard| guard_coherent(*old(shared), g) ==> guard_coherent(
                *final(shared),
                g,
            ),
    {
        let ghost pre = swap;
        let mut swap = swap;
        let done = self.is_swap_finished(shared, &mut swap);
        proof {
            if !done {
                let m = swap.capture_spec().members_spec()[0];
                assert(swap.capture_spec().members_spec().contains(m));
                assert(pre.capture_spec().members_spec().contains(m));
                let j = choose|j: int|
                    0 <= j < pre.capture_spec().members_spec().len()
                        && pre.capture_spec().members_spec()[j] == m;
                assert(false);
            }
        }
    }

    /// Swap the two buffers in one call. With no active readers the capture
    /// is empty, so the swap completes at once and the writer never pauses.
    pub fn swap_buffers<T>(&self, shared: &mut Shared<T>)
        requires
            old(shared).wf(),
            old(shared).strategy_spec().phase_spec() is Idle,
            forall|i: usize|
                i < old(shared).strategy_spec().slot_gens().len() ==> old(shared).strategy_spec().slot_gens()[i as int] == 0,
        ensures
            final(shared).wf(),
            final(shared).strategy_spec().phase_spec() is Idle,
            final(shared).strategy_spec().current_gen() == next_gen(
                old(shared).strategy_spec().current_gen(),
            ),
            final(shared).strategy_spec().slot_gens() == old(shared).strategy_spec().slot_gens(),
            final(shared).which_spec() == !old(shared).which_spec(),
            forall|w: bool| final(shared).buffer_at(w) == old(shared).buffer_at(w),
            final(shared).writer_claimed_spec() == old(shared).writer_claimed_spec(),
            final(shared).writer_live_spec() == old(shared).writer_live_spec(),
            // with no active readers the writer never pauses
            final(shared).strategy_spec().pause_count() == old(shared).strategy_spec().pause_count(),
    {
        let swap = self.start_buffer_swap(shared);
        proof {
            old(shared).strategy_spec().lemma_gen_odd();
            assert forall|j: int|
                0 <= j < swap.capture_spec().members_spec().len() implies shared.strategy_spec(
            ).slot_gens()[swap.capture_spec().members_spec()[j] as int]
                != swap.capture_spec().gen_spec() by {
                let m = swap.capture_spec().members_spec()[j];
                assert(m < shared.strategy_spec().slot_gens().len());
                assert(shared.strategy_spec().slot_gens()[m as int] == 0);
            }
        }
        self.finish_swap(shared, swap);
    }

    /// Give the writer handle up: readers can no longer begin new reads, as
    /// they would observe through a failed weak-reference upgrade.
    pub fn release<T>(self, shared: &mut Shared<T>)
        requires
            old(shared).wf(),
        ensures
            final(shared).wf(),
            !final(shared).writer_live_spec(),
            final(shared).writer_claimed_spec() == old(shared).writer_claimed_spec(),
            final(shared).strategy_spec() == old(shared).strategy_spec(),
            final(shared).which_spec() == old(shared).which_spec(),
            forall|w: bool| final(shared).buffer_at(w) == old(shared).buffer_at(w),
    {
        shared.mark_writer_dead();
    }
}

} // verus!
