//! A writer that may start a swap, do other work, and finish the swap later.
//!
//! While a swap is outstanding the delayed writer exposes no mutation: the
//! readers captured at the swap may still be observing what is now the write
//! side.

use vstd::prelude::*;

use crate::raw::writer::{swap_coherent, Swap, Writer};
use crate::raw::Shared;
use crate::strategy::hazard::next_gen;

verus! {

/// A writer together with an optional in-progress swap.
pub struct DelayedWriter {
    writer: Writer,
    swap: Option<Swap>,
}

impl DelayedWriter {
    /// The in-progress swap, if one is outstanding.
    pub closed spec fn swap_spec(&self) -> Option<Swap> {
        self.swap
    }

    /// The delayed writer agrees with the shared state: either no swap is
    /// outstanding and none is under way, or the held swap token is the one
    /// draining.
    pub open spec fn coherent<T>(&self, shared: Shared<T>) -> bool {
        match self.swap_spec() {
            None => shared.strategy_spec().phase_spec() is Idle,
            Some(swap) => swap_coherent(shared, swap),
        }
    }

    /// Wrap a writer; no swap is outstanding.
    pub fn new(writer: Writer) -> (r: DelayedWriter)
        ensures
            r.swap_spec() is None,
    {
        DelayedWriter { writer, swap: None }
    }

    /// Borrow the inner writer for read-only use.
    pub fn writer_ref(&self) -> &Writer {
        &self.writer
    }

    /// Begin a swap unless one is already outstanding.
    pub fn start_buffer_swap<T>(&mut self, shared: &mut Shared<T>)
        requires
            old(shared).wf(),
            old(self).coherent(*old(shared)),
        ensures
            final(shared).wf(),
            final(self).coherent(*final(shared)),
            final(self).swap_spec() is Some,
            forall|w: bool| final(shared).buffer_at(w) == old(shared).buffer_at(w),
            final(shared).strategy_spec().slot_gens() == old(shared).strategy_spec().slot_gens(),
            final(shared).strategy_spec().pause_count() == old(shared).strategy_spec().pause_count(),
            final(shared).writer_claimed_spec() == old(shared).writer_claimed_spec(),
            final(shared).writer_live_spec() == old(shared).writer_live_spec(),
            old(self).swap_spec() is Some ==> *final(self) == *old(self) && *final(shared) == *old(shared),
            old(self).swap_spec() is None ==> {
                &&& final(shared).which_spec() == !old(shared).which_spec()
                &&& final(shared).strategy_spec().current_gen() == next_gen(
                    old(shared).strategy_spec().current_gen(),
                )
                &&& final(self).swap_spec()->Some_0.capture_spec().gen_spec() == old(shared).strategy_spec().current_gen()
                &&& forall|i: usize|
                    i < final(shared).strategy_spec().slot_gens().len() ==> (final(self).swap_spec()->Some_0.capture_spec().members_spec().contains(i) <==> final(shared).strategy_spec().slot_gens()[i as int] == old(shared).strategy_spec().current_gen())
            },
            forall|g: crate::raw::reader::ReadGuard|
                crate::raw::writer::guard_coherent(*old(shared), g)
                    ==> crate::raw::writer::guard_coherent(*final(shared), g),
    {
        if self.swap.is_none() {
            let swap = self.writer.start_buffer_swap(shared);
            self.swap = Some(swap);
        }
    }

    /// Probe whether the outstanding swap, if any, has finished; once it has,
    /// the token is dropped and later probes keep answering yes.
    pub fn is_swap_finished<T>(&mut self, shared: &mut Shared<T>) -> (r: bool)
        requires
            old(shared).wf(),
            old(self).coherent(*old(shared)),
        ensures
            final(shared).wf(),
            final(self).coherent(*final(shared)),
            r == (final(self).swap_spec() is None),
            r ==> final(shared).strategy_spec().phase_spec() is Idle,
            old(self).swap_spec() is None ==> r && *final(shared) == *old(shared),
            (old(self).swap_spec() matches Some(swap)
                && swap.capture_spec().members_spec().len() == 0) ==> r,
            // progress: once every captured slot has let the captured
            // generation go, the probe reports success
            (old(self).swap_spec() matches Some(swap) && forall|j: int|
                0 <= j < swap.capture_spec().members_spec().len()
                    ==> old(shared).strategy_spec().slot_gens()[swap.capture_spec().members_spec()[j] as int]
                        != swap.capture_spec().gen_spec()) ==> r,
            // a failed probe keeps exactly the captured readers whose slot
            // still holds the captured generation
            !r ==> final(self).swap_spec() is Some && old(self).swap_spec() is Some
                && final(self).swap_spec()->Some_0.capture_spec().gen_spec() == old(self).swap_spec()->Some_0.capture_spec().gen_spec()
                && (forall|m: usize|
                    final(self).swap_spec()->Some_0.capture_spec().members_spec().contains(m)
                        <==> (old(self).swap_spec()->Some_0.capture_spec().members_spec().contains(
                        m,
                    ) && final(shared).strategy_spec().slot_gens()[m as int]
                        == old(self).swap_spec()->Some_0.capture_spec().gen_spec())),
            final(shared).strategy_spec().current_gen() == old(shared).strategy_spec().current_gen(),
            final(shared).strategy_spec().slot_gens() == old(shared).strategy_spec().slot_gens(),
            final(shared).strategy_spec().pause_count() == old(shared).strategy_spec().pause_count(),
            final(shared).which_spec() == old(shared).which_spec(),
            forall|w: bool| final(shared).buffer_at(w) == old(shared).buffer_at(w),
            final(shared).writer_claimed_spec() == old(shared).writer_claimed_spec(),
            final(shared).writer_live_spec() == old(shared).writer_live_spec(),
            forall|g: crate::raw::reader::ReadGuard|
                crate::raw::writer::guard_coherent(*old(shared), g)
                    ==> crate::raw::writer::guard_coherent(*final(shared), g),
    {
        let mut swap: Option<Swap> = None;
        core::mem::swap(&mut self.swap, &mut swap);
        match swap {
            None => true,
            Some(mut swap) => {
                let ghost pre = swap;
                if self.writer.is_swap_finished(shared, &mut swap) {
                    true
                } else {
                    proof {
                        let m = swap.capture_spec().members_spec()[0];
                        assert(swap.capture_spec().members_spec().contains(m));
                        assert(pre.capture_spec().members_spec().contains(m));
                        assert(shared.strategy_spec().slot_gens()[m as int]
                            == pre.capture_spec().gen_spec());
                        let j = choose|j: int|
                            0 <= j < pre.capture_spec().members_spec().len()
                                && pre.capture_spec().members_spec()[j] == m;
                        assert(pre.capture_spec().members_spec().len() > 0);
                    }
                    self.swap = Some(swap);
                    false
                }
            },
        }
    }

    /// Borrow the inner writer for exclusive use, but only once no swap is
    /// outstanding: the probe runs first, and the writer comes out exactly
    /// when it reports the swap finished. While a swap is still draining,
    /// nothing is handed out.
    pub fn try_writer_mut<T>(&mut self, shared: &mut Shared<T>) -> (r: Option<&mut Writer>)
        requires
            old(shared).wf(),
            old(self).coherent(*old(shared)),
        ensures
            final(shared).wf(),
            final(self).coherent(*final(shared)),
            r is Some <==> final(self).swap_spec() is None,
            r is Some ==> final(shared).strategy_spec().phase_spec() is Idle,
            old(self).swap_spec() is None ==> r is Some && *final(shared) == *old(shared),
            // progress: once every captured slot has let the captured
            // generation go, the writer is handed out
            (old(self).swap_spec() matches Some(swap) && forall|j: int|
                0 <= j < swap.capture_spec().members_spec().len()
                    ==> old(shared).strategy_spec().slot_gens()[swap.capture_spec().members_spec()[j] as int]
                        != swap.capture_spec().gen_spec()) ==> r is Some,
            final(shared).strategy_spec().current_gen() == old(shared).strategy_spec().current_gen(),
            final(shared).strategy_spec().slot_gens() == old(shared).strategy_spec().slot_gens(),
            final(shared).strategy_spec().pause_count() == old(shared).strategy_spec().pause_count(),
            final(shared).which_spec() == old(shared).which_spec(),
            forall|w: bool| final(shared).buffer_at(w) == old(shared).buffer_at(w),
            final(shared).writer_claimed_spec() == old(shared).writer_claimed_spec(),
            final(shared).writer_live_spec() == old(shared).writer_live_spec(),
            forall|g: crate::raw::reader::ReadGuard|
                crate::raw::writer::guard_coherent(*old(shared), g)
                    ==> crate::raw::writer::guard_coherent(*final(shared), g),
    {
        if self.is_swap_finished(shared) {
            Some(&mut self.writer)
        } else {
            None
        }
    }

    /// Finish the outstanding swap, whose captured readers must all have
    /// left by now.
    pub fn finish_swap<T>(&mut self, shared: &mut Shared<T>)
        requires
            old(shared).wf(),
            old(self).coherent(*old(shared)),
            old(self).swap_spec() matches Some(swap) ==> forall|j: int|
                0 <= j < swap.capture_spec().members_spec().len() ==> old(shared).strategy_spec().slot_gens()[swap.capture_spec().members_spec()[j] as int]
                    != swap.capture_spec().gen_spec(),
        ensures
            final(shared).wf(),
            final(self).coherent(*final(shared)),
            final(self).swap_spec() is None,
            final(shared).strategy_spec().phase_spec() is Idle,
            final(shared).strategy_spec().current_gen() == old(shared).strategy_spec().current_gen(),
            final(shared).strategy_spec().slot_gens() == old(shared).strategy_spec().slot_gens(),
            final(shared).strategy_spec().pause_count() == old(shared).strategy_spec().pause_count(),
            final(shared).which_spec() == old(shared).which_spec(),
            forall|w: bool| final(shared).buffer_at(w) == old(shared).buffer_at(w),
            final(shared).writer_claimed_spec() == old(shared).writer_claimed_spec(),
            final(shared).writer_live_spec() == old(shared).writer_live_spec(),
            forall|g: crate::raw::reader::ReadGuard|
                crate::raw::writer::guard_coherent(*old(shared), g)
                    ==> crate::raw::writer::guard_coherent(*final(shared), g),
    {
        let mut swap: Option<Swap> = None;
        core::mem::swap(&mut self.swap, &mut swap);
        match swap {
            None => (),
            Some(swap) => {
                proof {
                    assert(old(self).swap_spec() == Some(swap));
                }
                self.writer.finish_swap(shared, swap);
            },
        }
    }

    /// Finish any outstanding swap and give the inner writer back.
    ///
    /// This is how a delayed writer is laid to rest: an outstanding swap is
    /// drained before the writer comes out, so no capture is left behind.
    pub fn into_finish_swap<T>(self, shared: &mut Shared<T>) -> (r: Writer)
        requires
            old(shared).wf(),
            self.coherent(*old(shared)),
            self.swap_spec() matches Some(swap) ==> forall|j: int|
                0 <= j < swap.capture_spec().members_spec().len() ==> old(shared).strategy_spec().slot_gens()[swap.capture_spec().members_spec()[j] as int]
                    != swap.capture_spec().gen_spec(),
        ensures
            final(shared).wf(),
            final(shared).strategy_spec().phase_spec() is Idle,
            final(shared).strategy_spec().current_gen() == old(shared).strategy_spec().current_gen(),
            final(shared).strategy_spec().slot_gens() == old(shared).strategy_spec().slot_gens(),
            final(shared).which_spec() == old(shared).which_spec(),
            forall|w: bool| final(shared).buffer_at(w) == old(shared).buffer_at(w),
            final(shared).writer_claimed_spec() == old(shared).writer_claimed_spec(),
            final(shared).writer_live_spec() == old(shared).writer_live_spec(),
    {
        let mut this = self;
        this.finish_swap(shared);
        this.writer
    }

    /// Finish any outstanding swap, then swap the buffers once more in one
    /// call: begin a fresh swap and drain it. The outstanding capture must
    /// already have drained, and no reader may be active, so no pause is
    /// ever needed.
    pub fn swap_buffers<T>(&mut self, shared: &mut Shared<T>)
        requires
            old(shared).wf(),
            old(self).coherent(*old(shared)),
            old(self).swap_spec() matches Some(swap) ==> forall|j: int|
                0 <= j < swap.capture_spec().members_spec().len() ==> old(shared).strategy_spec().slot_gens()[swap.capture_spec().members_spec()[j] as int]
                    != swap.capture_spec().gen_spec(),
            forall|i: usize|
                i < old(shared).strategy_spec().slot_gens().len() ==> old(shared).strategy_spec().slot_gens()[i as int]
                    != old(shared).strategy_spec().current_gen(),
        ensures
            final(shared).wf(),
            final(self).coherent(*final(shared)),
            final(self).swap_spec() is None,
            final(shared).strategy_spec().phase_spec() is Idle,
            final(shared).strategy_spec().current_gen() == next_gen(
                old(shared).strategy_spec().current_gen(),
            ),
            final(shared).strategy_spec().slot_gens() == old(shared).strategy_spec().slot_gens(),
            final(shared).strategy_spec().pause_count() == old(shared).strategy_spec().pause_count(),
            final(shared).which_spec() == !old(shared).which_spec(),
            forall|w: bool| final(shared).buffer_at(w) == old(shared).buffer_at(w),
            final(shared).writer_claimed_spec() == old(shared).writer_claimed_spec(),
            final(shared).writer_live_spec() == old(shared).writer_live_spec(),
    {
        self.finish_swap(shared);
        self.start_buffer_swap(shared);
        proof {
            let cap = self.swap_spec()->Some_0.capture_spec();
            if cap.members_spec().len() > 0 {
                let m = cap.members_spec()[0];
                assert(cap.members_spec().contains(m));
                assert(m < shared.strategy_spec().slot_gens().len());
                assert(shared.strategy_spec().slot_gens()[m as int] == old(
                    shared,
                ).strategy_spec().current_gen());
                assert(false);
            }
        }
        let done = self.is_swap_finished(shared);
        proof {
            assert(done);
        }
    }

    /// Replace the write-side buffer, returning the old one. Only possible
    /// while no swap is outstanding: this is the delayed writer's promise.
    pub fn replace_writer_side<T>(&mut self, shared: &mut Shared<T>, value: T) -> (r: T)
        requires
            old(shared).wf(),
            old(self).coherent(*old(shared)),
            old(self).swap_spec() is None,
        ensures
            final(shared).wf(),
            final(self).coherent(*final(shared)),
            *final(self) == *old(self),
            final(shared).writer_side() == value,
            final(shared).reader_side() == old(shared).reader_side(),
            r == old(shared).writer_side(),
            final(shared).strategy_spec() == old(shared).strategy_spec(),
            final(shared).which_spec() == old(shared).which_spec(),
            final(shared).writer_claimed_spec() == old(shared).writer_claimed_spec(),
            final(shared).writer_live_spec() == old(shared).writer_live_spec(),
            forall|g: crate::raw::reader::ReadGuard|
                crate::raw::writer::guard_coherent(*old(shared), g)
                    ==> crate::raw::writer::guard_coherent(*final(shared), g) && final(shared).buffer_at(g.side_spec()) == old(shared).buffer_at(g.side_spec()),
    {
        self.writer.replace_writer_side(shared, value)
    }
}

} // verus!
