//! A reader of a double buffer.

use vstd::prelude::*;

use crate::raw::writer::guard_coherent;
use crate::raw::Shared;
use crate::strategy::hazard::{ReaderGuard as SlotGuard, ReaderTag};

verus! {

/// The error a reader sees when the writer has been dropped: the weak
/// reference to the shared state can no longer be upgraded, and every later
/// attempt fails as well.
#[derive(Debug)]
pub struct UpgradeError;

impl UpgradeError {
    /// What went wrong, in words.
    pub fn message(&self) -> (r: &'static str)
        ensures
            r@ == "could not upgrade the reader's reference: the writer is gone"@,
    {
        "could not upgrade the reader's reference: the writer is gone"
    }
}

/// A reader handle: the reader's tag, presented to the shared state to begin
/// and end reads.
#[derive(Clone, Copy)]
pub struct Reader {
    tag: ReaderTag,
}

/// A read guard: the claimed reader slot together with the side of the
/// buffer pair the guard observes. While the guard is outstanding, its slot
/// holds the generation it was stamped with and the observed buffer does not
/// change.
pub struct ReadGuard {
    slot: SlotGuard,
    side: bool,
}

impl ReadGuard {
    /// The slot this guard claimed.
    pub closed spec fn slot_spec(&self) -> usize {
        self.slot.slot_spec()
    }

    /// The generation stamped into the slot.
    pub closed spec fn gen_spec(&self) -> u32 {
        self.slot.gen_spec()
    }

    /// Which slot of the buffer pair the guard observes.
    pub closed spec fn side_spec(&self) -> bool {
        self.side
    }

    /// Borrow the buffer this guard observes.
    pub fn value<'a, T>(&self, shared: &'a Shared<T>) -> (r: &'a T)
        ensures
            *r == shared.buffer_at(self.side_spec()),
    {
        shared.buffer_ref(self.side)
    }
}

/// A read guard narrowed to part of its buffer: the guard together with a
/// projection that is applied at each read.
pub struct MappedReadGuard<F> {
    inner: ReadGuard,
    project: F,
}

impl<F> MappedReadGuard<F> {
    /// The guard being narrowed.
    pub closed spec fn inner_spec(&self) -> ReadGuard {
        self.inner
    }

    /// The projection applied at each read.
    pub closed spec fn project_spec(&self) -> F {
        self.project
    }

    /// Borrow the projected part of the buffer this guard observes.
    pub fn value<'a, T, U>(&self, shared: &'a Shared<T>) -> (r: &'a U) where F: Fn(&'a T) -> &'a U
        requires
            self.project_spec().requires((&shared.buffer_at(self.inner_spec().side_spec()),)),
        ensures
            self.project_spec().ensures(
                (&shared.buffer_at(self.inner_spec().side_spec()),),
                r,
            ),
    {
        (self.project)(self.inner.value(shared))
    }

    /// Widen back to the plain guard.
    pub fn into_inner(self) -> (r: ReadGuard)
        ensures
            r == self.inner_spec(),
    {
        self.inner
    }
}

impl ReadGuard {
    /// Narrow the guard to part of the buffer it observes; the projection is
    /// applied at each read, and the slot stays claimed by the result.
    pub fn map<F>(self, project: F) -> (r: MappedReadGuard<F>)
        ensures
            r.inner_spec() == self,
            r.project_spec() == project,
    {
        MappedReadGuard { inner: self, project }
    }

    /// Narrow the guard to a part that may be absent: where the projection
    /// finds nothing in the currently observed buffer, the plain guard comes
    /// back unchanged.
    pub fn try_map<'a, T, U: 'a, F: Fn(&'a T) -> Option<&'a U>>(
        self,
        shared: &'a Shared<T>,
        project: F,
    ) -> (r: Result<MappedReadGuard<F>, ReadGuard>)
        requires
            project.requires((&shared.buffer_at(self.side_spec()),)),
        ensures
            (match r {
                Ok(mapped) => {
                    &&& mapped.inner_spec() == self
                    &&& mapped.project_spec() == project
                    &&& exists|u: &'a U|
                        project.ensures((&shared.buffer_at(self.side_spec()),), Some(u))
                },
                Err(plain) => plain == self,
            }),
    {
        let base = self.value(shared);
        let projected = project(base);
        match projected {
            Some(part) => {
                let _ = part;
                proof {
                    assert(project.ensures((base,), Some(part)));
                    assert(base == &shared.buffer_at(self.side_spec()));
                }
                Ok(MappedReadGuard { inner: self, project })
            },
            None => Err(self),
        }
    }
}

impl Reader {
    /// Wrap a tag in a reader handle.
    pub(crate) fn from_tag(tag: ReaderTag) -> (r: Reader)
        ensures
            r.tag_spec() == tag,
    {
        Reader { tag }
    }

    /// The reader's tag.
    pub closed spec fn tag_spec(&self) -> ReaderTag {
        self.tag
    }

    /// Mint a sibling reader with a cache of its own.
    pub fn clone_reader<T>(&self, shared: &Shared<T>) -> (r: Reader)
        ensures
            r.tag_spec().cached_spec() is None,
    {
        Reader { tag: shared.strategy_ref().create_reader_tag() }
    }

    /// Begin a read: register with the strategy, then load the flag and
    /// observe the read side. Fails — and changes nothing — exactly when the
    /// writer has been dropped.
    pub fn try_get<T>(&mut self, shared: &mut Shared<T>) -> (r: Result<ReadGuard, UpgradeError>)
        requires
            old(shared).wf(),
        ensures
            final(shared).wf(),
            r is Err <==> !old(shared).writer_live_spec(),
            !old(shared).writer_live_spec() ==> *final(shared) == *old(shared) && *final(self)
                == *old(self),
            old(shared).writer_live_spec() ==> r is Ok && {
                let g = r->Ok_0;
                &&& g.side_spec() == !final(shared).which_spec()
                &&& g.gen_spec() == old(shared).strategy_spec().current_gen()
                &&& guard_coherent(*final(shared), g)
                &&& final(shared).buffer_at(g.side_spec()) == old(shared).reader_side()
                // the claimed slot was free (or is brand new); nothing else
                // moved
                &&& g.slot_spec() <= old(shared).strategy_spec().slot_gens().len()
                &&& (g.slot_spec() < old(shared).strategy_spec().slot_gens().len() ==> {
                    &&& old(shared).strategy_spec().slot_gens()[g.slot_spec() as int] == 0
                    &&& final(shared).strategy_spec().slot_gens() =~= old(shared).strategy_spec().slot_gens().update(
                        g.slot_spec() as int,
                        old(shared).strategy_spec().current_gen(),
                    )
                })
                &&& (g.slot_spec() == old(shared).strategy_spec().slot_gens().len() ==> final(shared).strategy_spec().slot_gens() =~= old(shared).strategy_spec().slot_gens().push(
                    old(shared).strategy_spec().current_gen(),
                ))
                // a reader whose cached slot is free reuses it
                &&& ((match old(self).tag_spec().cached_spec() {
                    Some(c) => c < old(shared).strategy_spec().slot_gens().len() && old(shared).strategy_spec().slot_gens()[c as int] == 0,
                    None => false,
                }) ==> g.slot_spec() == old(self).tag_spec().cached_spec().unwrap())
                &&& final(self).tag_spec().cached_spec() == Some(g.slot_spec())
            },
            final(shared).strategy_spec().current_gen() == old(shared).strategy_spec().current_gen(),
            final(shared).strategy_spec().phase_spec() == old(shared).strategy_spec().phase_spec(),
            final(shared).strategy_spec().pause_count() == old(shared).strategy_spec().pause_count(),
            final(shared).which_spec() == old(shared).which_spec(),
            forall|w: bool| final(shared).buffer_at(w) == old(shared).buffer_at(w),
            final(shared).writer_claimed_spec() == old(shared).writer_claimed_spec(),
            final(shared).writer_live_spec() == old(shared).writer_live_spec(),
            // guards that were coherent stay coherent
            forall|g: ReadGuard| guard_coherent(*old(shared), g) ==> guard_coherent(
                *final(shared),
                g,
            ),
    {
        if !shared.is_writer_live() {
            return Err(UpgradeError);
        }
        let slot = shared.begin_guard(&mut self.tag);
        let which = shared.load_which();
        let guard = ReadGuard { slot, side: !which };
        proof {
            old(shared).strategy_spec().lemma_gen_odd();
            assert forall|g: ReadGuard| guard_coherent(*old(shared), g) implies guard_coherent(
                *shared,
                g,
            ) by {
                assert(old(shared).strategy_spec().slot_gens()[g.slot_spec() as int] == g.gen_spec());
                assert(g.gen_spec() != 0);
                assert(shared.strategy_spec().slot_gens()[g.slot_spec() as int] == g.gen_spec());
            }
        }
        Ok(guard)
    }

    /// Begin a read when the writer is known to be alive.
    pub fn get<T>(&mut self, shared: &mut Shared<T>) -> (r: ReadGuard)
        requires
            old(shared).wf(),
            old(shared).writer_live_spec(),
        ensures
            final(shared).wf(),
            r.side_spec() == !final(shared).which_spec(),
            r.gen_spec() == old(shared).strategy_spec().current_gen(),
            guard_coherent(*final(shared), r),
            final(shared).buffer_at(r.side_spec()) == old(shared).reader_side(),
            r.slot_spec() <= old(shared).strategy_spec().slot_gens().len(),
            (r.slot_spec() < old(shared).strategy_spec().slot_gens().len() ==> {
                &&& old(shared).strategy_spec().slot_gens()[r.slot_spec() as int] == 0
                &&& final(shared).strategy_spec().slot_gens() =~= old(shared).strategy_spec().slot_gens().update(
                    r.slot_spec() as int,
                    old(shared).strategy_spec().current_gen(),
                )
            }),
            (r.slot_spec() == old(shared).strategy_spec().slot_gens().len() ==> final(shared).strategy_spec().slot_gens() =~= old(shared).strategy_spec().slot_gens().push(
                old(shared).strategy_spec().current_gen(),
            )),
            ((match old(self).tag_spec().cached_spec() {
                Some(c) => c < old(shared).strategy_spec().slot_gens().len() && old(shared).strategy_spec().slot_gens()[c as int] == 0,
                None => false,
            }) ==> r.slot_spec() == old(self).tag_spec().cached_spec().unwrap()),
            final(self).tag_spec().cached_spec() == Some(r.slot_spec()),
            final(shared).strategy_spec().current_gen() == old(shared).strategy_spec().current_gen(),
            final(shared).strategy_spec().phase_spec() == old(shared).strategy_spec().phase_spec(),
            final(shared).strategy_spec().pause_count() == old(shared).strategy_spec().pause_count(),
            final(shared).which_spec() == old(shared).which_spec(),
            forall|w: bool| final(shared).buffer_at(w) == old(shared).buffer_at(w),
            final(shared).writer_claimed_spec() == old(shared).writer_claimed_spec(),
            final(shared).writer_live_spec() == old(shared).writer_live_spec(),
            forall|g: ReadGuard| guard_coherent(*old(shared), g) ==> guard_coherent(
                *final(shared),
                g,
            ),
    {
        let slot = shared.begin_guard(&mut self.tag);
        let which = shared.load_which();
        let guard = ReadGuard { slot, side: !which };
        proof {
            old(shared).strategy_spec().lemma_gen_odd();
            assert forall|g: ReadGuard| guard_coherent(*old(shared), g) implies guard_coherent(
                *shared,
                g,
            ) by {
                assert(old(shared).strategy_spec().slot_gens()[g.slot_spec() as int] == g.gen_spec());
                assert(g.gen_spec() != 0);
                assert(shared.strategy_spec().slot_gens()[g.slot_spec() as int] == g.gen_spec());
            }
        }
        guard
    }

    /// End a read: store the free marker back into the guard's slot. Other
    /// outstanding guards keep both their coherence and the buffer they see.
    pub fn end_read_guard<T>(&mut self, shared: &mut Shared<T>, guard: ReadGuard)
        requires
            old(shared).wf(),
            guard.slot_spec() < old(shared).strategy_spec().slot_gens().len(),
        ensures
            final(shared).wf(),
            final(shared).strategy_spec().slot_gens() =~= old(shared).strategy_spec().slot_gens().update(guard.slot_spec() as int, 0u32),
            final(shared).strategy_spec().current_gen() == old(shared).strategy_spec().current_gen(),
            final(shared).strategy_spec().phase_spec() == old(shared).strategy_spec().phase_spec(),
            final(shared).strategy_spec().pause_count() == old(shared).strategy_spec().pause_count(),
            final(shared).which_spec() == old(shared).which_spec(),
            forall|w: bool| final(shared).buffer_at(w) == old(shared).buffer_at(w),
            final(shared).writer_claimed_spec() == old(shared).writer_claimed_spec(),
            final(shared).writer_live_spec() == old(shared).writer_live_spec(),
            forall|g: ReadGuard|
                guard_coherent(*old(shared), g) && g.slot_spec() != guard.slot_spec()
                    ==> guard_coherent(*final(shared), g),
    {
        shared.end_guard(&mut self.tag, guard.slot);
    }
}

} // verus!
