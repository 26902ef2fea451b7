//! A minimal single-owner strategy that only counts active readers.
//!
//! Swapping is refused outright while any reader holds a guard, so no
//! generations and no capture are needed: validation is the whole protocol.

use vstd::prelude::*;

use crate::flag::Flag;
use crate::raw::SizedRawDoubleBuffer;

verus! {

/// The counting strategy: how many read guards are outstanding.
pub struct LocalStrategy {
    active_readers: usize,
}

impl LocalStrategy {
    /// The number of outstanding read guards.
    pub closed spec fn active_spec(&self) -> usize {
        self.active_readers
    }

    /// Create a strategy with no active readers.
    pub fn new() -> (r: Self)
        ensures
            r.active_spec() == 0,
    {
        LocalStrategy { active_readers: 0 }
    }
}

/// The proof that a swap was allowed: no reader was active.
pub struct ValidationToken {
    token: (),
}

impl LocalStrategy {
    /// Check whether a swap may proceed: it may exactly when no reader is
    /// active.
    pub fn validate_swap(&self) -> (r: Result<ValidationToken, ValidationError>)
        ensures
            r is Ok <==> self.active_spec() == 0,
    {
        if self.active_readers == 0 {
            Ok(ValidationToken { token: () })
        } else {
            Err(ValidationError { err: () })
        }
    }
}

/// A swap was attempted while readers were active.
#[derive(Debug)]
pub struct ValidationError {
    err: (),
}

impl ValidationError {
    /// What went wrong, in words.
    pub fn message(&self) -> (r: &'static str)
        ensures
            r@ == "tried to swap buffers while there are active readers"@,
    {
        "tried to swap buffers while there are active readers"
    }
}

/// The shared state of a double buffer under the counting strategy.
pub struct LocalShared<T> {
    strategy: LocalStrategy,
    which: Flag,
    buffers: SizedRawDoubleBuffer<T>,
    writer_claimed: bool,
}

/// The single writer handle of a counting-strategy double buffer.
pub struct LocalWriter {
    token: (),
}

/// A reader handle of a counting-strategy double buffer.
#[derive(Clone, Copy)]
pub struct LocalReader {
    tag: (),
}

/// A read guard: while it is outstanding the flag cannot flip, so the side
/// it observes stays the read side.
pub struct LocalReadGuard {
    side: bool,
}

impl LocalReadGuard {
    /// Which slot of the buffer pair the guard observes.
    pub closed spec fn side_spec(&self) -> bool {
        self.side
    }

    /// Borrow the buffer this guard observes.
    pub fn value<'a, T>(&self, shared: &'a LocalShared<T>) -> (r: &'a T)
        ensures
            *r == shared.buffer_at(self.side_spec()),
    {
        shared.buffers.at(self.side)
    }
}

impl<T> LocalShared<T> {
    /// The number of outstanding read guards.
    pub closed spec fn active_spec(&self) -> usize {
        self.strategy.active_spec()
    }

    /// The flag value: which slot is the write side.
    pub closed spec fn which_spec(&self) -> bool {
        self.which@
    }

    /// The buffer in the slot selected by `w`.
    pub closed spec fn buffer_at(&self, w: bool) -> T {
        self.buffers.spec_at(w)
    }

    /// The buffer the writer currently mutates.
    pub open spec fn writer_side(&self) -> T {
        self.buffer_at(self.which_spec())
    }

    /// The buffer the readers currently observe.
    pub open spec fn reader_side(&self) -> T {
        self.buffer_at(!self.which_spec())
    }

    /// Whether a writer handle has ever been created.
    pub closed spec fn writer_claimed_spec(&self) -> bool {
        self.writer_claimed
    }

    /// Create the shared state from a strategy and two initial buffers.
    pub fn new(strategy: LocalStrategy, buffers: SizedRawDoubleBuffer<T>) -> (r: Self)
        ensures
            r.active_spec() == strategy.active_spec(),
            r.which_spec() == false,
            r.buffer_at(false) == buffers.spec_at(false),
            r.buffer_at(true) == buffers.spec_at(true),
            !r.writer_claimed_spec(),
    {
        LocalShared { strategy, which: Flag::new(), buffers, writer_claimed: false }
    }
}

impl LocalWriter {
    /// Mint the unique writer handle of a freshly constructed shared state.
    pub fn new<T>(shared: &mut LocalShared<T>) -> (r: LocalWriter)
        requires
            !old(shared).writer_claimed_spec(),
        ensures
            final(shared).writer_claimed_spec(),
            final(shared).active_spec() == old(shared).active_spec(),
            final(shared).which_spec() == old(shared).which_spec(),
            forall|w: bool| final(shared).buffer_at(w) == old(shared).buffer_at(w),
    {
        shared.writer_claimed = true;
        LocalWriter { token: () }
    }

    /// Mint a fresh reader.
    pub fn reader<T>(&self, _shared: &LocalShared<T>) -> (r: LocalReader)
        ensures
            true,
    {
        LocalReader { tag: () }
    }

    /// Borrow the two buffers at once: the read side shared, the write side
    /// exclusive. Read guards observe the read side, which does not change.
    pub fn split_mut<'a, T>(&self, shared: &'a mut LocalShared<T>) -> (r:
        crate::raw::writer::SplitMut<'a, T>)
        ensures
            *r.reader == old(shared).reader_side(),
            *r.writer == old(shared).writer_side(),
            final(shared).writer_side() == *final(r.writer),
            final(shared).reader_side() == old(shared).reader_side(),
            final(shared).active_spec() == old(shared).active_spec(),
            final(shared).which_spec() == old(shared).which_spec(),
            final(shared).writer_claimed_spec() == old(shared).writer_claimed_spec(),
    {
        let w = shared.which.load();
        shared.buffers.halves_mut(w)
    }

    /// Replace the write-side buffer with a new value, returning the old one.
    /// Read guards observe the read side, which does not change.
    pub fn replace_writer_side<T>(&self, shared: &mut LocalShared<T>, value: T) -> (r: T)
        ensures
            final(shared).writer_side() == value,
            final(shared).reader_side() == old(shared).reader_side(),
            r == old(shared).writer_side(),
            final(shared).active_spec() == old(shared).active_spec(),
            final(shared).which_spec() == old(shared).which_spec(),
            final(shared).writer_claimed_spec() == old(shared).writer_claimed_spec(),
            forall|g: LocalReadGuard|
                g.side_spec() == !old(shared).which_spec() ==> final(shared).buffer_at(
                    g.side_spec(),
                ) == old(shared).buffer_at(g.side_spec()),
    {
        let w = shared.which.load();
        shared.buffers.replace_at(w, value)
    }

    /// Swap the two buffers. This fails, and changes nothing, exactly when a
    /// reader is active: the counting strategy never waits.
    pub fn try_swap_buffers<T>(&self, shared: &mut LocalShared<T>) -> (r: Result<
        (),
        ValidationError,
    >)
        ensures
            r is Ok <==> old(shared).active_spec() == 0,
            r is Ok ==> final(shared).which_spec() == !old(shared).which_spec(),
            r is Err ==> *final(shared) == *old(shared),
            final(shared).active_spec() == old(shared).active_spec(),
            forall|w: bool| final(shared).buffer_at(w) == old(shared).buffer_at(w),
            final(shared).writer_claimed_spec() == old(shared).writer_claimed_spec(),
    {
        match shared.strategy.validate_swap() {
            Ok(token) => {
                let _ = token;
                shared.which.flip();
                Ok(())
            },
            Err(e) => Err(e),
        }
    }
}

impl LocalReader {
    /// Begin a read of the current read side. The count of active readers
    /// rises by one; while it is positive no swap can succeed, so the guard's
    /// buffer stays put.
    pub fn get<T>(&mut self, shared: &mut LocalShared<T>) -> (r: LocalReadGuard)
        requires
            old(shared).active_spec() < usize::MAX,
        ensures
            final(shared).active_spec() == old(shared).active_spec() + 1,
            final(shared).which_spec() == old(shared).which_spec(),
            forall|w: bool| final(shared).buffer_at(w) == old(shared).buffer_at(w),
            final(shared).writer_claimed_spec() == old(shared).writer_claimed_spec(),
            r.side_spec() == !old(shared).which_spec(),
            final(shared).buffer_at(r.side_spec()) == old(shared).reader_side(),
    {
        shared.strategy.active_readers = shared.strategy.active_readers + 1;
        let which = shared.which.load();
        LocalReadGuard { side: !which }
    }

    /// End a read: the count of active readers falls by one.
    pub fn end_read_guard<T>(&mut self, shared: &mut LocalShared<T>, guard: LocalReadGuard)
        requires
            old(shared).active_spec() > 0,
        ensures
            final(shared).active_spec() == old(shared).active_spec() - 1,
            final(shared).which_spec() == old(shared).which_spec(),
            forall|w: bool| final(shared).buffer_at(w) == old(shared).buffer_at(w),
            final(shared).writer_claimed_spec() == old(shared).writer_claimed_spec(),
    {
        let _ = guard;
        shared.strategy.active_readers = shared.strategy.active_readers - 1;
    }
}

impl Default for LocalStrategy {
    /// A strategy with no active readers.
    fn default() -> (r: Self)
        ensures
            r.active_spec() == 0,
    {
        LocalStrategy::new()
    }
}

} // verus!
