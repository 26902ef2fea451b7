//! An operation-based writer: a delayed writer paired with an operation log.
//!
//! Mutations are submitted as operations and applied lazily. Publishing
//! replays the log onto the write side, then starts a buffer swap that the
//! next publish drains. Because every operation reaches each buffer exactly
//! once, the two buffers stay equal under the replay semantics: the read side
//! always equals the write side with the already-applied operations replayed
//! onto it.

use vstd::prelude::*;

use crate::delayed::DelayedWriter;
use crate::op_log::{effects_eq, fold_ops, lemma_fold_concat, lemma_fold_effects_eq, OpLog, Operation};
use crate::raw::writer::Writer;
use crate::raw::Shared;

verus! {

/// A delayed writer together with the operation log that keeps the two
/// buffers in sync.
pub struct OpWriter<O> {
    writer: DelayedWriter,
    op_log: OpLog<O>,
}

impl<O> OpWriter<O> {
    /// The inner delayed writer.
    pub closed spec fn writer_spec(&self) -> DelayedWriter {
        self.writer
    }

    /// The operation log.
    pub closed spec fn log_spec(&self) -> OpLog<O> {
        self.op_log
    }

    /// The op-writer agrees with the shared state: the delayed writer does,
    /// the log is well formed, and the read side equals the write side with
    /// the already-applied prefix of the log replayed onto it.
    pub open spec fn coherent<T>(&self, shared: Shared<T>) -> bool where O: Operation<T> {
        &&& self.writer_spec().coherent(shared)
        &&& self.log_spec().wf()
        &&& shared.reader_side() == fold_ops(
            self.log_spec().ops_spec().take(self.log_spec().applied_spec() as int),
            shared.writer_side(),
        )
    }

    /// Pair a delayed writer with an operation log.
    pub fn from_raw_parts(writer: DelayedWriter, op_log: OpLog<O>) -> (r: Self)
        ensures
            r.writer_spec() == writer,
            r.log_spec() == op_log,
    {
        OpWriter { writer, op_log }
    }

    /// Build an op-writer from a plain writer, with an empty log.
    pub fn from_writer(writer: Writer) -> (r: Self)
        ensures
            r.writer_spec().swap_spec() is None,
            r.log_spec().wf(),
            r.log_spec().ops_spec() =~= Seq::<O>::empty(),
            r.log_spec().applied_spec() == 0,
    {
        OpWriter { writer: DelayedWriter::new(writer), op_log: OpLog::new() }
    }

    /// Take the op-writer apart again.
    pub fn into_raw_parts(self) -> (r: (DelayedWriter, OpLog<O>))
        ensures
            r.0 == self.writer_spec(),
            r.1 == self.log_spec(),
    {
        (self.writer, self.op_log)
    }

    /// The operations that have not been applied anywhere yet.
    pub fn unapplied(&self) -> (r: &[O])
        requires
            self.log_spec().wf(),
        ensures
            r@ == self.log_spec().unapplied_spec(),
    {
        self.op_log.unapplied()
    }

    /// Release spare room in the log, keeping at least the given capacity.
    pub fn shrink_to(&mut self, min_capacity: usize)
        ensures
            *final(self) == *old(self),
    {
        self.op_log.shrink_to(min_capacity)
    }

    /// Release all spare room in the log.
    pub fn shrink_to_fit(&mut self)
        ensures
            *final(self) == *old(self),
    {
        self.op_log.shrink_to_fit()
    }

    /// Make room for at least the given number of further operations.
    pub fn reserve(&mut self, additional: usize)
        ensures
            final(self).log_spec().ops_spec() == old(self).log_spec().ops_spec(),
            final(self).log_spec().applied_spec() == old(self).log_spec().applied_spec(),
            final(self).writer_spec() == old(self).writer_spec(),
    {
        self.op_log.reserve(additional)
    }

    /// Mint a fresh reader.
    pub fn reader<T>(&self, shared: &Shared<T>) -> (r: crate::raw::reader::Reader)
        ensures
            r.tag_spec().cached_spec() is None,
    {
        self.writer.writer_ref().reader(shared)
    }

    /// Borrow both buffers read-only.
    pub fn split<'a, T>(&self, shared: &'a Shared<T>) -> (r: crate::raw::writer::Split<'a, T>)
        ensures
            *r.writer == shared.writer_side(),
            *r.reader == shared.reader_side(),
    {
        self.writer.writer_ref().split(shared)
    }

    /// Submit an operation: it is recorded in the log and does no buffer work
    /// yet.
    pub fn apply(&mut self, op: O)
        requires
            old(self).log_spec().wf(),
        ensures
            final(self).log_spec().wf(),
            final(self).log_spec().ops_spec() =~= old(self).log_spec().ops_spec().push(op),
            final(self).log_spec().applied_spec() == old(self).log_spec().applied_spec(),
            final(self).writer_spec() == old(self).writer_spec(),
    {
        self.op_log.push(op)
    }

    /// Replay the log onto the write side and start a buffer swap: the prior
    /// swap is drained, the operations the other buffer has seen are applied
    /// here for the last time, the still-pending ones for the first time,
    /// and the buffers then trade places.
    ///
    /// Afterwards the new read side has seen every submitted operation, and
    /// the two buffers are equal under replay of the remaining log.
    pub fn swap_buffers<T>(&mut self, shared: &mut Shared<T>) where O: Operation<T>
        requires
            old(shared).wf(),
            old(self).coherent(*old(shared)),
            old(self).writer_spec().swap_spec() matches Some(swap) ==> forall|j: int|
                0 <= j < swap.capture_spec().members_spec().len() ==> old(shared).strategy_spec().slot_gens()[swap.capture_spec().members_spec()[j] as int]
                    != swap.capture_spec().gen_spec(),
        ensures
            final(shared).wf(),
            final(self).coherent(*final(shared)),
            final(self).writer_spec().swap_spec() is Some,
            final(shared).reader_side() == fold_ops(
                old(self).log_spec().ops_spec(),
                old(shared).writer_side(),
            ),
            final(shared).writer_side() == old(shared).reader_side(),
            effects_eq::<O, T>(
                final(self).log_spec().ops_spec(),
                old(self).log_spec().unapplied_spec(),
            ),
            final(self).log_spec().applied_spec() == final(self).log_spec().ops_spec().len(),
            final(shared).strategy_spec().slot_gens() == old(shared).strategy_spec().slot_gens(),
            final(shared).strategy_spec().pause_count() == old(shared).strategy_spec().pause_count(),
            final(shared).writer_claimed_spec() == old(shared).writer_claimed_spec(),
            final(shared).writer_live_spec() == old(shared).writer_live_spec(),
            // a swap with nothing pending leaves the two buffers equal
            old(self).log_spec().unapplied_spec().len() == 0 ==> final(shared).reader_side() == old(shared).reader_side() && final(shared).writer_side() == old(shared).reader_side(),
    {
        let ghost ops0 = self.op_log.ops_spec();
        let ghost a0 = self.op_log.applied_spec() as int;
        let ghost w0 = old(shared).writer_side();
        let ghost r0 = old(shared).reader_side();
        self.writer.finish_swap(shared);
        let buffer = self.writer.writer_ref().writer_side_mut(shared);
        self.op_log.apply(buffer);
        proof {
            assert(shared.writer_side() == fold_ops(ops0, w0));
        }
        self.writer.start_buffer_swap(shared);
        proof {
            assert(ops0.take(a0) + ops0.skip(a0) =~= ops0);
            lemma_fold_concat(ops0.take(a0), ops0.skip(a0), w0);
            lemma_fold_effects_eq::<O, T>(self.op_log.ops_spec(), ops0.skip(a0), r0);
            let opsf = self.op_log.ops_spec();
            assert(opsf.take(opsf.len() as int) =~= opsf);
            if ops0.skip(a0).len() == 0 {
                assert(ops0.take(a0) =~= ops0);
            }
        }
    }

    /// Publish the submitted operations: swap the buffers if any operation
    /// is still unapplied, otherwise do nothing.
    pub fn publish<T>(&mut self, shared: &mut Shared<T>) where O: Operation<T>
        requires
            old(shared).wf(),
            old(self).coherent(*old(shared)),
            old(self).writer_spec().swap_spec() matches Some(swap) ==> forall|j: int|
                0 <= j < swap.capture_spec().members_spec().len() ==> old(shared).strategy_spec().slot_gens()[swap.capture_spec().members_spec()[j] as int]
                    != swap.capture_spec().gen_spec(),
        ensures
            final(shared).wf(),
            final(self).coherent(*final(shared)),
            old(self).log_spec().unapplied_spec().len() == 0 ==> *final(self) == *old(self)
                && *final(shared) == *old(shared),
            old(self).log_spec().unapplied_spec().len() > 0 ==> {
                &&& final(shared).reader_side() == fold_ops(
                    old(self).log_spec().ops_spec(),
                    old(shared).writer_side(),
                )
                &&& final(shared).writer_side() == old(shared).reader_side()
                &&& final(self).log_spec().applied_spec() == final(self).log_spec().ops_spec().len()
                &&& effects_eq::<O, T>(
                    final(self).log_spec().ops_spec(),
                    old(self).log_spec().unapplied_spec(),
                )
            },
            final(shared).strategy_spec().slot_gens() == old(shared).strategy_spec().slot_gens(),
            final(shared).strategy_spec().pause_count() == old(shared).strategy_spec().pause_count(),
            final(shared).writer_claimed_spec() == old(shared).writer_claimed_spec(),
            final(shared).writer_live_spec() == old(shared).writer_live_spec(),
    {
        let pending = self.op_log.unapplied();
        if pending.len() > 0 {
            self.swap_buffers(shared);
        }
    }
}

} // verus!
