//! The protocol's guarantees, stated and proved once over the model.
//!
//! Each function here is a law of the double-buffer protocol, written against
//! the same specifications that the executable functions promise in their
//! contracts.

use vstd::prelude::*;

use crate::op_log::{fold_ops, Operation};
use crate::op::OpWriter;
use crate::raw::reader::ReadGuard;
use crate::raw::writer::guard_coherent;
use crate::raw::Shared;
use crate::strategy::hazard::{next_gen, prev_gen};

verus! {

/// While no swap is in progress, every coherent read guard observes the read
/// side of the buffer pair — never the side the writer mutates. Together
/// with the writer's contracts, which only touch the write side and only
/// while no swap is in progress, a guard therefore observes one unchanging
/// buffer for its whole lifetime.
pub proof fn lemma_guard_observes_read_side<T>(shared: Shared<T>, g: ReadGuard)
    requires
        shared.wf(),
        shared.strategy_spec().phase_spec() is Idle,
        guard_coherent(shared, g),
    ensures
        g.side_spec() == !shared.which_spec(),
{
    let strat = shared.strategy_spec();
    assert(strat.slot_gens()[g.slot_spec() as int] != 0);
    assert(g.gen_spec() == strat.current_gen());
}

/// Once a swap has drained — no reader slot holds the captured generation
/// any more — no guard that began before the swap is still coherent: every
/// reader that was captured has released its guard or begun a fresh read.
pub proof fn lemma_drained_means_no_pre_swap_guard<T>(shared: Shared<T>, g0: u32, g: ReadGuard)
    requires
        forall|i: usize|
            i < shared.strategy_spec().slot_gens().len() ==> shared.strategy_spec().slot_gens()[i as int]
                != g0,
        g.gen_spec() == g0,
    ensures
        !guard_coherent(shared, g),
{
}

/// The reader slot list is monotone: a read entering the list claims a free
/// slot or appends a new one, and a read leaving it stores the free marker
/// back. Neither transition removes a slot, so the list never shrinks.
pub proof fn lemma_reader_slots_never_removed(pre: Seq<u32>, post: Seq<u32>, slot: int, stamp: u32)
    requires
        post == pre.update(slot, stamp) && 0 <= slot < pre.len() || post == pre.push(stamp),
    ensures
        pre.len() <= post.len(),
{
}

/// Probing a drain twice with no reader activity in between gives the same
/// answer: filtering the capture by the still-stamped slots is idempotent,
/// so the second probe keeps exactly the members of the first.
pub proof fn lemma_have_readers_exited_idempotent(
    members1: Seq<usize>,
    members2: Seq<usize>,
    members3: Seq<usize>,
    slots: Seq<u32>,
    generation: u32,
)
    requires
        // one probe turns the capture `members1` into `members2` ...
        forall|m: usize| members2.contains(m) <==> (members1.contains(m) && slots[m as int]
            == generation),
        // ... and a second probe over unchanged slots turns it into `members3`
        forall|m: usize| members3.contains(m) <==> (members2.contains(m) && slots[m as int]
            == generation),
    ensures
        forall|m: usize| members3.contains(m) <==> members2.contains(m),
        (members3.len() == 0) == (members2.len() == 0),
{
    assert forall|m: usize| members3.contains(m) <==> members2.contains(m) by {
        if members2.contains(m) {
            assert(slots[m as int] == generation);
        }
    }
    if members2.len() > 0 {
        assert(members2.contains(members2[0]));
        assert(members3.contains(members2[0]));
    }
    if members3.len() > 0 {
        assert(members3.contains(members3[0]));
    }
}

/// Generations wrap around without harm: stepping forward and back
/// round-trips everywhere, including at the largest representable
/// generation, and the new generation never collides with the old one. A
/// swap validated at the largest generation therefore still classifies the
/// pre-swap readers correctly.
pub proof fn lemma_generation_wraparound()
    ensures
        next_gen(0xFFFF_FFFFu32) == 1u32,
        prev_gen(1u32) == 0xFFFF_FFFFu32,
        forall|g: u32| #![trigger next_gen(g)] prev_gen(next_gen(g)) == g && next_gen(g) != g,
{
}

/// A publish with nothing pending leaves the read side where it was: with
/// every operation already applied, replaying the log onto the write side
/// reproduces exactly the read side. Two successive swaps with no
/// intervening operations therefore leave both buffers observationally
/// equal.
pub proof fn lemma_quiescent_swap_preserves_reader_view<O, T>(
    opw: OpWriter<O>,
    shared: Shared<T>,
) where O: Operation<T>
    requires
        opw.coherent(shared),
        opw.log_spec().unapplied_spec().len() == 0,
    ensures
        fold_ops(opw.log_spec().ops_spec(), shared.writer_side()) == shared.reader_side(),
{
    let ops = opw.log_spec().ops_spec();
    let a = opw.log_spec().applied_spec() as int;
    assert(a == ops.len());
    assert(ops.take(a) =~= ops);
}

} // verus!
