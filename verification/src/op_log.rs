//! An operation log that keeps the two halves of a double buffer in sync.
//!
//! Every mutation the writer performs is recorded as an operation. An
//! operation is applied twice, once to each buffer: the first application
//! goes through [`Operation::apply`], which must leave the operation reusable,
//! and the second, final one through [`Operation::apply_last`], which consumes
//! it. The log tracks with an *applied* count how far each buffer has come,
//! so that replaying the log after a swap makes the formerly read-side buffer
//! catch up with the other.

use vstd::prelude::*;

verus! {

/// A mutation that can be applied to a buffer, twice, with the same effect
/// both times.
pub trait Operation<B>: Sized {
    /// The operation's effect on a buffer, as a mathematical function.
    spec fn spec_apply(self, buffer: B) -> B;

    /// Apply the operation to the buffer, leaving the operation in a state
    /// whose effect is unchanged.
    fn apply(&mut self, buffer: &mut B)
        ensures
            *final(buffer) == old(self).spec_apply(*old(buffer)),
            forall|b: B| final(self).spec_apply(b) == old(self).spec_apply(b),
    ;

    /// Apply the operation to the buffer for the last time, consuming it.
    fn apply_last(self, buffer: &mut B)
        ensures
            *final(buffer) == self.spec_apply(*old(buffer)),
    ;
}

/// The buffer obtained by applying the operations in order, first first.
pub open spec fn fold_ops<O: Operation<B>, B>(ops: Seq<O>, buffer: B) -> B
    decreases ops.len(),
{
    if ops.len() == 0 {
        buffer
    } else {
        fold_ops(ops.drop_first(), ops[0].spec_apply(buffer))
    }
}

/// Two operations with the same effect on every buffer.
pub open spec fn effect_eq<O: Operation<B>, B>(a: O, b: O) -> bool {
    forall|x: B| a.spec_apply(x) == b.spec_apply(x)
}

/// Two operation sequences, pointwise of the same effect.
pub open spec fn effects_eq<O: Operation<B>, B>(s1: Seq<O>, s2: Seq<O>) -> bool {
    &&& s1.len() == s2.len()
    &&& forall|i: int| 0 <= i < s1.len() ==> effect_eq::<O, B>(s1[i], s2[i])
}

/// Appending an operation folds as applying it last.
pub proof fn lemma_fold_push<O: Operation<B>, B>(ops: Seq<O>, x: O, buffer: B)
    ensures
        fold_ops(ops.push(x), buffer) == x.spec_apply(fold_ops(ops, buffer)),
    decreases ops.len(),
{
    if ops.len() == 0 {
        assert(ops.push(x).drop_first() =~= Seq::<O>::empty());
        assert(fold_ops(ops.push(x), buffer) == fold_ops(ops.push(x).drop_first(), x.spec_apply(buffer)));
    } else {
        assert(ops.push(x).drop_first() =~= ops.drop_first().push(x));
        lemma_fold_push(ops.drop_first(), x, ops[0].spec_apply(buffer));
    }
}

/// Folding a concatenation folds the two parts in order.
pub proof fn lemma_fold_concat<O: Operation<B>, B>(s1: Seq<O>, s2: Seq<O>, buffer: B)
    ensures
        fold_ops(s1 + s2, buffer) == fold_ops(s2, fold_ops(s1, buffer)),
    decreases s1.len(),
{
    if s1.len() == 0 {
        assert(s1 + s2 =~= s2);
    } else {
        assert((s1 + s2).drop_first() =~= s1.drop_first() + s2);
        lemma_fold_concat(s1.drop_first(), s2, s1[0].spec_apply(buffer));
    }
}

/// Sequences of the same effect fold to the same buffer.
pub proof fn lemma_fold_effects_eq<O: Operation<B>, B>(s1: Seq<O>, s2: Seq<O>, buffer: B)
    requires
        effects_eq::<O, B>(s1, s2),
    ensures
        fold_ops(s1, buffer) == fold_ops(s2, buffer),
    decreases s1.len(),
{
    if s1.len() > 0 {
        assert(effect_eq::<O, B>(s1[0], s2[0]));
        assert(effects_eq::<O, B>(s1.drop_first(), s2.drop_first()));
        lemma_fold_effects_eq(s1.drop_first(), s2.drop_first(), s1[0].spec_apply(buffer));
    }
}

/// A ready-made operation over integer buffers: add a constant or multiply
/// by one, wrapping on overflow.
pub enum ArithOp {
    /// Add the constant to the buffer.
    Add(i64),
    /// Multiply the buffer by the constant.
    Mul(i64),
}

impl Operation<i64> for ArithOp {
    open spec fn spec_apply(self, buffer: i64) -> i64 {
        match self {
            ArithOp::Add(a) => vstd::wrapping::i64_specs::wrapping_add(buffer, a),
            ArithOp::Mul(a) => vstd::wrapping::i64_specs::wrapping_mul(buffer, a),
        }
    }

    fn apply(&mut self, buffer: &mut i64) {
        match self {
            ArithOp::Add(a) => {
                *buffer = (*buffer).wrapping_add(*a);
            },
            ArithOp::Mul(a) => {
                *buffer = (*buffer).wrapping_mul(*a);
            },
        }
    }

    fn apply_last(self, buffer: &mut i64) {
        let mut this = self;
        this.apply(buffer);
    }
}

/// The operation log: the recorded operations that are still needed, and how
/// many of them the current write side has already seen.
pub struct OpLog<O> {
    ops: Vec<O>,
    applied: usize,
}

impl<O> OpLog<O> {
    /// The recorded operations, oldest first.
    pub closed spec fn ops_spec(&self) -> Seq<O> {
        self.ops@
    }

    /// How many of the recorded operations the current write side has seen.
    pub closed spec fn applied_spec(&self) -> usize {
        self.applied
    }

    /// The operations not yet applied anywhere.
    pub open spec fn unapplied_spec(&self) -> Seq<O> {
        self.ops_spec().skip(self.applied_spec() as int)
    }

    /// The log's invariant: the applied count never passes the end.
    pub open spec fn wf(&self) -> bool {
        self.applied_spec() <= self.ops_spec().len()
    }

    /// Create an empty log.
    pub fn new() -> (r: Self)
        ensures
            r.wf(),
            r.ops_spec() =~= Seq::<O>::empty(),
            r.applied_spec() == 0,
    {
        OpLog { ops: Vec::new(), applied: 0 }
    }

    /// Create a log holding the given operations, none applied yet.
    /// (See also `Default`, which is the empty log.)
    pub fn from_vec(ops: Vec<O>) -> (r: Self)
        ensures
            r.wf(),
            r.ops_spec() == ops@,
            r.applied_spec() == 0,
    {
        OpLog { ops, applied: 0 }
    }

    /// Release spare room in the log, keeping at least the given capacity.
    /// Capacity is not observable here: the contents stay as they are.
    pub fn shrink_to(&mut self, _min_capacity: usize)
        ensures
            *final(self) == *old(self),
    {
    }

    /// Release all spare room in the log. Capacity is not observable here:
    /// the contents stay as they are.
    pub fn shrink_to_fit(&mut self)
        ensures
            *final(self) == *old(self),
    {
    }

    /// Make room for at least the given number of further operations.
    pub fn reserve(&mut self, additional: usize)
        ensures
            final(self).ops_spec() == old(self).ops_spec(),
            final(self).applied_spec() == old(self).applied_spec(),
    {
        self.ops.reserve(additional)
    }

    /// Record one more operation at the end of the log.
    pub fn push(&mut self, op: O)
        requires
            old(self).wf(),
        ensures
            final(self).wf(),
            final(self).ops_spec() =~= old(self).ops_spec().push(op),
            final(self).applied_spec() == old(self).applied_spec(),
    {
        self.ops.push(op)
    }

    /// The operations that have not been applied anywhere yet.
    pub fn unapplied(&self) -> (r: &[O])
        requires
            self.wf(),
        ensures
            r@ == self.unapplied_spec(),
    {
        let r = vstd::slice::slice_subrange(self.ops.as_slice(), self.applied, self.ops.len());
        proof {
            assert(r@ =~= self.unapplied_spec());
        }
        r
    }

    /// Bring this buffer up to date and advance the log: the operations the
    /// other buffer has already seen are applied here for the last time and
    /// leave the log; the remaining ones are applied here for the first time
    /// and stay, now counted as applied.
    ///
    /// The buffer ends up as if every recorded operation had been applied to
    /// it in order.
    pub fn apply<B>(&mut self, buffer: &mut B) where O: Operation<B>
        requires
            old(self).wf(),
        ensures
            final(self).wf(),
            *final(buffer) == fold_ops(old(self).ops_spec(), *old(buffer)),
            effects_eq::<O, B>(final(self).ops_spec(), old(self).unapplied_spec()),
            final(self).applied_spec() == final(self).ops_spec().len(),
    {
        let a = self.applied;
        let ghost ops0 = self.ops@;
        let ghost buf0 = *buffer;
        let mut k: usize = 0;
        while k < a
            invariant
                old(self).wf(),
                a == old(self).applied_spec(),
                k <= a,
                ops0 == old(self).ops_spec(),
                a <= ops0.len(),
                self.ops@ =~= ops0.skip(k as int),
                *buffer == fold_ops(ops0.take(k as int), buf0),
                buf0 == *old(buffer),
            decreases a - k,
        {
            let op = self.ops.remove(0);
            op.apply_last(buffer);
            proof {
                assert(ops0.take(k as int).push(ops0[k as int]) =~= ops0.take(k as int + 1));
                lemma_fold_push(ops0.take(k as int), ops0[k as int], buf0);
                assert(self.ops@ =~= ops0.skip(k as int + 1));
            }
            k = k + 1;
        }
        let ghost mid = self.ops@;
        let ghost buf1 = *buffer;
        proof {
            assert(mid =~= ops0.skip(a as int));
        }
        self.applied = self.ops.len();
        let n = self.ops.len();
        let mut j: usize = 0;
        while j < n
            invariant
                j <= n,
                n == self.ops@.len(),
                n == mid.len(),
                self.applied == n,
                *buffer == fold_ops(mid.take(j as int), buf1),
                forall|i: int| 0 <= i < j ==> effect_eq::<O, B>(self.ops@[i], mid[i]),
                forall|i: int| j <= i < n ==> self.ops@[i] == mid[i],
            decreases n - j,
        {
            let mut op = self.ops.remove(j);
            op.apply(buffer);
            proof {
                assert(mid.take(j as int).push(mid[j as int]) =~= mid.take(j as int + 1));
                lemma_fold_push(mid.take(j as int), mid[j as int], buf1);
            }
            self.ops.insert(j, op);
            j = j + 1;
        }
        proof {
            assert(mid.take(n as int) =~= mid);
            assert(ops0.take(a as int) + ops0.skip(a as int) =~= ops0);
            lemma_fold_concat(ops0.take(a as int), ops0.skip(a as int), buf0);
            lemma_fold_effects_eq::<O, B>(mid, ops0.skip(a as int), buf1);
            assert(effects_eq::<O, B>(self.ops@, mid));
            assert(effects_eq::<O, B>(self.ops@, old(self).unapplied_spec()));
        }
    }
}

impl<O> Default for OpLog<O> {
    /// The empty log.
    fn default() -> (r: Self)
        ensures
            r.wf(),
            r.ops_spec() =~= Seq::<O>::empty(),
            r.applied_spec() == 0,
    {
        OpLog::new()
    }
}

} // verus!
