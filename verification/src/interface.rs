//! The traits the double buffer is built against: the one-bit side selector,
//! the raw buffer pair, and the writer's waiting policy.

use vstd::prelude::*;

verus! {

/// A one-bit selector of which buffer is the write side: loadable and
/// flippable, with every load ordered after every flip.
pub trait Which: Sized {
    /// The selector's current value.
    spec fn value_spec(&self) -> bool;

    /// Load the selector.
    fn load(&self) -> (r: bool)
        ensures
            r == self.value_spec(),
    ;

    /// Toggle the selector.
    fn flip(&mut self)
        ensures
            final(self).value_spec() == !old(self).value_spec(),
    ;
}

impl Which for crate::flag::Flag {
    open spec fn value_spec(&self) -> bool {
        self@
    }

    fn load(&self) -> (r: bool) {
        crate::flag::Flag::load(self)
    }

    fn flip(&mut self) {
        crate::flag::Flag::flip(self)
    }
}

/// A pair of same-typed buffers addressable as write side and read side by a
/// selector value: the slot indexed by the selector is the write side.
pub trait RawBuffers: Sized {
    /// The buffered type.
    type Buffer;

    /// The buffer in the slot selected by `w`.
    spec fn buffer_spec(&self, w: bool) -> Self::Buffer;

    /// Borrow the buffer in the slot selected by `w`.
    fn buffer(&self, w: bool) -> (r: &Self::Buffer)
        ensures
            *r == self.buffer_spec(w),
    ;
}

impl<T> RawBuffers for crate::raw::SizedRawDoubleBuffer<T> {
    type Buffer = T;

    open spec fn buffer_spec(&self, w: bool) -> T {
        self.spec_at(w)
    }

    fn buffer(&self, w: bool) -> (r: &T) {
        self.at(w)
    }
}

/// How the writer passes the time while captured readers drain: `wait`
/// yields once and says whether the policy is saturated — it will not wait
/// longer next time — and `notify` wakes a waiting writer, if any.
pub trait WaitStrategy: Sized {
    /// State carried between consecutive waits.
    type State;

    /// Yield once; true means the policy is saturated.
    fn wait(&self, state: &mut Self::State) -> bool;

    /// Wake the waiting writer, if any.
    fn notify(&self);
}

} // verus!
