//! Duplicating a value into both halves of a double buffer.
//!
//! A container that keeps its data in both buffers needs a second copy of
//! each inserted value, one per half. `Split` provides it: for clonable
//! values the copy is a clone; shared-ownership handles can implement it as
//! a second handle to the same value.

use vstd::prelude::*;

verus! {

/// A value that can produce a second copy of itself that compares equal,
/// for insertion into the other buffer half.
pub trait Split: Sized {
    /// Produce the second copy.
    fn split(&mut self) -> Self;
}

impl<T: Clone> Split for T {
    fn split(&mut self) -> Self {
        self.clone()
    }
}

} // verus!
