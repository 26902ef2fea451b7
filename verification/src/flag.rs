//! The one-bit indicator of which physical buffer is currently the write side.

use vstd::prelude::*;

verus! {

/// A one-bit flag recording which of the two buffers is the write side.
///
/// `load` returns the current value and `flip` toggles it. In this
/// single-owner setting every load is ordered with every flip by program
/// order, so a reader that loads after a flip observes the flip.
pub struct Flag {
    which: bool,
}

impl View for Flag {
    type V = bool;

    closed spec fn view(&self) -> bool {
        self.which
    }
}

impl Flag {
    /// Create a flag; a fresh flag always loads `false`.
    pub fn new() -> (r: Self)
        ensures
            r@ == false,
    {
        Flag { which: false }
    }

    /// Load the flag.
    pub fn load(&self) -> (r: bool)
        ensures
            r == self@,
    {
        self.which
    }

    /// Toggle the flag.
    pub fn flip(&mut self)
        ensures
            final(self)@ == !old(self)@,
    {
        self.which = !self.which;
    }
}

} // verus!
