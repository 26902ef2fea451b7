//! Waiting policies for the writer while readers drain.

use vstd::prelude::*;

use crate::interface::WaitStrategy;

verus! {

/// A waiter that does nothing: it reports itself saturated at once.
pub struct NoopWait {
    token: (),
}

impl NoopWait {
    /// Create the do-nothing waiter.
    pub fn new() -> (r: Self)
        ensures
            true,
    {
        NoopWait { token: () }
    }
}

impl WaitStrategy for NoopWait {
    type State = ();

    fn wait(&self, _state: &mut ()) -> (r: bool)
        ensures
            r,
    {
        true
    }

    fn notify(&self) {
    }
}

/// A waiter that spins with exponential backoff: each call spins twice as
/// long as the one before, up to a cap, and reports saturation at the cap.
pub struct SpinWait {
    token: (),
}

/// The backoff exponent at which the spinning stops growing.
pub const SPIN_CAP: u32 = 10;

impl SpinWait {
    /// Create the spinning waiter.
    pub fn new() -> (r: Self)
        ensures
            true,
    {
        SpinWait { token: () }
    }
}

impl WaitStrategy for SpinWait {
    type State = u32;

    fn wait(&self, counter: &mut u32) -> (r: bool)
        ensures
            r == (*old(counter) >= SPIN_CAP),
            *final(counter) == (if *old(counter) < SPIN_CAP {
                (*old(counter) + 1) as u32
            } else {
                (SPIN_CAP + 1) as u32
            }),
    {
        let count: u32 = if *counter < SPIN_CAP {
            *counter
        } else {
            SPIN_CAP
        };
        *counter = count + 1;
        let rounds: u64 = 1u64 << count;
        let mut i: u64 = 0;
        while i < rounds
            invariant
                i <= rounds,
            decreases rounds - i,
        {
            i = i + 1;
        }
        count == SPIN_CAP
    }

    fn notify(&self) {
    }
}

} // verus!
