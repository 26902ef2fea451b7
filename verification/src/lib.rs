//! A double-buffered in-memory data store.
//!
//! A single writer mutates one half of a buffer pair while readers observe
//! a consistent snapshot of the other half; at controlled moments the two
//! halves are swapped, and once no reader still observes the old write side
//! the writer resumes mutating it.

use vstd::prelude::*;

mod flag;

pub mod delayed;
pub mod interface;
pub mod laws;
pub mod op;
pub mod op_log;
pub mod ordbag;
pub mod order;
pub mod pixel;
pub mod raw;
pub mod split;
pub mod strategy;
pub mod wait;

pub use flag::Flag;

verus! {

/// A compile-time witness that a type can cross threads: the writer and the
/// readers of one double buffer may live on different threads.
pub fn assert_send_sync<T: Send + Sync>() {
}

} // verus!
