//! Synchronization strategies that coordinate the writer and the readers of a
//! double buffer.

pub mod hazard;
pub mod local;
pub mod local_tracking;

pub use hazard::HazardStrategy;
pub use local::LocalStrategy;
pub use local_tracking::LocalTrackingStrategy;

