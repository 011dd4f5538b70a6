//! A time-limited membership set.
//!
//! [`TimedSet`] tracks distinct values, each considered present only until a
//! fixed time-to-live (TTL) elapses after its insertion. Membership is checked
//! lazily against the wall clock; traversal drains the structure, silently
//! skipping entries whose expiry has passed.

mod clock;
pub mod entries;
pub mod laws;
pub mod timed_set;

pub use timed_set::Iter;
pub use timed_set::TimedSet;
