//! A model of a spin lock built on a single two-valued atomic flag, together
//! with a contention harness that exercises the lock protocol under arbitrary
//! interleavings of workers and proves the resulting counter total.

pub mod contention;
pub mod spin_mutex;
