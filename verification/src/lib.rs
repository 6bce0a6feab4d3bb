//! Core of an incremental bubble-sort visualization: a pool holding a
//! shuffled permutation of `1..=n`, a resumable single-comparison step
//! over adjacent pairs, a time-gated step scheduler, and the mapping from
//! pool state to bar geometry. Window, widget and font plumbing live
//! outside this crate.

pub mod convergence;
pub mod frame;
pub mod pool;
pub mod scheduler;
pub mod session;
pub mod stepper;
