//! A minimal fixed-size worker-pool abstraction for partitioning an
//! embarrassingly-parallel reduction over an integer range across a fixed
//! number of one-shot tasks.
//!
//! The crate provides three pieces:
//! - partition arithmetic: how task `i` of `n` selects the sub-range of
//!   `[1, w]` it owns, with the last task absorbing the remainder;
//! - a model of the pool's work queue: submission, first-in-first-out
//!   delivery to exactly one worker, and shutdown;
//! - the caller-side completion protocol: a dispatch-index counter and a
//!   completion counter that together tell the caller when a round of
//!   tasks has finished.

pub mod partition;
pub mod pool;
pub mod round;
