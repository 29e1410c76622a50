//! Verified core of a cold-storage pre-warmer.
//!
//! The pre-warmer walks a directory tree, keeps the regular files that were
//! last modified at least a retention threshold ago, and then reads their
//! contents so that a tiered storage backend promotes them to a fast tier.
//! This crate holds the part of that pipeline with real logic: the age
//! filter over walked entries, the exhaustive and non-overlapping chunking
//! of the candidate list, the two-pass scheduler that first sizes the work
//! and then warms it chunk by chunk against a fresh engine instance each
//! time, and the byte-progress accounting. The walk, the parallel file
//! reads and the progress rendering stay at the program's edge.

pub mod chunking;
pub mod locator;
pub mod progress;
pub mod scheduler;
