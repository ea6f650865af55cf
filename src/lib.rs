//! Thread lifecycle of a discussion board: bounded active and archive
//! queues, pinned threads exempt from eviction, and monotonically numbered
//! posts.
pub mod error;
pub mod queue;
pub mod ids;
pub mod post;
pub mod thread;
pub mod board;
pub mod laws;
pub mod config;
