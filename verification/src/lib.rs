//! Verified core of a live HLS capture engine.
//!
//! The library models playlist resolution, per-stream segment discovery,
//! the fetch request data (byte ranges, URLs), and the segment writer's
//! bookkeeping. Network and filesystem work is left to the surrounding
//! application, which drives these verified state machines.

pub mod digits;
pub mod engine;
pub mod errors;
pub mod playlist;
pub mod poller;
pub mod resolver;
pub mod segment;
pub mod stream;
pub mod urls;
pub mod writer;

