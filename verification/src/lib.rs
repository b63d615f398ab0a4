//! A verified chunked-scan matching engine.
//!
//! The library decides which keys of a large table also appear in a smaller
//! reference set.  The table is scanned in bounded chunks that a cursor
//! allocator hands out to workers; each worker filters its chunks against the
//! shared reference set and appends the matches to a common aggregator.
//! Storage access and thread plumbing live outside the library; everything
//! that decides what a match is, how the table is partitioned, and how the
//! results are merged is verified here.

pub mod aggregator;
pub mod cursor;
pub mod engine;
pub mod errors;
pub mod matching;
pub mod normalize;
pub mod refset;
pub mod worker;
