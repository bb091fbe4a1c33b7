//! A personal knowledge store engine: notes are classified on entry,
//! kept consistent with a derived full-text search index, and scheduled
//! for review with a spaced-repetition algorithm.
//!
//! The engine itself performs no input or output: callers hand it plain
//! values (text, timestamps, ratings) and receive plain values back.

pub mod classifier;
pub mod engine;
pub mod error;
pub mod index;
pub mod scheduler;
pub mod store;
pub mod text;
