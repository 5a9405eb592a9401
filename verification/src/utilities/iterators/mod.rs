//! Streams of items, and ways to merge them.

pub mod hit_merge;
pub mod utility;
