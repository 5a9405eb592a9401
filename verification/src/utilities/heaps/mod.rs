//! Binary heaps.

pub mod heap;
