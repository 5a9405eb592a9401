//! Rings, semirings, division rings.
//!
//! Ring operations are carried out by a *ring operator*: a stateless object
//! that knows how to add, multiply, negate and divide elements of some type.

pub mod ring;
pub mod field_prime;
