//! Objects representing prime fields.

use vstd::prelude::*;
use crate::rings::ring::{
    product_is_associative, quotient_cancels, sum_is_associative, DivisionRing, Ring, Semiring,
};

verus! {

/// The two element field: `false` is 0 and `true` is 1.
#[derive(Debug, Clone, Copy)]
pub struct GF2 {}

impl GF2 {
    /// Create a new instance of `GF2`.
    ///
    /// The commands `GF2::new()` and `GF2{}` are equivalent; `new` is there so
    /// that one ring object is constructed like any other.
    pub fn new() -> (r: GF2)
        ensures
            r == (GF2 {}),
    {
        GF2 {}
    }
}

impl Semiring<bool> for GF2 {
    open spec fn is_zero(&self, x: bool) -> bool {
        !x
    }

    open spec fn is_unit(&self, x: bool) -> bool {
        x
    }

    open spec fn zero_elt() -> bool {
        false
    }

    open spec fn one_elt() -> bool {
        true
    }

    /// Addition is exclusive or.
    open spec fn sum(&self, x: bool, y: bool) -> bool {
        x != y
    }

    /// Multiplication is conjunction.
    open spec fn product(&self, x: bool, y: bool) -> bool {
        x && y
    }

    fn is_0(&self, x: bool) -> (r: bool) {
        !x
    }

    fn is_1(&self, x: bool) -> (r: bool) {
        x
    }

    fn zero() -> (r: bool) {
        false
    }

    fn one() -> (r: bool) {
        true
    }

    fn add(&self, x: bool, y: bool) -> (r: bool)
        ensures
            r == (x ^ y),
            r == ((x || y) && !(x && y)),
    {
        x ^ y
    }

    fn multiply(&self, x: bool, y: bool) -> (r: bool)
        ensures
            r == (x && y),
    {
        x && y
    }
}

impl Ring<bool> for GF2 {
    open spec fn difference(&self, x: bool, y: bool) -> bool {
        x != y
    }

    /// Every element is its own additive inverse.
    open spec fn negation(&self, x: bool) -> bool {
        x
    }

    fn subtract(&self, x: bool, y: bool) -> (r: bool) {
        x ^ y
    }

    fn negate(&self, x: bool) -> (r: bool) {
        x
    }
}

impl DivisionRing<bool> for GF2 {
    /// The only divisor is 1.
    open spec fn quotient(&self, x: bool, y: bool) -> bool {
        x
    }

    /// The only invertible element is 1.
    open spec fn inverse(&self, x: bool) -> bool {
        x
    }

    fn divide(&self, x: bool, _y: bool) -> (r: bool) {
        x
    }

    fn invert(&self, x: bool) -> (r: bool) {
        x
    }
}

/// The operations of `GF2` are those of the integers modulo 2: addition is
/// exclusive or, multiplication is conjunction, both are associative, and
/// division by 1 cancels.
pub proof fn gf2_is_a_field(ring: GF2)
    ensures
        forall|x: bool, y: bool| #[trigger] ring.sum(x, y) == (x ^ y),
        forall|x: bool, y: bool| #[trigger] ring.product(x, y) == (x && y),
        forall|x: bool, y: bool|
            (if #[trigger] ring.sum(x, y) { 1int } else { 0int }) == ((if x { 1int } else { 0int })
                + (if y { 1int } else { 0int })) % 2,
        forall|x: bool, y: bool|
            (if #[trigger] ring.product(x, y) { 1int } else { 0int }) == ((if x { 1int } else {
                0int
            }) * (if y { 1int } else { 0int })) % 2,
        forall|x: bool| ring.is_zero(ring.sum(x, #[trigger] ring.negation(x))),
        sum_is_associative(ring),
        product_is_associative(ring),
        quotient_cancels(ring),
{
}

} // verus!
