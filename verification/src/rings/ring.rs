//! Traits for semirings, rings, and division rings.

use vstd::prelude::*;

verus! {

/// Basic operations for semirings.
///
/// Each operation has a mathematical counterpart (`sum`, `product`, ...)
/// which contracts throughout the crate refer to.  An implementor promises
/// that the executable operation computes its counterpart; whether the
/// counterparts obey the semiring axioms is the implementor's business, and
/// functions that need an axiom ask for it explicitly.
pub trait Semiring<Element> {
    /// Whether `x` is the additive identity.
    spec fn is_zero(&self, x: Element) -> bool;

    /// Whether `x` is the multiplicative identity.
    spec fn is_unit(&self, x: Element) -> bool;

    /// The additive identity.
    spec fn zero_elt() -> Element;

    /// The multiplicative identity.
    spec fn one_elt() -> Element;

    /// The sum `x + y`.
    spec fn sum(&self, x: Element, y: Element) -> Element;

    /// The product `x * y`.
    spec fn product(&self, x: Element, y: Element) -> Element;

    /// True iff `x` is the additive identity.
    fn is_0(&self, x: Element) -> (r: bool)
        ensures
            r == self.is_zero(x),
    ;

    /// True iff `x` is the multiplicative identity.
    fn is_1(&self, x: Element) -> (r: bool)
        ensures
            r == self.is_unit(x),
    ;

    /// Return the additive identity.
    fn zero() -> (r: Element)
        ensures
            r == Self::zero_elt(),
    ;

    /// Return the multiplicative identity.
    fn one() -> (r: Element)
        ensures
            r == Self::one_elt(),
    ;

    /// Add
    fn add(&self, x: Element, y: Element) -> (r: Element)
        ensures
            r == self.sum(x, y),
    ;

    /// Multiply
    fn multiply(&self, x: Element, y: Element) -> (r: Element)
        ensures
            r == self.product(x, y),
    ;
}

/// Basic operations for **unital** rings.
pub trait Ring<Element>: Semiring<Element> {
    /// The difference `x - y`.
    spec fn difference(&self, x: Element, y: Element) -> Element;

    /// The additive inverse `-x`.
    spec fn negation(&self, x: Element) -> Element;

    /// Subtract y from x.
    fn subtract(&self, x: Element, y: Element) -> (r: Element)
        ensures
            r == self.difference(x, y),
    ;

    /// Reverse the sign of x.
    fn negate(&self, x: Element) -> (r: Element)
        ensures
            r == self.negation(x),
    ;
}

/// Basic operations for division rings.
///
/// Division by the additive identity is not part of the interface: `divide`
/// and `invert` may only be called with a divisor that is not zero.
pub trait DivisionRing<Element>: Ring<Element> {
    /// The quotient `x / y`, meaningful when `y` is not zero.
    spec fn quotient(&self, x: Element, y: Element) -> Element;

    /// The multiplicative inverse `1 / x`, meaningful when `x` is not zero.
    spec fn inverse(&self, x: Element) -> Element;

    /// Divide
    fn divide(&self, x: Element, y: Element) -> (r: Element)
        requires
            !self.is_zero(y),
        ensures
            r == self.quotient(x, y),
    ;

    /// Invert
    fn invert(&self, x: Element) -> (r: Element)
        requires
            !self.is_zero(x),
        ensures
            r == self.inverse(x),
    ;
}

//  ---------------------------------------------------------------------------
//  REFERENCES TO RING OPERATORS
//  ---------------------------------------------------------------------------
//  A reference to a ring operator is a ring operator.
impl<'a, Element, R: Semiring<Element>> Semiring<Element> for &'a R {
    open spec fn is_zero(&self, x: Element) -> bool {
        (**self).is_zero(x)
    }

    open spec fn is_unit(&self, x: Element) -> bool {
        (**self).is_unit(x)
    }

    open spec fn zero_elt() -> Element {
        R::zero_elt()
    }

    open spec fn one_elt() -> Element {
        R::one_elt()
    }

    open spec fn sum(&self, x: Element, y: Element) -> Element {
        (**self).sum(x, y)
    }

    open spec fn product(&self, x: Element, y: Element) -> Element {
        (**self).product(x, y)
    }

    fn is_0(&self, x: Element) -> (r: bool) {
        (**self).is_0(x)
    }

    fn is_1(&self, x: Element) -> (r: bool) {
        (**self).is_1(x)
    }

    fn zero() -> (r: Element) {
        R::zero()
    }

    fn one() -> (r: Element) {
        R::one()
    }

    fn add(&self, x: Element, y: Element) -> (r: Element) {
        (**self).add(x, y)
    }

    fn multiply(&self, x: Element, y: Element) -> (r: Element) {
        (**self).multiply(x, y)
    }
}

//  ---------------------------------------------------------------------------
//  AXIOMS THAT A RING OPERATOR MAY OBEY
//  ---------------------------------------------------------------------------
/// Addition is associative: `(x + y) + z == x + (y + z)`.
pub open spec fn sum_is_associative<Element, R: Semiring<Element>>(ring: R) -> bool {
    forall|x: Element, y: Element, z: Element|
        #![trigger ring.sum(ring.sum(x, y), z)]
        #![trigger ring.sum(x, ring.sum(y, z))]
        ring.sum(ring.sum(x, y), z) == ring.sum(x, ring.sum(y, z))
}

/// Multiplication is associative: `(x * y) * z == x * (y * z)`.
pub open spec fn product_is_associative<Element, R: Semiring<Element>>(ring: R) -> bool {
    forall|x: Element, y: Element, z: Element|
        #![trigger ring.product(ring.product(x, y), z)]
        #![trigger ring.product(x, ring.product(y, z))]
        ring.product(ring.product(x, y), z) == ring.product(x, ring.product(y, z))
}

/// Adding the right multiple of a nonzero `p` cancels any `v`:
/// `v + p * (-v / p)` is zero.
pub open spec fn quotient_cancels<Element, R: DivisionRing<Element>>(ring: R) -> bool {
    forall|v: Element, p: Element|
        #![trigger ring.product(p, ring.quotient(ring.negation(v), p))]
        !ring.is_zero(p) ==> ring.is_zero(
            ring.sum(v, ring.product(p, ring.quotient(ring.negation(v), p))),
        )
}

} // verus!
