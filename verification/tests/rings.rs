use solar::rings::field_prime::GF2;
use solar::rings::ring::{DivisionRing, Ring, Semiring};

#[test]
#[allow(non_snake_case)]
fn test_GF2() {
    let ring = GF2 {};

    assert!(!ring.is_0(true));
    assert!(ring.is_0(false));
    assert!(ring.is_1(true));
    assert!(!ring.is_1(false));
    assert!(ring.invert(true));
    assert!(ring.negate(true));
    assert!(!ring.negate(false));
    assert!(!ring.add(false, false));
    assert!(ring.add(false, true));
    assert!(ring.add(true, false));
    assert!(!ring.add(true, true));
    assert!(!ring.subtract(false, false));
    assert!(ring.subtract(false, true));
    assert!(ring.subtract(true, false));
    assert!(!ring.subtract(true, true));
    assert!(!ring.multiply(false, false));
    assert!(!ring.multiply(false, true));
    assert!(!ring.multiply(true, false));
    assert!(ring.multiply(true, true));
    assert!(!ring.divide(false, true));
    assert!(ring.divide(true, true));
}

#[test]
fn gf2_new_is_the_unit_struct() {
    let ring = GF2::new();
    assert!(ring.add(true, false));
    assert!(!GF2::zero());
    assert!(GF2::one());
}

#[test]
fn gf2_addition_is_xor_and_multiplication_is_and() {
    let ring = GF2::new();
    for x in [false, true] {
        for y in [false, true] {
            assert_eq!(ring.add(x, y), x ^ y);
            assert_eq!(ring.multiply(x, y), x & y);
            assert_eq!(ring.subtract(x, y), ring.add(x, ring.negate(y)));
        }
    }
}

#[test]
fn gf2_division_by_one_is_multiplication_by_the_inverse() {
    let ring = GF2::new();
    for x in [false, true] {
        assert_eq!(ring.divide(x, true), ring.multiply(x, ring.invert(true)));
    }
}

/// A ring of floating point numbers, written down outside the library.
#[derive(Clone, Copy)]
struct Floats;

impl Semiring<f64> for Floats {
    fn is_zero(&self, x: f64) -> bool {
        x == 0.0
    }
    fn is_unit(&self, x: f64) -> bool {
        x == 1.0
    }
    fn zero_elt() -> f64 {
        0.0
    }
    fn one_elt() -> f64 {
        1.0
    }
    fn sum(&self, x: f64, y: f64) -> f64 {
        x + y
    }
    fn product(&self, x: f64, y: f64) -> f64 {
        x * y
    }
    fn is_0(&self, x: f64) -> bool {
        x == 0.0
    }
    fn is_1(&self, x: f64) -> bool {
        x == 1.0
    }
    fn zero() -> f64 {
        0.0
    }
    fn one() -> f64 {
        1.0
    }
    fn add(&self, x: f64, y: f64) -> f64 {
        x + y
    }
    fn multiply(&self, x: f64, y: f64) -> f64 {
        x * y
    }
}

#[test]
fn a_ring_can_be_implemented_outside_the_library() {
    let ring = Floats;
    assert_eq!(ring.add(1.5, 2.0), 3.5);
    assert_eq!(ring.multiply(1.5, 2.0), 3.0);
    assert!(ring.is_0(Floats::zero()));
    assert!(ring.is_1(Floats::one()));
}
