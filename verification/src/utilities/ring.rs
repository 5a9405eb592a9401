//! Signs.

use vstd::prelude::*;
use crate::rings::ring::Ring;

verus! {

/// Powers of minus one.
pub trait MinusOneToPower<RingElt> {
    /// Minus one to the power `k`: one if `k` is even, minus one if `k` is
    /// odd.
    spec fn sign(&self, k: usize) -> RingElt;

    /// Return minus one to the power `k`.
    fn minus_one_to_power(&self, k: usize) -> (r: RingElt)
        ensures
            r == self.sign(k),
    ;
}

impl<RingOp, RingElt> MinusOneToPower<RingElt> for RingOp where RingOp: Ring<RingElt> {
    open spec fn sign(&self, k: usize) -> RingElt {
        if k % 2 == 0 {
            RingOp::one_elt()
        } else {
            self.negation(RingOp::one_elt())
        }
    }

    fn minus_one_to_power(&self, k: usize) -> (r: RingElt) {
        if k % 2 == 0 {
            RingOp::one()
        } else {
            self.negate(RingOp::one())
        }
    }
}

} // verus!
