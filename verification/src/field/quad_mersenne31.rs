//! GF((2^31 - 1)^2) with `i² = −1`: `(re, im)` pairs of Mersenne31 limbs,
//! stored as two consecutive little-endian `u32` lanes.

use super::mersenne31::{self, MODULUS};
use crate::lanes::lane32;
use vstd::arithmetic::div_mod::*;
use vstd::prelude::*;

verus! {

/// An element `re + im·i`, limbs possibly raw (not yet reduced).
#[derive(Clone, Copy, Debug, PartialEq, Eq, Structural)]
pub struct Elem {
    pub re: u32,
    pub im: u32,
}

/// The element `(re, im)` as a pair of limbs.
pub open spec fn limbs(e: Elem) -> (u32, u32) {
    (e.re, e.im)
}

/// The `e`-th element of a packed buffer: real limb first.
pub open spec fn elem_at(s: Seq<u8>, e: int) -> (u32, u32) {
    (lane32(s, 2 * e), lane32(s, 2 * e + 1))
}

/// Both limbs canonical.
pub open spec fn canon(x: (u32, u32)) -> (u32, u32) {
    (mersenne31::canon(x.0 as int), mersenne31::canon(x.1 as int))
}

/// `a + b`, canonical.
pub open spec fn add(a: (u32, u32), b: (u32, u32)) -> (u32, u32) {
    (mersenne31::add(a.0, b.0), mersenne31::add(a.1, b.1))
}

/// `a - b`, canonical.
pub open spec fn sub(a: (u32, u32), b: (u32, u32)) -> (u32, u32) {
    (mersenne31::sub(a.0, b.0), mersenne31::sub(a.1, b.1))
}

/// `a * b = (ar·br − ai·bi, ar·bi + ai·br)`, canonical.
pub open spec fn mul(a: (u32, u32), b: (u32, u32)) -> (u32, u32) {
    (
        mersenne31::canon(a.0 * b.0 - a.1 * b.1),
        mersenne31::canon(a.0 * b.1 + a.1 * b.0),
    )
}

/// The element is zero in the field (both limbs reduce to zero).
pub open spec fn is_zero(a: (u32, u32)) -> bool {
    canon(a) == (0u32, 0u32)
}

/// The element is one in the field.
pub open spec fn is_one(a: (u32, u32)) -> bool {
    canon(a) == (1u32, 0u32)
}

impl Elem {
    /// Zero.
    pub fn zero() -> (r: Elem)
        ensures
            limbs(r) == (0u32, 0u32),
    {
        Elem { re: 0, im: 0 }
    }

    /// One.
    pub fn one() -> (r: Elem)
        ensures
            limbs(r) == (1u32, 0u32),
    {
        Elem { re: 1, im: 0 }
    }

    /// The imaginary unit.
    pub fn i() -> (r: Elem)
        ensures
            limbs(r) == (0u32, 1u32),
    {
        Elem { re: 0, im: 1 }
    }

    /// An element from raw limbs.
    pub fn from_raw(re: u32, im: u32) -> (r: Elem)
        ensures
            r.re == re,
            r.im == im,
    {
        Elem { re, im }
    }

    /// The raw limbs, real first.
    pub fn to_raw(self) -> (r: (u32, u32))
        ensures
            r == limbs(self),
    {
        (self.re, self.im)
    }

    /// The same element with both limbs reduced below the modulus.
    pub fn canonical(self) -> (r: Elem)
        ensures
            limbs(r) == canon(limbs(self)),
            r.re < MODULUS,
            r.im < MODULUS,
    {
        Elem { re: reduce(self.re), im: reduce(self.im) }
    }
}

/// One limb reduced below the modulus.
fn reduce(x: u32) -> (r: u32)
    ensures
        r == mersenne31::canon(x as int),
        r < MODULUS,
{
    let r = x % MODULUS;
    proof {
        lemma_mod_bound(x as int, mersenne31::p());
    }
    r
}

} // verus!
