//! GF(2^8) under the AES polynomial `0x11B`, generator `0x03`.

use super::gf8::{gf_mul, gf_mul_exec};
use vstd::prelude::*;

verus! {

/// The reduction byte of `0x11B`.
pub const RED: u8 = 0x1b;

/// An element of GF(2^8) under `0x11B`.
#[derive(Clone, Copy, Debug, PartialEq, Eq, Structural)]
pub struct Elem(pub u8);

/// `a * b` under `0x11B`.
pub open spec fn mul(a: u8, b: u8) -> u8 {
    gf_mul(0x1bu8, a, b)
}

impl Elem {
    /// The element with this byte.
    pub fn from_raw(v: u8) -> (r: Elem)
        ensures
            r.0 == v,
    {
        Elem(v)
    }

    /// The element's byte.
    pub fn to_raw(self) -> (r: u8)
        ensures
            r == self.0,
    {
        self.0
    }

    /// The field product.
    pub fn mul(self, rhs: Elem) -> (r: Elem)
        ensures
            r.0 == self::mul(self.0, rhs.0),
    {
        Elem(gf_mul_exec(RED, self.0, rhs.0))
    }
}

} // verus!
