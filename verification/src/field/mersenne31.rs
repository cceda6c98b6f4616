//! GF(2^31 - 1), stored as `u32` lanes.

use vstd::prelude::*;

verus! {

/// The Mersenne prime `2^31 - 1`.
pub const MODULUS: u32 = 0x7fff_ffff;

/// The modulus as a mathematical integer.
pub open spec fn p() -> int {
    0x7fff_ffff
}

/// The canonical residue of a raw lane.
pub open spec fn canon(x: int) -> u32 {
    (x % p()) as u32
}

/// `a + b (mod p)` of two raw lanes, canonical.
pub open spec fn add(a: u32, b: u32) -> u32 {
    canon(a + b)
}

/// `a - b (mod p)` of two raw lanes, canonical.
pub open spec fn sub(a: u32, b: u32) -> u32 {
    canon(a - b)
}

/// `a * b (mod p)` of two raw lanes, canonical.
pub open spec fn mul(a: u32, b: u32) -> u32 {
    canon(a * b)
}

} // verus!
