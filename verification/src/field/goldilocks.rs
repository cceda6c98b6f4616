//! GF(2^64 - 2^32 + 1), stored as `u64` lanes.

use vstd::prelude::*;

verus! {

/// The Goldilocks prime `2^64 - 2^32 + 1`.
pub const MODULUS: u64 = 0xFFFF_FFFF_0000_0001;

/// `2^64 mod p`, the fold constant `2^32 - 1`.
pub const EPS: u64 = 0xFFFF_FFFF;

/// The modulus as a mathematical integer.
pub open spec fn p() -> int {
    0xFFFF_FFFF_0000_0001
}

/// The canonical residue of an integer.
pub open spec fn canon(x: int) -> u64 {
    (x % p()) as u64
}

/// `a + b (mod p)` of two raw lanes, canonical.
pub open spec fn add(a: u64, b: u64) -> u64 {
    canon(a + b)
}

/// `a - b (mod p)` of two raw lanes, canonical.
pub open spec fn sub(a: u64, b: u64) -> u64 {
    canon(a - b)
}

/// `a * b (mod p)` of two raw lanes, canonical.
pub open spec fn mul(a: u64, b: u64) -> u64 {
    canon(a * b)
}

} // verus!
