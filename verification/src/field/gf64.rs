//! GF(2^64) as the quadratic tower over GF(2^32).
//!
//! An element is `x0 + x1*w` with `x0, x1` in GF(2^32) and
//! `w^2 = w + DELTA`, stored as eight bytes `[x0, x1]`, each half as
//! GF(2^32) stores it. A coefficient `c = c0 + c1*w` multiplies `x` as
//!
//! ```text
//! (c0*x0 + (DELTA*c1)*x1) + (c0*x1 + c1*x0 + c1*x1)*w
//! ```

use super::gf32;
use vstd::prelude::*;

verus! {

/// The tower constant: `w^2 = w + DELTA`, the GF(2^32) element
/// `0x2000 * v`.
pub const DELTA: u32 = 0x2000_0000;

/// An element of GF(2^64).
#[derive(Clone, Copy, Debug, PartialEq, Eq, Structural)]
pub struct Elem(pub u64);

/// The constant component `x0` of `x0 + x1*w`.
pub open spec fn lo(x: u64) -> u32 {
    (x & 0xffff_ffff) as u32
}

/// The `w` component `x1` of `x0 + x1*w`.
pub open spec fn hi(x: u64) -> u32 {
    (x >> 32u64) as u32
}

/// The element `a + b*w` as a `u64`.
pub open spec fn pack(a: u32, b: u32) -> u64 {
    (a as u64) | ((b as u64) << 32u64)
}

/// Byte `k` of a `u64`, least significant first.
pub open spec fn byte(x: u64, k: int) -> u8 {
    if k < 4 {
        gf32::byte(lo(x), k)
    } else {
        gf32::byte(hi(x), k - 4)
    }
}

/// Packing and unpacking are inverse and commute with addition.
pub proof fn lemma_pack(a: u32, b: u32, x: u64, y: u64)
    by (bit_vector)
    ensures
        lo(pack(a, b)) == a,
        hi(pack(a, b)) == b,
        pack(lo(x), hi(x)) == x,
        lo(x ^ y) == lo(x) ^ lo(y),
        hi(x ^ y) == hi(x) ^ hi(y),
{
}

/// Byte `t` (0 .. 3) of `c * [y0 .. y3]` for a GF(2^32) coefficient `c`.
pub open spec fn m32(c: u32, y0: u8, y1: u8, y2: u8, y3: u8, t: int) -> u8 {
    gf32::mul_byte(c, y0, y1, y2, y3, t)
}

/// Byte `k` of `c * x` for the element `x` with bytes `x0 .. x7`.
#[verifier::opaque]
pub open spec fn mul_byte(
    c: u64,
    x0: u8,
    x1: u8,
    x2: u8,
    x3: u8,
    x4: u8,
    x5: u8,
    x6: u8,
    x7: u8,
    k: int,
) -> u8 {
    let c0 = lo(c);
    let c1 = hi(c);
    let d = gf32::mul(DELTA, c1);
    if k < 4 {
        (m32(c0, x0, x1, x2, x3, k) ^ m32(d, x4, x5, x6, x7, k)) as u8
    } else {
        (m32(c0, x4, x5, x6, x7, k - 4) ^ m32(c1, x0, x1, x2, x3, k - 4) ^ m32(
            c1,
            x4,
            x5,
            x6,
            x7,
            k - 4,
        )) as u8
    }
}

/// The bytes of `c * x` for the element with bytes `x`: the portable
/// scalar multiply.
pub fn mul_bytes(c: u64, x: [u8; 8]) -> (r: [u8; 8])
    ensures
        forall|k: int|
            0 <= k < 8 ==> #[trigger] r@[k] == mul_byte(
                c,
                x@[0],
                x@[1],
                x@[2],
                x@[3],
                x@[4],
                x@[5],
                x@[6],
                x@[7],
                k,
            ),
{
    reveal(mul_byte);
    let c0 = (c & 0xffff_ffff) as u32;
    let c1 = (c >> 32u64) as u32;
    let d = gf32::Elem(DELTA).mul(gf32::Elem(c1)).0;
    let (a0, a1, a2, a3) = gf32::mul_bytes(c0, x[0], x[1], x[2], x[3]);
    let (b0, b1, b2, b3) = gf32::mul_bytes(d, x[4], x[5], x[6], x[7]);
    let (e0, e1, e2, e3) = gf32::mul_bytes(c0, x[4], x[5], x[6], x[7]);
    let (f0, f1, f2, f3) = gf32::mul_bytes(c1, x[0], x[1], x[2], x[3]);
    let (g0, g1, g2, g3) = gf32::mul_bytes(c1, x[4], x[5], x[6], x[7]);
    let r = [
        a0 ^ b0,
        a1 ^ b1,
        a2 ^ b2,
        a3 ^ b3,
        e0 ^ f0 ^ g0,
        e1 ^ f1 ^ g1,
        e2 ^ f2 ^ g2,
        e3 ^ f3 ^ g3,
    ];
    assert forall|k: int| 0 <= k < 8 implies #[trigger] r@[k] == mul_byte(
        c,
        x@[0],
        x@[1],
        x@[2],
        x@[3],
        x@[4],
        x@[5],
        x@[6],
        x@[7],
        k,
    ) by {
        if k == 0 {
        } else if k == 1 {
        } else if k == 2 {
        } else if k == 3 {
        } else if k == 4 {
        } else if k == 5 {
        } else if k == 6 {
        } else {
        }
    }
    r
}

impl Elem {
    /// The components `(x0, x1)` of `x0 + x1*w`.
    pub fn components(self) -> (r: (gf32::Elem, gf32::Elem))
        ensures
            r.0.0 == lo(self.0),
            r.1.0 == hi(self.0),
    {
        (gf32::Elem((self.0 & 0xffff_ffff) as u32), gf32::Elem((self.0 >> 32u64) as u32))
    }
}

} // verus!
