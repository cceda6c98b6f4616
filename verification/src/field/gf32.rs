//! GF(2^32) as the quadratic tower over GF(2^16).
//!
//! An element is `x0 + x1*v` with `x0, x1` in GF(2^16) and
//! `v^2 = v + DELTA`, stored as four bytes `[x0, x1]`, each half as GF(2^16)
//! stores it. A coefficient `c = c0 + c1*v` multiplies `x` as
//!
//! ```text
//! (c0*x0 + (DELTA*c1)*x1) + (c0*x1 + c1*x0 + c1*x1)*v
//! ```

use super::gf16::{self, mul_hi, mul_hi_exec, mul_lo, mul_lo_exec};
use super::gf8::lemma_xor_swap;
use vstd::prelude::*;

verus! {

/// The tower constant: `v^2 = v + DELTA`, the GF(2^16) element `0x20 * u`.
pub const DELTA: u16 = 0x2000;

/// An element of GF(2^32).
#[derive(Clone, Copy, Debug, PartialEq, Eq, Structural)]
pub struct Elem(pub u32);

/// The constant component `x0` of `x0 + x1*v`.
pub open spec fn lo(x: u32) -> u16 {
    (x & 0xffff) as u16
}

/// The `v` component `x1` of `x0 + x1*v`.
pub open spec fn hi(x: u32) -> u16 {
    (x >> 16u32) as u16
}

/// The element `a + b*v` as a `u32`.
pub open spec fn pack(a: u16, b: u16) -> u32 {
    (a as u32) | ((b as u32) << 16u32)
}

/// Byte `k` of a `u32`, least significant first.
pub open spec fn byte(x: u32, k: int) -> u8 {
    if k == 0 {
        (x & 0xff) as u8
    } else if k == 1 {
        ((x >> 8u32) & 0xff) as u8
    } else if k == 2 {
        ((x >> 16u32) & 0xff) as u8
    } else {
        ((x >> 24u32) & 0xff) as u8
    }
}

/// Packing and unpacking are inverse, commute with addition, and lay the
/// halves' bytes out in order.
pub proof fn lemma_pack(a: u16, b: u16, x: u32, y: u32)
    by (bit_vector)
    ensures
        lo(pack(a, b)) == a,
        hi(pack(a, b)) == b,
        pack(lo(x), hi(x)) == x,
        lo(x ^ y) == lo(x) ^ lo(y),
        hi(x ^ y) == hi(x) ^ hi(y),
        byte(pack(a, b), 0) == gf16::lo(a),
        byte(pack(a, b), 1) == gf16::hi(a),
        byte(pack(a, b), 2) == gf16::lo(b),
        byte(pack(a, b), 3) == gf16::hi(b),
{
}

/// Byte `t` (0 or 1) of `c * [y0, y1]` for a GF(2^16) coefficient `c`.
pub open spec fn m16(c: u16, y0: u8, y1: u8, t: int) -> u8 {
    if t == 0 {
        mul_lo(gf16::lo(c), gf16::hi(c), y0, y1)
    } else {
        mul_hi(gf16::lo(c), gf16::hi(c), y0, y1)
    }
}

/// Byte `k` of `c * x` for the element `x` with bytes `x0 .. x3`.
#[verifier::opaque]
pub open spec fn mul_byte(c: u32, x0: u8, x1: u8, x2: u8, x3: u8, k: int) -> u8 {
    let c0 = lo(c);
    let c1 = hi(c);
    let d = gf16::mul(DELTA, c1);
    if k < 2 {
        (m16(c0, x0, x1, k) ^ m16(d, x2, x3, k)) as u8
    } else {
        (m16(c0, x2, x3, k - 2) ^ m16(c1, x0, x1, k - 2) ^ m16(c1, x2, x3, k - 2)) as u8
    }
}

/// `c * x` in GF(2^32).
pub open spec fn mul(c: u32, x: u32) -> u32 {
    let x0 = byte(x, 0);
    let x1 = byte(x, 1);
    let x2 = byte(x, 2);
    let x3 = byte(x, 3);
    pack(
        gf16::pack(mul_byte(c, x0, x1, x2, x3, 0), mul_byte(c, x0, x1, x2, x3, 1)),
        gf16::pack(mul_byte(c, x0, x1, x2, x3, 2), mul_byte(c, x0, x1, x2, x3, 3)),
    )
}

/// The bytes of `c * x` for the element with bytes `x0 .. x3`: the
/// portable scalar multiply.
pub fn mul_bytes(c: u32, x0: u8, x1: u8, x2: u8, x3: u8) -> (r: (u8, u8, u8, u8))
    ensures
        r.0 == mul_byte(c, x0, x1, x2, x3, 0),
        r.1 == mul_byte(c, x0, x1, x2, x3, 1),
        r.2 == mul_byte(c, x0, x1, x2, x3, 2),
        r.3 == mul_byte(c, x0, x1, x2, x3, 3),
{
    reveal(mul_byte);
    let c0 = (c & 0xffff) as u16;
    let c1 = (c >> 16u32) as u16;
    let d = gf16::Elem(DELTA).mul(gf16::Elem(c1)).0;
    let (a0, a1) = gf16::Elem(c0).components();
    let (b0, b1) = gf16::Elem(c1).components();
    let (d0, d1) = gf16::Elem(d).components();
    (
        mul_lo_exec(a0, a1, x0, x1) ^ mul_lo_exec(d0, d1, x2, x3),
        mul_hi_exec(a0, a1, x0, x1) ^ mul_hi_exec(d0, d1, x2, x3),
        mul_lo_exec(a0, a1, x2, x3) ^ mul_lo_exec(b0, b1, x0, x1) ^ mul_lo_exec(b0, b1, x2, x3),
        mul_hi_exec(a0, a1, x2, x3) ^ mul_hi_exec(b0, b1, x0, x1) ^ mul_hi_exec(b0, b1, x2, x3),
    )
}

impl Elem {
    /// The components `(x0, x1)` of `x0 + x1*v`.
    pub fn components(self) -> (r: (gf16::Elem, gf16::Elem))
        ensures
            r.0.0 == lo(self.0),
            r.1.0 == hi(self.0),
    {
        (gf16::Elem((self.0 & 0xffff) as u16), gf16::Elem((self.0 >> 16u32) as u16))
    }

    /// `self * rhs`.
    pub fn mul(self, rhs: Elem) -> (r: Elem)
        ensures
            r.0 == self::mul(self.0, rhs.0),
    {
        let x = rhs.0;
        let x0 = (x & 0xff) as u8;
        let x1 = ((x >> 8u32) & 0xff) as u8;
        let x2 = ((x >> 16u32) & 0xff) as u8;
        let x3 = ((x >> 24u32) & 0xff) as u8;
        let (r0, r1, r2, r3) = mul_bytes(self.0, x0, x1, x2, x3);
        let l = (r0 as u16) | ((r1 as u16) << 8u16);
        let h = (r2 as u16) | ((r3 as u16) << 8u16);
        Elem((l as u32) | ((h as u32) << 16u32))
    }
}

/// A GF(2^16) coefficient product is additive in the coefficient.
pub proof fn lemma_m16_linear(c: u16, e: u16, a: u8, b: u8, t: int)
    ensures
        m16(c ^ e, a, b, t) == m16(c, a, b, t) ^ m16(e, a, b, t),
{
    gf16::lemma_pack(0, 0, c, e);
    gf16::lemma_mul_linear(gf16::lo(c), gf16::hi(c), gf16::lo(e), gf16::hi(e), a, b);
}

/// `DELTA * (c1 + e1) == DELTA * c1 + DELTA * e1`, seen through the bytes a
/// coefficient product reads.
proof fn lemma_delta_linear(c1: u16, e1: u16, a: u8, b: u8, t: int)
    ensures
        m16(gf16::mul(DELTA, c1 ^ e1), a, b, t) == m16(gf16::mul(DELTA, c1), a, b, t) ^ m16(
            gf16::mul(DELTA, e1),
            a,
            b,
            t,
        ),
{
    let p0 = gf16::lo(DELTA);
    let p1 = gf16::hi(DELTA);
    let dc = gf16::mul(DELTA, c1);
    let de = gf16::mul(DELTA, e1);
    let dce = gf16::mul(DELTA, c1 ^ e1);
    gf16::lemma_pack(0, 0, c1, e1);
    gf16::lemma_mul_linear_right(p0, p1, gf16::lo(c1), gf16::hi(c1), gf16::lo(e1), gf16::hi(e1));
    gf16::lemma_pack(
        mul_lo(p0, p1, gf16::lo(c1), gf16::hi(c1)),
        mul_hi(p0, p1, gf16::lo(c1), gf16::hi(c1)),
        dc,
        de,
    );
    gf16::lemma_pack(
        mul_lo(p0, p1, gf16::lo(e1), gf16::hi(e1)),
        mul_hi(p0, p1, gf16::lo(e1), gf16::hi(e1)),
        0,
        0,
    );
    gf16::lemma_pack(
        mul_lo(p0, p1, gf16::lo(c1 ^ e1), gf16::hi(c1 ^ e1)),
        mul_hi(p0, p1, gf16::lo(c1 ^ e1), gf16::hi(c1 ^ e1)),
        0,
        0,
    );
    assert(gf16::lo(dce) == gf16::lo(dc ^ de));
    assert(gf16::hi(dce) == gf16::hi(dc ^ de));
    lemma_m16_linear(dc, de, a, b, t);
}

/// The GF(2^32) coefficient product is additive in the coefficient.
pub proof fn lemma_mul_byte_linear(c: u32, e: u32, x0: u8, x1: u8, x2: u8, x3: u8, k: int)
    requires
        0 <= k < 4,
    ensures
        mul_byte(c ^ e, x0, x1, x2, x3, k) == mul_byte(c, x0, x1, x2, x3, k) ^ mul_byte(
            e,
            x0,
            x1,
            x2,
            x3,
            k,
        ),
{
    reveal(mul_byte);
    lemma_pack(0, 0, c, e);
    let c0 = lo(c);
    let c1 = hi(c);
    let e0 = lo(e);
    let e1 = hi(e);
    if k < 2 {
        lemma_m16_linear(c0, e0, x0, x1, k);
        lemma_delta_linear(c1, e1, x2, x3, k);
        lemma_xor_swap(
            m16(c0, x0, x1, k),
            m16(e0, x0, x1, k),
            m16(gf16::mul(DELTA, c1), x2, x3, k),
            m16(gf16::mul(DELTA, e1), x2, x3, k),
        );
    } else {
        let t = k - 2;
        lemma_m16_linear(c0, e0, x2, x3, t);
        lemma_m16_linear(c1, e1, x0, x1, t);
        lemma_m16_linear(c1, e1, x2, x3, t);
        let a = m16(c0, x2, x3, t);
        let b = m16(e0, x2, x3, t);
        let p = m16(c1, x0, x1, t);
        let q = m16(e1, x0, x1, t);
        let u = m16(c1, x2, x3, t);
        let v = m16(e1, x2, x3, t);
        lemma_xor_swap(a, b, p, q);
        lemma_xor_swap(a ^ p, b ^ q, u, v);
    }
}

} // verus!
