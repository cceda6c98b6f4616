//! GF(2^16) as the quadratic tower over `Gf8B`.
//!
//! An element is `a + b*u` with `a, b` in `Gf8B` and `u^2 = u + DELTA`,
//! stored as the two bytes `[a, b]`, constant component first (the `u16`
//! `a | b << 8`). The product of `p = p0 + p1*u` and `q = q0 + q1*u` is
//!
//! ```text
//! (p0*q0 + DELTA*(p1*q1)) + (p0*q1 + p1*q0 + p1*q1)*u
//! ```

use super::gf8::{
    gf_mul, gf_mul_exec, lemma_mul_distributes_left, lemma_mul_distributes_right, lemma_mul_zero_left,
    lemma_xor_swap, lemma_xor_zero,
};
use vstd::prelude::*;

verus! {

/// The tower constant: `u^2 = u + DELTA`.
pub const DELTA: u8 = 0x20;

/// `DELTA * (c * b) == (DELTA * c) * b`, the associativity the tower needs.
pub open spec fn delta_assoc(c: u8, b: u8) -> bool {
    gf_mul(0x1b, gf_mul(0x1b, 0x20, c), b) == gf_mul(0x1b, 0x20, gf_mul(0x1b, c, b))
}

/// `a * 0 = 0` in `Gf8B`.
proof fn lemma_mul_zero_right(a: u8)
    ensures
        gf_mul(0x1b, a, 0) == 0,
{
    lemma_mul_distributes_right(0x1b, a, 0, 0);
    let p = gf_mul(0x1b, a, 0);
    lemma_xor_zero(0u8);
    lemma_xor_zero(p);
}

/// Associativity with `DELTA` is additive in the middle factor.
proof fn lemma_assoc_split(c1: u8, c2: u8, b: u8)
    requires
        delta_assoc(c1, b),
        delta_assoc(c2, b),
    ensures
        delta_assoc(c1 ^ c2, b),
{
    lemma_mul_distributes_right(0x1b, 0x20, c1, c2);
    lemma_mul_distributes_left(0x1b, gf_mul(0x1b, 0x20, c1), gf_mul(0x1b, 0x20, c2), b);
    lemma_mul_distributes_left(0x1b, c1, c2, b);
    lemma_mul_distributes_right(0x1b, 0x20, gf_mul(0x1b, c1, b), gf_mul(0x1b, c2, b));
}

/// Associativity with `DELTA` for each one-bit middle factor.
proof fn lemma_assoc_basis(b: u8)
    by (bit_vector)
    ensures
        delta_assoc(1, b),
        delta_assoc(2, b),
        delta_assoc(4, b),
        delta_assoc(8, b),
        delta_assoc(16, b),
        delta_assoc(32, b),
        delta_assoc(64, b),
        delta_assoc(128, b),
{
}

/// Associativity with `DELTA` for a middle factor of at most one bit.
proof fn lemma_assoc_bit(c: u8, b: u8)
    requires
        c == 0 || c == 1 || c == 2 || c == 4 || c == 8 || c == 16 || c == 32 || c == 64 || c == 128,
    ensures
        delta_assoc(c, b),
{
    if c == 0 {
        lemma_mul_zero_right(0x20);
        lemma_mul_zero_left(0x1b, b);
    } else {
        lemma_assoc_basis(b);
    }
}

/// A byte is the sum of its eight one-bit parts.
proof fn lemma_bits(c: u8) -> (r: (u8, u8, u8, u8, u8, u8, u8, u8))
    ensures
        r.0 == 0 || r.0 == 1,
        r.1 == 0 || r.1 == 2,
        r.2 == 0 || r.2 == 4,
        r.3 == 0 || r.3 == 8,
        r.4 == 0 || r.4 == 16,
        r.5 == 0 || r.5 == 32,
        r.6 == 0 || r.6 == 64,
        r.7 == 0 || r.7 == 128,
        c == ((((((r.0 ^ r.1) ^ r.2) ^ r.3) ^ r.4) ^ r.5) ^ r.6) ^ r.7,
{
    let c0 = c & 1;
    let c1 = c & 2;
    let c2 = c & 4;
    let c3 = c & 8;
    let c4 = c & 16;
    let c5 = c & 32;
    let c6 = c & 64;
    let c7 = c & 128;
    assert((c0 == 0 || c0 == 1) && (c1 == 0 || c1 == 2) && (c2 == 0 || c2 == 4) && (c3 == 0 || c3
        == 8) && (c4 == 0 || c4 == 16) && (c5 == 0 || c5 == 32) && (c6 == 0 || c6 == 64) && (c7 == 0
        || c7 == 128) && c == ((((((c0 ^ c1) ^ c2) ^ c3) ^ c4) ^ c5) ^ c6) ^ c7) by (bit_vector)
        requires
            c0 == c & 1,
            c1 == c & 2,
            c2 == c & 4,
            c3 == c & 8,
            c4 == c & 16,
            c5 == c & 32,
            c6 == c & 64,
            c7 == c & 128,
    ;
    (c0, c1, c2, c3, c4, c5, c6, c7)
}

/// `(DELTA * c) * b == DELTA * (c * b)` for every `c` and `b`.
pub proof fn lemma_delta_assoc(c: u8, b: u8)
    ensures
        delta_assoc(c, b),
{
    let (c0, c1, c2, c3, c4, c5, c6, c7) = lemma_bits(c);
    lemma_assoc_bit(c0, b);
    lemma_assoc_bit(c1, b);
    lemma_assoc_bit(c2, b);
    lemma_assoc_bit(c3, b);
    lemma_assoc_bit(c4, b);
    lemma_assoc_bit(c5, b);
    lemma_assoc_bit(c6, b);
    lemma_assoc_bit(c7, b);
    lemma_assoc_split(c0, c1, b);
    lemma_assoc_split(c0 ^ c1, c2, b);
    lemma_assoc_split((c0 ^ c1) ^ c2, c3, b);
    lemma_assoc_split(((c0 ^ c1) ^ c2) ^ c3, c4, b);
    lemma_assoc_split((((c0 ^ c1) ^ c2) ^ c3) ^ c4, c5, b);
    lemma_assoc_split(((((c0 ^ c1) ^ c2) ^ c3) ^ c4) ^ c5, c6, b);
    lemma_assoc_split((((((c0 ^ c1) ^ c2) ^ c3) ^ c4) ^ c5) ^ c6, c7, b);
}

/// Multiplying by `DELTA` on either side gives the same byte.
proof fn lemma_delta_comm_basis()
    by (bit_vector)
    ensures
        gf_mul(0x1b, 1, 0x20) == gf_mul(0x1b, 0x20, 1),
        gf_mul(0x1b, 2, 0x20) == gf_mul(0x1b, 0x20, 2),
        gf_mul(0x1b, 4, 0x20) == gf_mul(0x1b, 0x20, 4),
        gf_mul(0x1b, 8, 0x20) == gf_mul(0x1b, 0x20, 8),
        gf_mul(0x1b, 16, 0x20) == gf_mul(0x1b, 0x20, 16),
        gf_mul(0x1b, 32, 0x20) == gf_mul(0x1b, 0x20, 32),
        gf_mul(0x1b, 64, 0x20) == gf_mul(0x1b, 0x20, 64),
        gf_mul(0x1b, 128, 0x20) == gf_mul(0x1b, 0x20, 128),
{
}

/// `p * DELTA == DELTA * p` holds for `p1 ^ p2` when it holds for both.
proof fn lemma_comm_split(p1: u8, p2: u8)
    requires
        gf_mul(0x1b, p1, 0x20) == gf_mul(0x1b, 0x20, p1),
        gf_mul(0x1b, p2, 0x20) == gf_mul(0x1b, 0x20, p2),
    ensures
        gf_mul(0x1b, p1 ^ p2, 0x20) == gf_mul(0x1b, 0x20, p1 ^ p2),
{
    lemma_mul_distributes_left(0x1b, p1, p2, 0x20);
    lemma_mul_distributes_right(0x1b, 0x20, p1, p2);
}

/// `p * DELTA == DELTA * p` for a factor of at most one bit.
proof fn lemma_comm_bit(p: u8)
    requires
        p == 0 || p == 1 || p == 2 || p == 4 || p == 8 || p == 16 || p == 32 || p == 64 || p == 128,
    ensures
        gf_mul(0x1b, p, 0x20) == gf_mul(0x1b, 0x20, p),
{
    if p == 0 {
        lemma_mul_zero_right(0x20);
        lemma_mul_zero_left(0x1b, 0x20);
    } else {
        lemma_delta_comm_basis();
    }
}

/// Multiplication by `DELTA` commutes: `p * DELTA == DELTA * p`.
pub proof fn lemma_delta_comm(p: u8)
    ensures
        gf_mul(0x1b, p, 0x20) == gf_mul(0x1b, 0x20, p),
{
    let (p0, p1, p2, p3, p4, p5, p6, p7) = lemma_bits(p);
    lemma_comm_bit(p0);
    lemma_comm_bit(p1);
    lemma_comm_bit(p2);
    lemma_comm_bit(p3);
    lemma_comm_bit(p4);
    lemma_comm_bit(p5);
    lemma_comm_bit(p6);
    lemma_comm_bit(p7);
    lemma_comm_split(p0, p1);
    lemma_comm_split(p0 ^ p1, p2);
    lemma_comm_split((p0 ^ p1) ^ p2, p3);
    lemma_comm_split(((p0 ^ p1) ^ p2) ^ p3, p4);
    lemma_comm_split((((p0 ^ p1) ^ p2) ^ p3) ^ p4, p5);
    lemma_comm_split(((((p0 ^ p1) ^ p2) ^ p3) ^ p4) ^ p5, p6);
    lemma_comm_split((((((p0 ^ p1) ^ p2) ^ p3) ^ p4) ^ p5) ^ p6, p7);
}

/// The constant component of the tower product `p * q`.
pub open spec fn mul_lo(p0: u8, p1: u8, q0: u8, q1: u8) -> u8 {
    (gf_mul(0x1b, p0, q0) ^ gf_mul(0x1b, 0x20, gf_mul(0x1b, p1, q1))) as u8
}

/// The `u` component of the tower product `p * q`.
pub open spec fn mul_hi(p0: u8, p1: u8, q0: u8, q1: u8) -> u8 {
    (gf_mul(0x1b, p0, q1) ^ gf_mul(0x1b, p1, q0) ^ gf_mul(0x1b, p1, q1)) as u8
}

/// The constant component `a` of `a + b*u`.
pub open spec fn lo(x: u16) -> u8 {
    (x & 0xff) as u8
}

/// The `u` component `b` of `a + b*u`.
pub open spec fn hi(x: u16) -> u8 {
    (x >> 8u16) as u8
}

/// The element `a + b*u` as a `u16`.
pub open spec fn pack(a: u8, b: u8) -> u16 {
    (a as u16) | ((b as u16) << 8u16)
}

/// Packing and unpacking are inverse, and both commute with addition.
pub proof fn lemma_pack(a: u8, b: u8, x: u16, y: u16)
    by (bit_vector)
    ensures
        lo(pack(a, b)) == a,
        hi(pack(a, b)) == b,
        pack(lo(x), hi(x)) == x,
        lo(x ^ y) == lo(x) ^ lo(y),
        hi(x ^ y) == hi(x) ^ hi(y),
{
}

/// `p * q` in GF(2^16).
pub open spec fn mul(p: u16, q: u16) -> u16 {
    pack(mul_lo(lo(p), hi(p), lo(q), hi(q)), mul_hi(lo(p), hi(p), lo(q), hi(q)))
}

/// An element of GF(2^16).
#[derive(Clone, Copy, Debug, PartialEq, Eq, Structural)]
pub struct Elem(pub u16);

impl Elem {
    /// The element stored as `bytes`, constant component first.
    pub fn from_bytes(bytes: [u8; 2]) -> (r: Elem)
        ensures
            lo(r.0) == bytes[0],
            hi(r.0) == bytes[1],
    {
        proof {
            lemma_pack(bytes[0], bytes[1], 0, 0);
        }
        Elem((bytes[0] as u16) | ((bytes[1] as u16) << 8u16))
    }

    /// The element's two bytes, constant component first.
    pub fn to_bytes(self) -> (r: [u8; 2])
        ensures
            r[0] == lo(self.0),
            r[1] == hi(self.0),
    {
        [(self.0 & 0xff) as u8, (self.0 >> 8u16) as u8]
    }

    /// The components `(a, b)` of `a + b*u`.
    pub fn components(self) -> (r: (u8, u8))
        ensures
            r.0 == lo(self.0),
            r.1 == hi(self.0),
    {
        ((self.0 & 0xff) as u8, (self.0 >> 8u16) as u8)
    }

    /// `self * rhs`.
    pub fn mul(self, rhs: Elem) -> (r: Elem)
        ensures
            r.0 == self::mul(self.0, rhs.0),
    {
        let (p0, p1) = self.components();
        let (q0, q1) = rhs.components();
        let l = mul_lo_exec(p0, p1, q0, q1);
        let h = mul_hi_exec(p0, p1, q0, q1);
        proof {
            lemma_pack(l, h, 0, 0);
        }
        Elem((l as u16) | ((h as u16) << 8u16))
    }
}

/// The constant component of `p * q`.
pub fn mul_lo_exec(p0: u8, p1: u8, q0: u8, q1: u8) -> (r: u8)
    ensures
        r == mul_lo(p0, p1, q0, q1),
{
    gf_mul_exec(0x1b, p0, q0) ^ gf_mul_exec(0x1b, DELTA, gf_mul_exec(0x1b, p1, q1))
}

/// The `u` component of `p * q`.
pub fn mul_hi_exec(p0: u8, p1: u8, q0: u8, q1: u8) -> (r: u8)
    ensures
        r == mul_hi(p0, p1, q0, q1),
{
    gf_mul_exec(0x1b, p0, q1) ^ gf_mul_exec(0x1b, p1, q0) ^ gf_mul_exec(0x1b, p1, q1)
}

/// The tower multiply by `c = c0 + c1*u` as two byte-wise products:
/// the source `[a, b]` under `[c0, c0 + c1]` plus the exchanged source
/// `[b, a]` under `[DELTA*c1, c1]` gives `c * (a + b*u)`.
pub proof fn lemma_tower_scale(c0: u8, c1: u8, a: u8, b: u8)
    ensures
        gf_mul(0x1b, c0, a) ^ gf_mul(0x1b, gf_mul(0x1b, 0x20, c1), b) == mul_lo(c0, c1, a, b),
        gf_mul(0x1b, c0 ^ c1, b) ^ gf_mul(0x1b, c1, a) == mul_hi(c0, c1, a, b),
{
    lemma_delta_assoc(c1, b);
    lemma_mul_distributes_left(0x1b, c0, c1, b);
    let x = gf_mul(0x1b, c0, b);
    let y = gf_mul(0x1b, c1, b);
    let z = gf_mul(0x1b, c1, a);
    lemma_xor_swap(x, y, z, 0);
    lemma_xor_zero(y);
    lemma_xor_zero(z);
}

/// The tower product of two varying elements as the element-wise kernels
/// form it: `direct = [a*c, b*d]`, `crossed = [a*d, b*c]`, and
/// `(b*d) * DELTA` folded into the constant component.
pub proof fn lemma_tower_product(a: u8, b: u8, c: u8, d: u8)
    ensures
        gf_mul(0x1b, a, c) ^ gf_mul(0x1b, gf_mul(0x1b, b, d), 0x20) == mul_lo(a, b, c, d),
        (gf_mul(0x1b, a, d) ^ gf_mul(0x1b, b, c)) ^ gf_mul(0x1b, b, d) == mul_hi(a, b, c, d),
{
    lemma_delta_comm(gf_mul(0x1b, b, d));
}

/// The tower product is additive in its first factor.
pub proof fn lemma_mul_linear(p0: u8, p1: u8, r0: u8, r1: u8, q0: u8, q1: u8)
    ensures
        mul_lo(p0 ^ r0, p1 ^ r1, q0, q1) == mul_lo(p0, p1, q0, q1) ^ mul_lo(r0, r1, q0, q1),
        mul_hi(p0 ^ r0, p1 ^ r1, q0, q1) == mul_hi(p0, p1, q0, q1) ^ mul_hi(r0, r1, q0, q1),
{
    lemma_mul_distributes_left(0x1b, p0, r0, q0);
    lemma_mul_distributes_left(0x1b, p1, r1, q1);
    lemma_mul_distributes_left(0x1b, p0, r0, q1);
    lemma_mul_distributes_left(0x1b, p1, r1, q0);
    lemma_mul_distributes_right(0x1b, 0x20, gf_mul(0x1b, p1, q1), gf_mul(0x1b, r1, q1));
    lemma_xor_swap(
        gf_mul(0x1b, p0, q0),
        gf_mul(0x1b, r0, q0),
        gf_mul(0x1b, 0x20, gf_mul(0x1b, p1, q1)),
        gf_mul(0x1b, 0x20, gf_mul(0x1b, r1, q1)),
    );
    let a = gf_mul(0x1b, p0, q1);
    let b = gf_mul(0x1b, r0, q1);
    let c = gf_mul(0x1b, p1, q0);
    let d = gf_mul(0x1b, r1, q0);
    let e = gf_mul(0x1b, p1, q1);
    let f = gf_mul(0x1b, r1, q1);
    lemma_xor_swap(a, b, c, d);
    lemma_xor_swap(a ^ c, b ^ d, e, f);
}

/// The tower product is additive in its second factor.
pub proof fn lemma_mul_linear_right(p0: u8, p1: u8, q0: u8, q1: u8, r0: u8, r1: u8)
    ensures
        mul_lo(p0, p1, q0 ^ r0, q1 ^ r1) == mul_lo(p0, p1, q0, q1) ^ mul_lo(p0, p1, r0, r1),
        mul_hi(p0, p1, q0 ^ r0, q1 ^ r1) == mul_hi(p0, p1, q0, q1) ^ mul_hi(p0, p1, r0, r1),
{
    lemma_mul_distributes_right(0x1b, p0, q0, r0);
    lemma_mul_distributes_right(0x1b, p1, q1, r1);
    lemma_mul_distributes_right(0x1b, p0, q1, r1);
    lemma_mul_distributes_right(0x1b, p1, q0, r0);
    lemma_mul_distributes_right(0x1b, 0x20, gf_mul(0x1b, p1, q1), gf_mul(0x1b, p1, r1));
    lemma_xor_swap(
        gf_mul(0x1b, p0, q0),
        gf_mul(0x1b, p0, r0),
        gf_mul(0x1b, 0x20, gf_mul(0x1b, p1, q1)),
        gf_mul(0x1b, 0x20, gf_mul(0x1b, p1, r1)),
    );
    let a = gf_mul(0x1b, p0, q1);
    let b = gf_mul(0x1b, p0, r1);
    let c = gf_mul(0x1b, p1, q0);
    let d = gf_mul(0x1b, p1, r0);
    let e = gf_mul(0x1b, p1, q1);
    let f = gf_mul(0x1b, p1, r1);
    lemma_xor_swap(a, b, c, d);
    lemma_xor_swap(a ^ c, b ^ d, e, f);
}

} // verus!
