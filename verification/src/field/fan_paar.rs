//! The Fan–Paar fields: the canonical Wiedemann tower of quadratic
//! extensions over GF(2).
//!
//! Level `k` adjoins `X_k` with `X_k^2 + X_{k-1}·X_k + 1 = 0`, starting from
//! `X_0 = 1`. An element of level `k` is `x0 + x1·X_k` with `x0`, `x1` of
//! level `k - 1`, stored as `x0` in the low half of its bits and `x1` in the
//! high half. So `X_{k-1}` is the value `1 << (w / 2)` of the level below
//! (of width `w`), and the product of `a` and `b` is
//!
//! `(a0·b0 + a1·b1) + ((a0 + X_{k-1}·a1)·b1 + a1·b0)·X_k`,
//!
//! which is the shape every level below states: GF(4) on two bits, GF(16)
//! on a nibble, GF(2^8) on a byte, and GF(2^16), GF(2^32), GF(2^64) on their
//! little-endian words.

use crate::field::{gf16, gf32, gf64};
use vstd::prelude::*;

verus! {

/// `a · b` in GF(4) on the two low bits (`X_1^2 = X_1 + 1`).
pub open spec fn fp1(a: u8, b: u8) -> u8 {
    let a0 = a & 1u8;
    let a1 = (a >> 1u8) & 1u8;
    let b0 = b & 1u8;
    let b1 = (b >> 1u8) & 1u8;
    (((a0 & b0) ^ (a1 & b1)) | (((((a0 ^ a1) & b1) ^ (a1 & b0)) << 1u8) as u8)) as u8
}

/// `a · b` in GF(16) on the low nibble, over GF(4) (`X_2^2 = X_1·X_2 + 1`,
/// `X_1` the GF(4) value 2).
pub open spec fn fp2(a: u8, b: u8) -> u8 {
    let a0 = a & 3u8;
    let a1 = (a >> 2u8) & 3u8;
    let b0 = b & 3u8;
    let b1 = (b >> 2u8) & 3u8;
    let lo = fp1(a0, b0) ^ fp1(a1, b1);
    let hi = fp1(a0 ^ fp1(2u8, a1), b1) ^ fp1(a1, b0);
    (lo | ((hi << 2u8) as u8)) as u8
}

/// `a · b` in the Fan–Paar GF(2^8), over GF(16) (`X_3^2 = X_2·X_3 + 1`,
/// `X_2` the GF(16) value 4).
#[verifier::opaque]
pub open spec fn fp8(a: u8, b: u8) -> u8 {
    let a0 = a & 15u8;
    let a1 = (a >> 4u8) & 15u8;
    let b0 = b & 15u8;
    let b1 = (b >> 4u8) & 15u8;
    let lo = fp2(a0, b0) ^ fp2(a1, b1);
    let hi = fp2(a0 ^ fp2(4u8, a1), b1) ^ fp2(a1, b0);
    (lo | ((hi << 4u8) as u8)) as u8
}

/// `X_3`, the element that the GF(2^16) level folds in.
pub const ALPHA8: u8 = 0x10;

/// `X_4`, the element that the GF(2^32) level folds in.
pub const ALPHA16: u16 = 0x100;

/// `X_5`, the element that the GF(2^64) level folds in.
pub const ALPHA32: u32 = 0x1_0000;

/// `a · b` in the Fan–Paar GF(2^16).
#[verifier::opaque]
pub open spec fn fp16(a: u16, b: u16) -> u16 {
    let a0 = gf16::lo(a);
    let a1 = gf16::hi(a);
    let b0 = gf16::lo(b);
    let b1 = gf16::hi(b);
    gf16::pack(fp8(a0, b0) ^ fp8(a1, b1), fp8(a0 ^ fp8(ALPHA8, a1), b1) ^ fp8(a1, b0))
}

/// `a · b` in the Fan–Paar GF(2^32).
#[verifier::opaque]
pub open spec fn fp32(a: u32, b: u32) -> u32 {
    let a0 = gf32::lo(a);
    let a1 = gf32::hi(a);
    let b0 = gf32::lo(b);
    let b1 = gf32::hi(b);
    gf32::pack(fp16(a0, b0) ^ fp16(a1, b1), fp16(a0 ^ fp16(ALPHA16, a1), b1) ^ fp16(a1, b0))
}

/// `a · b` in the Fan–Paar GF(2^64).
#[verifier::opaque]
pub open spec fn fp64(a: u64, b: u64) -> u64 {
    let a0 = gf64::lo(a);
    let a1 = gf64::hi(a);
    let b0 = gf64::lo(b);
    let b1 = gf64::hi(b);
    gf64::pack(fp32(a0, b0) ^ fp32(a1, b1), fp32(a0 ^ fp32(ALPHA32, a1), b1) ^ fp32(a1, b0))
}

/// Byte `t` (0 or 1) of a GF(2^16) word.
pub open spec fn byte16(x: u16, t: int) -> u8 {
    if t == 0 {
        gf16::lo(x)
    } else {
        gf16::hi(x)
    }
}

/// Byte `k` (0 .. 3) of a GF(2^32) word, least significant first.
pub open spec fn byte32(x: u32, k: int) -> u8 {
    if k < 2 {
        byte16(gf32::lo(x), k)
    } else {
        byte16(gf32::hi(x), k - 2)
    }
}

/// Byte `k` (0 .. 7) of a GF(2^64) word, least significant first.
pub open spec fn byte64(x: u64, k: int) -> u8 {
    if k < 4 {
        byte32(gf64::lo(x), k)
    } else {
        byte32(gf64::hi(x), k - 4)
    }
}

/// The GF(2^32) word stored little-endian as `x0 .. x3`.
pub open spec fn word32(x0: u8, x1: u8, x2: u8, x3: u8) -> u32 {
    gf32::pack(gf16::pack(x0, x1), gf16::pack(x2, x3))
}

/// The GF(2^64) word stored little-endian as the eight bytes of `x`.
pub open spec fn word64(x: Seq<u8>) -> u64 {
    gf64::pack(word32(x[0], x[1], x[2], x[3]), word32(x[4], x[5], x[6], x[7]))
}

/// The byte multiply splits over the nibbles of its second factor:
/// `c · x = c · (x mod 16) + c · (16 ⌊x / 16⌋)`.
pub proof fn lemma_fp8_nibbles(c: u8, x: u8)
    ensures
        fp8(c, x) == fp8(c, x % 16) ^ fp8(c, (((x / 16) as u8) << 4u8) as u8),
{
    reveal(fp8);
    assert(fp8(c, x) == fp8(c, x % 16) ^ fp8(c, (((x / 16) as u8) << 4u8) as u8)) by (bit_vector);
}

/// Bytes of a word are the bytes of its halves, and taking a byte commutes
/// with addition.
pub proof fn lemma_byte32(x: u32, y: u32, k: int)
    requires
        0 <= k < 4,
    ensures
        byte32(x ^ y, k) == byte32(x, k) ^ byte32(y, k),
{
    gf32::lemma_pack(0, 0, x, y);
    gf16::lemma_pack(0, 0, gf32::lo(x), gf32::lo(y));
    gf16::lemma_pack(0, 0, gf32::hi(x), gf32::hi(y));
}

/// The bytes of [`word32`] are the bytes it was built from.
pub proof fn lemma_word32(x0: u8, x1: u8, x2: u8, x3: u8)
    ensures
        gf32::lo(word32(x0, x1, x2, x3)) == gf16::pack(x0, x1),
        gf32::hi(word32(x0, x1, x2, x3)) == gf16::pack(x2, x3),
        gf16::lo(gf16::pack(x0, x1)) == x0,
        gf16::hi(gf16::pack(x0, x1)) == x1,
        gf16::lo(gf16::pack(x2, x3)) == x2,
        gf16::hi(gf16::pack(x2, x3)) == x3,
{
    gf32::lemma_pack(gf16::pack(x0, x1), gf16::pack(x2, x3), 0, 0);
    gf16::lemma_pack(x0, x1, 0, 0);
    gf16::lemma_pack(x2, x3, 0, 0);
}

/// `a · b` in GF(4).
fn fp1_mul(a: u8, b: u8) -> (r: u8)
    ensures
        r == fp1(a, b),
{
    let a0 = a & 1u8;
    let a1 = (a >> 1u8) & 1u8;
    let b0 = b & 1u8;
    let b1 = (b >> 1u8) & 1u8;
    ((a0 & b0) ^ (a1 & b1)) | ((((a0 ^ a1) & b1) ^ (a1 & b0)) << 1u8)
}

/// `a · b` in GF(16).
fn fp2_mul(a: u8, b: u8) -> (r: u8)
    ensures
        r == fp2(a, b),
{
    let a0 = a & 3u8;
    let a1 = (a >> 2u8) & 3u8;
    let b0 = b & 3u8;
    let b1 = (b >> 2u8) & 3u8;
    let lo = fp1_mul(a0, b0) ^ fp1_mul(a1, b1);
    let hi = fp1_mul(a0 ^ fp1_mul(2u8, a1), b1) ^ fp1_mul(a1, b0);
    lo | (hi << 2u8)
}

/// `a · b` in the Fan–Paar GF(2^8).
pub fn fp8_mul(a: u8, b: u8) -> (r: u8)
    ensures
        r == fp8(a, b),
{
    proof {
        reveal(fp8);
    }
    let a0 = a & 15u8;
    let a1 = (a >> 4u8) & 15u8;
    let b0 = b & 15u8;
    let b1 = (b >> 4u8) & 15u8;
    let lo = fp2_mul(a0, b0) ^ fp2_mul(a1, b1);
    let hi = fp2_mul(a0 ^ fp2_mul(4u8, a1), b1) ^ fp2_mul(a1, b0);
    lo | (hi << 4u8)
}

/// `a · b` in the Fan–Paar GF(2^16).
pub fn fp16_mul(a: u16, b: u16) -> (r: u16)
    ensures
        r == fp16(a, b),
{
    proof {
        reveal(fp16);
    }
    let a0 = (a & 0xff) as u8;
    let a1 = (a >> 8u16) as u8;
    let b0 = (b & 0xff) as u8;
    let b1 = (b >> 8u16) as u8;
    let lo = fp8_mul(a0, b0) ^ fp8_mul(a1, b1);
    let hi = fp8_mul(a0 ^ fp8_mul(ALPHA8, a1), b1) ^ fp8_mul(a1, b0);
    (lo as u16) | ((hi as u16) << 8u16)
}

/// `a · b` in the Fan–Paar GF(2^32).
pub fn fp32_mul(a: u32, b: u32) -> (r: u32)
    ensures
        r == fp32(a, b),
{
    proof {
        reveal(fp32);
    }
    let a0 = (a & 0xffff) as u16;
    let a1 = (a >> 16u32) as u16;
    let b0 = (b & 0xffff) as u16;
    let b1 = (b >> 16u32) as u16;
    let lo = fp16_mul(a0, b0) ^ fp16_mul(a1, b1);
    let hi = fp16_mul(a0 ^ fp16_mul(ALPHA16, a1), b1) ^ fp16_mul(a1, b0);
    (lo as u32) | ((hi as u32) << 16u32)
}

} // verus!
