//! Fan–Paar tower kernels by nibble tables.
//!
//! A Fan–Paar GF(2^16) multiply by `c = c0 + c1·X` has the four-lookup
//! shape of the polynomial GF(2^16) kernels: an element `[x0, x1]` becomes
//! `[f0·x0 + f2·x1, f1·x1 + f3·x0]` with the byte factors `f0 = c0`,
//! `f1 = c0 + α·c1`, `f2 = f3 = c1` ([`fp16_factor`]), each factor's
//! byte multiply read from a low-nibble and a high-nibble table
//! ([`FpTowerTables`]). The tables are filled from Fan–Paar byte arithmetic,
//! not from the AES field.
//!
//! One level up, a GF(2^32) multiply by `c = c0 + c1·X` is three GF(2^16)
//! scales merged by half: `a = c0` scales the low half, `b = c0 + α·c1`
//! the high half, and `c = c1` the exchanged halves, so
//! `[lo, hi] -> [a·lo + c·hi, b·hi + c·lo]`; GF(2^64) repeats the identity
//! over three GF(2^32) scales. The kernels prepare those scales from the
//! coefficient themselves.

use crate::field::fan_paar::{
    ALPHA16, ALPHA32, ALPHA8, byte16, byte32, byte64, fp16, fp16_mul, fp32, fp32_mul, fp64, fp8,
    fp8_mul, lemma_byte32, lemma_fp8_nibbles, lemma_word32, word32, word64,
};
use crate::field::{gf16, gf32, gf64};
use archmage::{X64V2Token, X64V3Token};
use vstd::prelude::*;

verus! {

/// The nibble tables of one Fan–Paar GF(2^16) coefficient: for each of its
/// four byte factors, the products with every low nibble (`lo`) and
/// with every high nibble (`hi`), and the coefficient they were built from.
#[derive(Clone, Copy)]
pub struct FpTowerTables {
    /// The coefficient.
    pub coeff: u16,
    /// `factor_k * i` for each low nibble `i`.
    pub lo: [[u8; 16]; 4],
    /// `factor_k * (i << 4)` for each high nibble `i`.
    pub hi: [[u8; 16]; 4],
}

/// Byte factor `k` of the GF(2^16) multiply by `c = c0 + c1·X`: `c0`,
/// `c0 + α·c1`, `c1`, `c1`.
pub open spec fn fp16_factor(c: u16, k: int) -> u8 {
    let c0 = gf16::lo(c);
    let c1 = gf16::hi(c);
    if k == 0 {
        c0
    } else if k == 1 {
        c0 ^ fp8(ALPHA8, c1)
    } else {
        c1
    }
}

impl FpTowerTables {
    /// Every table holds the Fan–Paar byte products of its factor of the
    /// coefficient.
    pub open spec fn wf(&self) -> bool {
        &&& forall|k: int, i: int|
            0 <= k < 4 && 0 <= i < 16 ==> #[trigger] self.lo@[k]@[i] == fp8(
                fp16_factor(self.coeff, k),
                i as u8,
            )
        &&& forall|k: int, i: int|
            0 <= k < 4 && 0 <= i < 16 ==> #[trigger] self.hi@[k]@[i] == fp8(
                fp16_factor(self.coeff, k),
                ((i as u8) << 4u8) as u8,
            )
    }

    /// The nibble tables of `coeff`.
    pub fn new(coeff: u16) -> (r: FpTowerTables)
        ensures
            r.wf(),
            r.coeff == coeff,
    {
        let c0 = (coeff & 0xff) as u8;
        let c1 = (coeff >> 8u16) as u8;
        let f1 = c0 ^ fp8_mul(ALPHA8, c1);
        let (l0, h0) = nibble_rows(c0);
        let (l1, h1) = nibble_rows(f1);
        let (l2, h2) = nibble_rows(c1);
        let r = FpTowerTables { coeff, lo: [l0, l1, l2, l2], hi: [h0, h1, h2, h2] };
        assert(r.lo@[0] == l0 && r.lo@[1] == l1 && r.lo@[2] == l2 && r.lo@[3] == l2);
        assert(r.hi@[0] == h0 && r.hi@[1] == h1 && r.hi@[2] == h2 && r.hi@[3] == h2);
        r
    }
}

/// The two nibble rows of the byte factor `f`.
fn nibble_rows(f: u8) -> (r: ([u8; 16], [u8; 16]))
    ensures
        forall|i: int| 0 <= i < 16 ==> #[trigger] r.0@[i] == fp8(f, i as u8),
        forall|i: int| 0 <= i < 16 ==> #[trigger] r.1@[i] == fp8(f, ((i as u8) << 4u8) as u8),
{
    let mut lo = [0u8; 16];
    let mut hi = [0u8; 16];
    let mut i: usize = 0;
    while i < 16
        invariant
            i <= 16,
            forall|k: int| 0 <= k < i ==> #[trigger] lo@[k] == fp8(f, k as u8),
            forall|k: int| 0 <= k < i ==> #[trigger] hi@[k] == fp8(f, ((k as u8) << 4u8) as u8),
        decreases 16 - i,
    {
        lo[i] = fp8_mul(f, i as u8);
        hi[i] = fp8_mul(f, (i as u8) << 4u8);
        i += 1;
    }
    (lo, hi)
}

/// Factor `k`'s byte multiply of `x`: the low nibble's entry plus the high
/// nibble's.
pub open spec fn bank(t: FpTowerTables, k: int, x: u8) -> u8 {
    t.lo@[k]@[(x % 16) as int] ^ t.hi@[k]@[(x / 16) as int]
}

/// The low byte of the product of the element `[a, b]`.
pub open spec fn pair_lo(t: FpTowerTables, a: u8, b: u8) -> u8 {
    bank(t, 0, a) ^ bank(t, 2, b)
}

/// The high byte of the product of the element `[a, b]`.
pub open spec fn pair_hi(t: FpTowerTables, a: u8, b: u8) -> u8 {
    bank(t, 1, b) ^ bank(t, 3, a)
}

/// Byte `i` of the tables' product with the 2-byte elements of `s`.
pub open spec fn fp_byte(t: FpTowerTables, s: Seq<u8>, i: int) -> u8 {
    let e = i - i % 2;
    if i % 2 == 0 {
        pair_lo(t, s[e], s[e + 1])
    } else {
        pair_hi(t, s[e], s[e + 1])
    }
}

/// Byte `i` of the Fan–Paar GF(2^16) product of `c` with the 2-byte
/// little-endian elements of `s`.
pub open spec fn fp16_byte(c: u16, s: Seq<u8>, i: int) -> u8 {
    let e = i - i % 2;
    byte16(fp16(c, gf16::pack(s[e], s[e + 1])), i % 2)
}

/// A well-formed bank multiplies by its factor of the coefficient.
proof fn lemma_bank(t: FpTowerTables, k: int, x: u8)
    requires
        t.wf(),
        0 <= k < 4,
    ensures
        bank(t, k, x) == fp8(fp16_factor(t.coeff, k), x),
{
    let f = fp16_factor(t.coeff, k);
    let i = (x % 16) as int;
    let j = (x / 16) as int;
    assert(t.lo@[k]@[i] == fp8(f, i as u8));
    assert(t.hi@[k]@[j] == fp8(f, ((j as u8) << 4u8) as u8));
    lemma_fp8_nibbles(f, x);
}

/// Well-formed tables multiply one element `[x0, x1]` by their coefficient.
proof fn lemma_pair(t: FpTowerTables, x0: u8, x1: u8)
    requires
        t.wf(),
    ensures
        pair_lo(t, x0, x1) == gf16::lo(fp16(t.coeff, gf16::pack(x0, x1))),
        pair_hi(t, x0, x1) == gf16::hi(fp16(t.coeff, gf16::pack(x0, x1))),
{
    lemma_bank(t, 0, x0);
    lemma_bank(t, 1, x1);
    lemma_bank(t, 2, x1);
    lemma_bank(t, 3, x0);
    reveal(fp16);
    gf16::lemma_pack(x0, x1, 0, 0);
    let c = t.coeff;
    let a0 = gf16::lo(c);
    let a1 = gf16::hi(c);
    gf16::lemma_pack(
        fp8(a0, x0) ^ fp8(a1, x1),
        fp8(a0 ^ fp8(ALPHA8, a1), x1) ^ fp8(a1, x0),
        0,
        0,
    );
}

/// Well-formed tables compute the field product byte by byte.
proof fn lemma_fp_byte(t: FpTowerTables, s: Seq<u8>, i: int)
    requires
        t.wf(),
        0 <= i,
        i - i % 2 + 1 < s.len(),
    ensures
        fp_byte(t, s, i) == fp16_byte(t.coeff, s, i),
{
    let e = i - i % 2;
    lemma_pair(t, s[e], s[e + 1]);
}

/// Factor `k`'s byte multiply by two lookups.
fn bank_exec(t: &FpTowerTables, k: usize, x: u8) -> (r: u8)
    requires
        k < 4,
    ensures
        r == bank(*t, k as int, x),
{
    t.lo[k][(x % 16) as usize] ^ t.hi[k][(x / 16) as usize]
}

/// The product of one element `[a, b]`.
fn scale_pair(t: &FpTowerTables, a: u8, b: u8) -> (r: (u8, u8))
    ensures
        r.0 == pair_lo(*t, a, b),
        r.1 == pair_hi(*t, a, b),
{
    (bank_exec(t, 0, a) ^ bank_exec(t, 2, b), bank_exec(t, 1, b) ^ bank_exec(t, 3, a))
}

/// The element walk: each 2-byte element of `src` multiplied through the
/// tables, added into `dst` when `accumulate`, else stored.
fn fp_walk(dst: &mut [u8], tables: &FpTowerTables, src: &[u8], accumulate: bool)
    requires
        old(dst)@.len() == src@.len(),
        old(dst)@.len() % 2 == 0,
    ensures
        final(dst)@.len() == old(dst)@.len(),
        forall|i: int|
            0 <= i < old(dst)@.len() ==> #[trigger] final(dst)@[i] == (if accumulate {
                old(dst)@[i]
            } else {
                0u8
            }) ^ fp_byte(*tables, src@, i),
{
    let n = dst.len();
    let mut k: usize = 0;
    while k < n
        invariant
            n == old(dst)@.len(),
            n == src@.len(),
            n % 2 == 0,
            k % 2 == 0,
            k <= n,
            dst@.len() == n,
            forall|i: int|
                0 <= i < k ==> #[trigger] dst@[i] == (if accumulate {
                    old(dst)@[i]
                } else {
                    0u8
                }) ^ fp_byte(*tables, src@, i),
            forall|i: int| k <= i < n ==> #[trigger] dst@[i] == old(dst)@[i],
        decreases n - k,
    {
        let a = src[k];
        let b = src[k + 1];
        let (r0, r1) = scale_pair(tables, a, b);
        if accumulate {
            let d0 = dst[k];
            let d1 = dst[k + 1];
            dst[k] = d0 ^ r0;
            dst[k + 1] = d1 ^ r1;
        } else {
            dst[k] = r0;
            dst[k + 1] = r1;
            proof {
                crate::field::gf8::lemma_xor_zero(r0);
                crate::field::gf8::lemma_xor_zero(r1);
            }
        }
        assert(fp_byte(*tables, src@, k as int) == r0);
        assert(fp_byte(*tables, src@, k + 1) == r1);
        k += 2;
    }
}

/// The in-place walk: each 2-byte element of `dst` replaced by its product
/// through the tables.
fn fp_assign_walk(dst: &mut [u8], tables: &FpTowerTables)
    requires
        old(dst)@.len() % 2 == 0,
    ensures
        final(dst)@.len() == old(dst)@.len(),
        forall|i: int|
            0 <= i < old(dst)@.len() ==> #[trigger] final(dst)@[i] == fp_byte(*tables, old(dst)@, i),
{
    let n = dst.len();
    let mut k: usize = 0;
    while k < n
        invariant
            n == old(dst)@.len(),
            n % 2 == 0,
            k % 2 == 0,
            k <= n,
            dst@.len() == n,
            forall|i: int| 0 <= i < k ==> #[trigger] dst@[i] == fp_byte(*tables, old(dst)@, i),
            forall|i: int| k <= i < n ==> #[trigger] dst@[i] == old(dst)@[i],
        decreases n - k,
    {
        let a = dst[k];
        let b = dst[k + 1];
        let (r0, r1) = scale_pair(tables, a, b);
        dst[k] = r0;
        dst[k + 1] = r1;
        assert(fp_byte(*tables, old(dst)@, k as int) == r0);
        assert(fp_byte(*tables, old(dst)@, k + 1) == r1);
        k += 2;
    }
}

/// `dst ^= coeff * src` through the coefficient's nibble tables, AVX2.

/// `dst ^= coeff * src` through the coefficient's nibble tables, AVX2.
pub fn mul_add_avx2(_token: X64V3Token, dst: &mut [u8], tables: &FpTowerTables, src: &[u8])
    requires
        tables.wf(),
        old(dst)@.len() == src@.len(),
        old(dst)@.len() % 2 == 0,
    ensures
        final(dst)@.len() == old(dst)@.len(),
        forall|i: int|
            0 <= i < old(dst)@.len() ==> #[trigger] final(dst)@[i] == old(dst)@[i] ^ fp16_byte(
                tables.coeff,
                src@,
                i,
            ),
{
    fp_walk(dst, tables, src, true);
    assert forall|i: int| 0 <= i < old(dst)@.len() implies #[trigger] dst@[i] == old(dst)@[i]
        ^ fp16_byte(tables.coeff, src@, i) by {
        lemma_fp_byte(*tables, src@, i);
    }
}

/// `dst = coeff * dst` through the coefficient's nibble tables, AVX2.
pub fn mul_assign_avx2(_token: X64V3Token, dst: &mut [u8], tables: &FpTowerTables)
    requires
        tables.wf(),
        old(dst)@.len() % 2 == 0,
    ensures
        final(dst)@.len() == old(dst)@.len(),
        forall|i: int|
            0 <= i < old(dst)@.len() ==> #[trigger] final(dst)@[i] == fp16_byte(
                tables.coeff,
                old(dst)@,
                i,
            ),
{
    fp_assign_walk(dst, tables);
    assert forall|i: int| 0 <= i < old(dst)@.len() implies #[trigger] dst@[i] == fp16_byte(
        tables.coeff,
        old(dst)@,
        i,
    ) by {
        lemma_fp_byte(*tables, old(dst)@, i);
    }
}

/// `dst = coeff * src` through the coefficient's nibble tables, AVX2; the
/// destination is only written.
pub fn mul_into_avx2(_token: X64V3Token, dst: &mut [u8], tables: &FpTowerTables, src: &[u8])
    requires
        tables.wf(),
        old(dst)@.len() == src@.len(),
        old(dst)@.len() % 2 == 0,
    ensures
        final(dst)@.len() == old(dst)@.len(),
        forall|i: int|
            0 <= i < old(dst)@.len() ==> #[trigger] final(dst)@[i] == fp16_byte(
                tables.coeff,
                src@,
                i,
            ),
{
    fp_walk(dst, tables, src, false);
    assert forall|i: int| 0 <= i < old(dst)@.len() implies #[trigger] dst@[i] == fp16_byte(
        tables.coeff,
        src@,
        i,
    ) by {
        crate::field::gf8::lemma_xor_zero(fp_byte(*tables, src@, i));
        lemma_fp_byte(*tables, src@, i);
    }
}

/// `dst ^= coeff * src` through the coefficient's nibble tables, SSSE3.
pub fn mul_add_ssse3(_token: X64V2Token, dst: &mut [u8], tables: &FpTowerTables, src: &[u8])
    requires
        tables.wf(),
        old(dst)@.len() == src@.len(),
        old(dst)@.len() % 2 == 0,
    ensures
        final(dst)@.len() == old(dst)@.len(),
        forall|i: int|
            0 <= i < old(dst)@.len() ==> #[trigger] final(dst)@[i] == old(dst)@[i] ^ fp16_byte(
                tables.coeff,
                src@,
                i,
            ),
{
    fp_walk(dst, tables, src, true);
    assert forall|i: int| 0 <= i < old(dst)@.len() implies #[trigger] dst@[i] == old(dst)@[i]
        ^ fp16_byte(tables.coeff, src@, i) by {
        lemma_fp_byte(*tables, src@, i);
    }
}

/// `dst = coeff * dst` through the coefficient's nibble tables, SSSE3.
pub fn mul_assign_ssse3(_token: X64V2Token, dst: &mut [u8], tables: &FpTowerTables)
    requires
        tables.wf(),
        old(dst)@.len() % 2 == 0,
    ensures
        final(dst)@.len() == old(dst)@.len(),
        forall|i: int|
            0 <= i < old(dst)@.len() ==> #[trigger] final(dst)@[i] == fp16_byte(
                tables.coeff,
                old(dst)@,
                i,
            ),
{
    fp_assign_walk(dst, tables);
    assert forall|i: int| 0 <= i < old(dst)@.len() implies #[trigger] dst@[i] == fp16_byte(
        tables.coeff,
        old(dst)@,
        i,
    ) by {
        lemma_fp_byte(*tables, old(dst)@, i);
    }
}

/// `dst = coeff * src` through the coefficient's nibble tables, SSSE3; the
/// destination is only written.
pub fn mul_into_ssse3(_token: X64V2Token, dst: &mut [u8], tables: &FpTowerTables, src: &[u8])
    requires
        tables.wf(),
        old(dst)@.len() == src@.len(),
        old(dst)@.len() % 2 == 0,
    ensures
        final(dst)@.len() == old(dst)@.len(),
        forall|i: int|
            0 <= i < old(dst)@.len() ==> #[trigger] final(dst)@[i] == fp16_byte(
                tables.coeff,
                src@,
                i,
            ),
{
    fp_walk(dst, tables, src, false);
    assert forall|i: int| 0 <= i < old(dst)@.len() implies #[trigger] dst@[i] == fp16_byte(
        tables.coeff,
        src@,
        i,
    ) by {
        crate::field::gf8::lemma_xor_zero(fp_byte(*tables, src@, i));
        lemma_fp_byte(*tables, src@, i);
    }
}

/// The three GF(2^16) scales of one GF(2^32) coefficient: `a` for the low
/// half, `b` for the high half, `c` for the exchanged halves.
#[derive(Clone, Copy)]
struct Fp32Lanes {
    /// The coefficient.
    coeff: u32,
    /// The low half's scale, `c0`.
    a: FpTowerTables,
    /// The high half's scale, `c0 + α·c1`.
    b: FpTowerTables,
    /// The exchanged halves' scale, `c1`.
    c: FpTowerTables,
}

/// Byte `k` of the GF(2^32) product of the element `[x0, x1, x2, x3]`.
spec fn quad_byte(t: Fp32Lanes, x0: u8, x1: u8, x2: u8, x3: u8, k: int) -> u8 {
    if k == 0 {
        pair_lo(t.a, x0, x1) ^ pair_lo(t.c, x2, x3)
    } else if k == 1 {
        pair_hi(t.a, x0, x1) ^ pair_hi(t.c, x2, x3)
    } else if k == 2 {
        pair_lo(t.b, x2, x3) ^ pair_lo(t.c, x0, x1)
    } else {
        pair_hi(t.b, x2, x3) ^ pair_hi(t.c, x0, x1)
    }
}

/// Byte `i` of the tables' product with the 4-byte elements of `s`.
spec fn lanes32_byte(t: Fp32Lanes, s: Seq<u8>, i: int) -> u8 {
    let e = i - i % 4;
    quad_byte(t, s[e], s[e + 1], s[e + 2], s[e + 3], i % 4)
}

/// The GF(2^32) product of one element.
fn scale_quad(t: &Fp32Lanes, x0: u8, x1: u8, x2: u8, x3: u8) -> (r: [u8; 4])
    ensures
        forall|k: int| 0 <= k < 4 ==> #[trigger] r@[k] == quad_byte(*t, x0, x1, x2, x3, k),
{
    let (a0, a1) = scale_pair(&t.a, x0, x1);
    let (b0, b1) = scale_pair(&t.b, x2, x3);
    let (h0, h1) = scale_pair(&t.c, x2, x3);
    let (l0, l1) = scale_pair(&t.c, x0, x1);
    [a0 ^ h0, a1 ^ h1, b0 ^ l0, b1 ^ l1]
}

/// The three GF(2^32) scales of one GF(2^64) coefficient.
#[derive(Clone, Copy)]
struct Fp64Lanes {
    /// The coefficient.
    coeff: u64,
    /// The low half's scale.
    a: Fp32Lanes,
    /// The high half's scale.
    b: Fp32Lanes,
    /// The exchanged halves' scale.
    c: Fp32Lanes,
}

/// Byte `k` of the GF(2^64) product of the element `x` (eight bytes).
spec fn oct_byte(t: Fp64Lanes, x: Seq<u8>, k: int) -> u8 {
    if k < 4 {
        quad_byte(t.a, x[0], x[1], x[2], x[3], k) ^ quad_byte(t.c, x[4], x[5], x[6], x[7], k)
    } else {
        quad_byte(t.b, x[4], x[5], x[6], x[7], k - 4) ^ quad_byte(t.c, x[0], x[1], x[2], x[3], k - 4)
    }
}

/// Byte `i` of the tables' product with the 8-byte elements of `s`.
spec fn lanes64_byte(t: Fp64Lanes, s: Seq<u8>, i: int) -> u8 {
    let e = i - i % 8;
    oct_byte(t, s.subrange(e, e + 8), i % 8)
}

/// The GF(2^64) product of one element.
fn scale_oct(t: &Fp64Lanes, x: [u8; 8]) -> (r: [u8; 8])
    ensures
        forall|k: int| 0 <= k < 8 ==> #[trigger] r@[k] == oct_byte(*t, x@, k),
{
    let lo_a = scale_quad(&t.a, x[0], x[1], x[2], x[3]);
    let hi_c = scale_quad(&t.c, x[4], x[5], x[6], x[7]);
    let hi_b = scale_quad(&t.b, x[4], x[5], x[6], x[7]);
    let lo_c = scale_quad(&t.c, x[0], x[1], x[2], x[3]);
    let r = [
        lo_a[0] ^ hi_c[0],
        lo_a[1] ^ hi_c[1],
        lo_a[2] ^ hi_c[2],
        lo_a[3] ^ hi_c[3],
        hi_b[0] ^ lo_c[0],
        hi_b[1] ^ lo_c[1],
        hi_b[2] ^ lo_c[2],
        hi_b[3] ^ lo_c[3],
    ];
    assert(r@[0] == oct_byte(*t, x@, 0) && r@[1] == oct_byte(*t, x@, 1) && r@[2] == oct_byte(
        *t,
        x@,
        2,
    ) && r@[3] == oct_byte(*t, x@, 3));
    assert(r@[4] == oct_byte(*t, x@, 4) && r@[5] == oct_byte(*t, x@, 5) && r@[6] == oct_byte(
        *t,
        x@,
        6,
    ) && r@[7] == oct_byte(*t, x@, 7));
    r
}

/// The GF(2^32) element walk: each 4-byte element of `src` (or of `dst`
/// itself, when `src` is `None`) multiplied through the tables, added into
/// `dst` when `accumulate`, else stored.
fn fp32_walk(dst: &mut [u8], tables: &Fp32Lanes, src: Option<&[u8]>, accumulate: bool)
    requires
        old(dst)@.len() % 4 == 0,
        src matches Some(s) ==> s@.len() == old(dst)@.len(),
    ensures
        final(dst)@.len() == old(dst)@.len(),
        forall|i: int|
            0 <= i < old(dst)@.len() ==> #[trigger] final(dst)@[i] == (if accumulate {
                old(dst)@[i]
            } else {
                0u8
            }) ^ lanes32_byte(
                *tables,
                match src {
                    Some(s) => s@,
                    None => old(dst)@,
                },
                i,
            ),
{
    let ghost input = match src {
        Some(s) => s@,
        None => old(dst)@,
    };
    let n = dst.len();
    let mut k: usize = 0;
    while k < n
        invariant
            n == old(dst)@.len(),
            input.len() == n,
            input == (match src {
                Some(s) => s@,
                None => old(dst)@,
            }),
            n % 4 == 0,
            k % 4 == 0,
            k <= n,
            dst@.len() == n,
            forall|i: int|
                0 <= i < k ==> #[trigger] dst@[i] == (if accumulate {
                    old(dst)@[i]
                } else {
                    0u8
                }) ^ lanes32_byte(*tables, input, i),
            forall|i: int| k <= i < n ==> #[trigger] dst@[i] == old(dst)@[i],
        decreases n - k,
    {
        let (x0, x1, x2, x3) = match src {
            Some(s) => (s[k], s[k + 1], s[k + 2], s[k + 3]),
            None => (dst[k], dst[k + 1], dst[k + 2], dst[k + 3]),
        };
        let r = scale_quad(tables, x0, x1, x2, x3);
        let mut j: usize = 0;
        while j < 4
            invariant
                j <= 4,
                k + 4 <= n,
                k % 4 == 0,
                dst@.len() == n,
                n == old(dst)@.len(),
                input.len() == n,
                x0 == input[k as int] && x1 == input[k + 1] && x2 == input[k + 2] && x3 == input[k
                    + 3],
                forall|m: int| 0 <= m < 4 ==> #[trigger] r@[m] == quad_byte(*tables, x0, x1, x2, x3, m),
                forall|i: int|
                    0 <= i < k + j ==> #[trigger] dst@[i] == (if accumulate {
                        old(dst)@[i]
                    } else {
                        0u8
                    }) ^ lanes32_byte(*tables, input, i),
                forall|i: int| k + j <= i < n ==> #[trigger] dst@[i] == old(dst)@[i],
            decreases 4 - j,
        {
            let d = dst[k + j];
            let v = if accumulate {
                d ^ r[j]
            } else {
                r[j]
            };
            dst[k + j] = v;
            proof {
                let i = (k + j) as int;
                assert(i - i % 4 == k && i % 4 == j);
                crate::field::gf8::lemma_xor_zero(r@[j as int]);
            }
            j += 1;
        }
        k += 4;
    }
}

/// The GF(2^64) element walk: each 8-byte element of `src` (or of `dst`
/// itself, when `src` is `None`) multiplied through the tables, added into
/// `dst` when `accumulate`, else stored.
fn fp64_walk(dst: &mut [u8], tables: &Fp64Lanes, src: Option<&[u8]>, accumulate: bool)
    requires
        old(dst)@.len() % 8 == 0,
        src matches Some(s) ==> s@.len() == old(dst)@.len(),
    ensures
        final(dst)@.len() == old(dst)@.len(),
        forall|i: int|
            0 <= i < old(dst)@.len() ==> #[trigger] final(dst)@[i] == (if accumulate {
                old(dst)@[i]
            } else {
                0u8
            }) ^ lanes64_byte(
                *tables,
                match src {
                    Some(s) => s@,
                    None => old(dst)@,
                },
                i,
            ),
{
    let ghost input = match src {
        Some(s) => s@,
        None => old(dst)@,
    };
    let n = dst.len();
    let mut k: usize = 0;
    while k < n
        invariant
            n == old(dst)@.len(),
            input.len() == n,
            input == (match src {
                Some(s) => s@,
                None => old(dst)@,
            }),
            n % 8 == 0,
            k % 8 == 0,
            k <= n,
            dst@.len() == n,
            forall|i: int|
                0 <= i < k ==> #[trigger] dst@[i] == (if accumulate {
                    old(dst)@[i]
                } else {
                    0u8
                }) ^ lanes64_byte(*tables, input, i),
            forall|i: int| k <= i < n ==> #[trigger] dst@[i] == old(dst)@[i],
        decreases n - k,
    {
        let x: [u8; 8] = match src {
            Some(s) => [s[k], s[k + 1], s[k + 2], s[k + 3], s[k + 4], s[k + 5], s[k + 6], s[k + 7]],
            None => [
                dst[k],
                dst[k + 1],
                dst[k + 2],
                dst[k + 3],
                dst[k + 4],
                dst[k + 5],
                dst[k + 6],
                dst[k + 7],
            ],
        };
        assert(x@ =~= input.subrange(k as int, k + 8));
        let r = scale_oct(tables, x);
        let mut j: usize = 0;
        while j < 8
            invariant
                j <= 8,
                k + 8 <= n,
                k % 8 == 0,
                dst@.len() == n,
                n == old(dst)@.len(),
                input.len() == n,
                x@ == input.subrange(k as int, k + 8),
                forall|m: int| 0 <= m < 8 ==> #[trigger] r@[m] == oct_byte(*tables, x@, m),
                forall|i: int|
                    0 <= i < k + j ==> #[trigger] dst@[i] == (if accumulate {
                        old(dst)@[i]
                    } else {
                        0u8
                    }) ^ lanes64_byte(*tables, input, i),
                forall|i: int| k + j <= i < n ==> #[trigger] dst@[i] == old(dst)@[i],
            decreases 8 - j,
        {
            let d = dst[k + j];
            let v = if accumulate {
                d ^ r[j]
            } else {
                r[j]
            };
            dst[k + j] = v;
            proof {
                let i = (k + j) as int;
                assert(i - i % 8 == k && i % 8 == j);
                crate::field::gf8::lemma_xor_zero(r@[j as int]);
            }
            j += 1;
        }
        k += 8;
    }
}

/// `dst ^= coeff * src` (Fan–Paar GF(2^32), AVX2), through the
/// coefficient's three GF(2^16) scales.

impl Fp32Lanes {
    /// The three scales are those of `coeff = c0 + c1·X`: `c0`,
    /// `c0 + α·c1` and `c1`.
    spec fn wf(&self) -> bool {
        &&& self.a.wf()
        &&& self.b.wf()
        &&& self.c.wf()
        &&& self.a.coeff == gf32::lo(self.coeff)
        &&& self.b.coeff == gf32::lo(self.coeff) ^ fp16(ALPHA16, gf32::hi(self.coeff))
        &&& self.c.coeff == gf32::hi(self.coeff)
    }
}

impl Fp64Lanes {
    /// The three scales are those of `coeff = c0 + c1·X`: `c0`,
    /// `c0 + α·c1` and `c1`.
    spec fn wf(&self) -> bool {
        &&& self.a.wf()
        &&& self.b.wf()
        &&& self.c.wf()
        &&& self.a.coeff == gf64::lo(self.coeff)
        &&& self.b.coeff == gf64::lo(self.coeff) ^ fp32(ALPHA32, gf64::hi(self.coeff))
        &&& self.c.coeff == gf64::hi(self.coeff)
    }
}

/// Byte `i` of the Fan–Paar GF(2^32) product of `c` with the 4-byte
/// little-endian elements of `s`.
pub open spec fn fp32_byte(c: u32, s: Seq<u8>, i: int) -> u8 {
    let e = i - i % 4;
    byte32(fp32(c, word32(s[e], s[e + 1], s[e + 2], s[e + 3])), i % 4)
}

/// Byte `i` of the Fan–Paar GF(2^64) product of `c` with the 8-byte
/// little-endian elements of `s`.
pub open spec fn fp64_byte(c: u64, s: Seq<u8>, i: int) -> u8 {
    let e = i - i % 8;
    byte64(fp64(c, word64(s.subrange(e, e + 8))), i % 8)
}

/// Well-formed scales multiply one GF(2^32) element by their coefficient.
proof fn lemma_quad(t: Fp32Lanes, x0: u8, x1: u8, x2: u8, x3: u8, k: int)
    requires
        t.wf(),
        0 <= k < 4,
    ensures
        quad_byte(t, x0, x1, x2, x3, k) == byte32(fp32(t.coeff, word32(x0, x1, x2, x3)), k),
{
    reveal(fp32);
    lemma_word32(x0, x1, x2, x3);
    lemma_pair(t.a, x0, x1);
    lemma_pair(t.c, x2, x3);
    lemma_pair(t.b, x2, x3);
    lemma_pair(t.c, x0, x1);
    let c0 = gf32::lo(t.coeff);
    let c1 = gf32::hi(t.coeff);
    let y0 = gf16::pack(x0, x1);
    let y1 = gf16::pack(x2, x3);
    let p = fp16(c0, y0);
    let q = fp16(c1, y1);
    let u = fp16(c0 ^ fp16(ALPHA16, c1), y1);
    let v = fp16(c1, y0);
    gf32::lemma_pack(p ^ q, u ^ v, 0, 0);
    gf16::lemma_pack(0, 0, p, q);
    gf16::lemma_pack(0, 0, u, v);
}

/// Well-formed scales compute the GF(2^32) product byte by byte.
proof fn lemma_lanes32_byte(t: Fp32Lanes, s: Seq<u8>, i: int)
    requires
        t.wf(),
        0 <= i,
        i - i % 4 + 3 < s.len(),
    ensures
        lanes32_byte(t, s, i) == fp32_byte(t.coeff, s, i),
{
    let e = i - i % 4;
    lemma_quad(t, s[e], s[e + 1], s[e + 2], s[e + 3], i % 4);
}

/// Well-formed scales multiply one GF(2^64) element by their coefficient.
proof fn lemma_oct(t: Fp64Lanes, x: Seq<u8>, k: int)
    requires
        t.wf(),
        x.len() == 8,
        0 <= k < 8,
    ensures
        oct_byte(t, x, k) == byte64(fp64(t.coeff, word64(x)), k),
{
    let w0 = word32(x[0], x[1], x[2], x[3]);
    let w1 = word32(x[4], x[5], x[6], x[7]);
    reveal(fp64);
    gf64::lemma_pack(w0, w1, 0, 0);
    let c0 = gf64::lo(t.coeff);
    let c1 = gf64::hi(t.coeff);
    let p = fp32(c0, w0);
    let q = fp32(c1, w1);
    let u = fp32(c0 ^ fp32(ALPHA32, c1), w1);
    let v = fp32(c1, w0);
    gf64::lemma_pack(p ^ q, u ^ v, 0, 0);
    if k < 4 {
        lemma_quad(t.a, x[0], x[1], x[2], x[3], k);
        lemma_quad(t.c, x[4], x[5], x[6], x[7], k);
        lemma_byte32(p, q, k);
    } else {
        lemma_quad(t.b, x[4], x[5], x[6], x[7], k - 4);
        lemma_quad(t.c, x[0], x[1], x[2], x[3], k - 4);
        lemma_byte32(u, v, k - 4);
    }
}

/// Well-formed scales compute the GF(2^64) product byte by byte.
proof fn lemma_lanes64_byte(t: Fp64Lanes, s: Seq<u8>, i: int)
    requires
        t.wf(),
        0 <= i,
        i - i % 8 + 7 < s.len(),
    ensures
        lanes64_byte(t, s, i) == fp64_byte(t.coeff, s, i),
{
    let e = i - i % 8;
    lemma_oct(t, s.subrange(e, e + 8), i % 8);
}

/// The three GF(2^16) scales of the GF(2^32) coefficient `coeff`.
fn fp32_lanes(coeff: u32) -> (r: Fp32Lanes)
    ensures
        r.wf(),
        r.coeff == coeff,
{
    let c0 = (coeff & 0xffff) as u16;
    let c1 = (coeff >> 16u32) as u16;
    let b = c0 ^ fp16_mul(ALPHA16, c1);
    Fp32Lanes {
        coeff,
        a: FpTowerTables::new(c0),
        b: FpTowerTables::new(b),
        c: FpTowerTables::new(c1),
    }
}

/// The three GF(2^32) scales of the GF(2^64) coefficient `coeff`.
fn fp64_lanes(coeff: u64) -> (r: Fp64Lanes)
    ensures
        r.wf(),
        r.coeff == coeff,
{
    let c0 = (coeff & 0xffff_ffff) as u32;
    let c1 = (coeff >> 32u64) as u32;
    let b = c0 ^ fp32_mul(ALPHA32, c1);
    Fp64Lanes { coeff, a: fp32_lanes(c0), b: fp32_lanes(b), c: fp32_lanes(c1) }
}

/// `dst ^= coeff * src` (Fan–Paar GF(2^32), AVX2), through the
/// coefficient's three GF(2^16) scales.
pub fn mul_add_fp32_avx2(_token: X64V3Token, dst: &mut [u8], coeff: u32, src: &[u8])
    requires
        old(dst)@.len() == src@.len(),
        old(dst)@.len() % 4 == 0,
    ensures
        final(dst)@.len() == old(dst)@.len(),
        forall|i: int|
            0 <= i < old(dst)@.len() ==> #[trigger] final(dst)@[i] == old(dst)@[i] ^ fp32_byte(
                coeff,
                src@,
                i,
            ),
{
    let l = fp32_lanes(coeff);
    fp32_walk(dst, &l, Some(src), true);
    assert forall|i: int| 0 <= i < old(dst)@.len() implies #[trigger] dst@[i] == old(dst)@[i]
        ^ fp32_byte(coeff, src@, i) by {
        lemma_lanes32_byte(l, src@, i);
    }
}

/// `dst = coeff * dst` (Fan–Paar GF(2^32), AVX2).
pub fn mul_assign_fp32_avx2(_token: X64V3Token, dst: &mut [u8], coeff: u32)
    requires
        old(dst)@.len() % 4 == 0,
    ensures
        final(dst)@.len() == old(dst)@.len(),
        forall|i: int|
            0 <= i < old(dst)@.len() ==> #[trigger] final(dst)@[i] == fp32_byte(coeff, old(dst)@, i),
{
    let l = fp32_lanes(coeff);
    fp32_walk(dst, &l, None, false);
    assert forall|i: int| 0 <= i < old(dst)@.len() implies #[trigger] dst@[i] == fp32_byte(
        coeff,
        old(dst)@,
        i,
    ) by {
        crate::field::gf8::lemma_xor_zero(lanes32_byte(l, old(dst)@, i));
        lemma_lanes32_byte(l, old(dst)@, i);
    }
}

/// `dst = coeff * src` (Fan–Paar GF(2^32), AVX2); the destination is only
/// written.
pub fn mul_into_fp32_avx2(_token: X64V3Token, dst: &mut [u8], coeff: u32, src: &[u8])
    requires
        old(dst)@.len() == src@.len(),
        old(dst)@.len() % 4 == 0,
    ensures
        final(dst)@.len() == old(dst)@.len(),
        forall|i: int| 0 <= i < old(dst)@.len() ==> #[trigger] final(dst)@[i] == fp32_byte(coeff, src@, i),
{
    let l = fp32_lanes(coeff);
    fp32_walk(dst, &l, Some(src), false);
    assert forall|i: int| 0 <= i < old(dst)@.len() implies #[trigger] dst@[i] == fp32_byte(
        coeff,
        src@,
        i,
    ) by {
        crate::field::gf8::lemma_xor_zero(lanes32_byte(l, src@, i));
        lemma_lanes32_byte(l, src@, i);
    }
}

/// `dst ^= coeff * src` (Fan–Paar GF(2^64), AVX2), through the
/// coefficient's three GF(2^32) scales.
pub fn mul_add_fp64_avx2(_token: X64V3Token, dst: &mut [u8], coeff: u64, src: &[u8])
    requires
        old(dst)@.len() == src@.len(),
        old(dst)@.len() % 8 == 0,
    ensures
        final(dst)@.len() == old(dst)@.len(),
        forall|i: int|
            0 <= i < old(dst)@.len() ==> #[trigger] final(dst)@[i] == old(dst)@[i] ^ fp64_byte(
                coeff,
                src@,
                i,
            ),
{
    let l = fp64_lanes(coeff);
    fp64_walk(dst, &l, Some(src), true);
    assert forall|i: int| 0 <= i < old(dst)@.len() implies #[trigger] dst@[i] == old(dst)@[i]
        ^ fp64_byte(coeff, src@, i) by {
        lemma_lanes64_byte(l, src@, i);
    }
}

/// `dst = coeff * dst` (Fan–Paar GF(2^64), AVX2).
pub fn mul_assign_fp64_avx2(_token: X64V3Token, dst: &mut [u8], coeff: u64)
    requires
        old(dst)@.len() % 8 == 0,
    ensures
        final(dst)@.len() == old(dst)@.len(),
        forall|i: int|
            0 <= i < old(dst)@.len() ==> #[trigger] final(dst)@[i] == fp64_byte(coeff, old(dst)@, i),
{
    let l = fp64_lanes(coeff);
    fp64_walk(dst, &l, None, false);
    assert forall|i: int| 0 <= i < old(dst)@.len() implies #[trigger] dst@[i] == fp64_byte(
        coeff,
        old(dst)@,
        i,
    ) by {
        crate::field::gf8::lemma_xor_zero(lanes64_byte(l, old(dst)@, i));
        lemma_lanes64_byte(l, old(dst)@, i);
    }
}

/// `dst = coeff * src` (Fan–Paar GF(2^64), AVX2); the destination is only
/// written.
pub fn mul_into_fp64_avx2(_token: X64V3Token, dst: &mut [u8], coeff: u64, src: &[u8])
    requires
        old(dst)@.len() == src@.len(),
        old(dst)@.len() % 8 == 0,
    ensures
        final(dst)@.len() == old(dst)@.len(),
        forall|i: int| 0 <= i < old(dst)@.len() ==> #[trigger] final(dst)@[i] == fp64_byte(coeff, src@, i),
{
    let l = fp64_lanes(coeff);
    fp64_walk(dst, &l, Some(src), false);
    assert forall|i: int| 0 <= i < old(dst)@.len() implies #[trigger] dst@[i] == fp64_byte(
        coeff,
        src@,
        i,
    ) by {
        crate::field::gf8::lemma_xor_zero(lanes64_byte(l, src@, i));
        lemma_lanes64_byte(l, src@, i);
    }
}

} // verus!
