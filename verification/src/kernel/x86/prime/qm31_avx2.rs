//! `QuadMersenne31` (`(re, im)` Mersenne31 limb pairs) kernels at the AVX2
//! tier.
//!
//! An element is eight bytes: the real limb, then the imaginary limb, each a
//! little-endian `u32`. The limb arithmetic is the Mersenne31 discipline of
//! [`super`]; this module adds the complex layer. A coefficient multiply
//! takes two limb products per output limb against the canonical
//! coefficient, with `p − ci` standing in for `−ci` on the real limb; the
//! elementwise product is the direct four-product form.
//!
//! The zero and one coefficient shortcuts are part of the contract: a zero
//! coefficient leaves a `mul_add` destination untouched and zero-fills a
//! `mul_assign` or `mul_into` destination; the coefficient one turns
//! `mul_add` into an addition and leaves a `mul_assign` destination
//! untouched, byte for byte.

use super::{
    check_elem_multiple, check_equal, m31_add_raw, m31_addmod, m31_fold, m31_mul_raw,
    m31_mulmod, m31_sub_raw, m31_submod,
};
use crate::field::mersenne31::{self, MODULUS as M31_P};
use crate::field::quad_mersenne31::{self as qm31, Elem, elem_at, limbs};
use crate::lanes::{lane64, le32_at, map_lanes64, zip3_lanes64, zip_lanes64};
use archmage::X64V3Token;
use vstd::arithmetic::div_mod::*;
use vstd::prelude::*;

verus! {

/// The limbs of a packed element word: the real limb is the low half.
pub open spec fn word_limbs(w: u64) -> (u32, u32) {
    (w as u32, (w >> 32u64) as u32)
}

/// A packed element word's two limbs are the buffer's two `u32` lanes.
pub proof fn lemma_word_limbs(s: Seq<u8>, e: int)
    requires
        0 <= e,
        8 * e + 8 <= s.len(),
    ensures
        word_limbs(lane64(s, e)) == elem_at(s, e),
{
    let lo = le32_at(s, 8 * e);
    let hi = le32_at(s, 8 * e + 4);
    let w = lane64(s, e);
    assert(w == (lo as u64) | ((hi as u64) << 32u64));
    assert(w as u32 == lo && (w >> 32u64) as u32 == hi) by (bit_vector)
        requires
            w == (lo as u64) | ((hi as u64) << 32u64),
    ;
    assert(4 * (2 * e) == 8 * e);
    assert(4 * (2 * e + 1) == 8 * e + 4);
}

/// Pack two limbs into an element word.
fn join(re: u32, im: u32) -> (w: u64)
    ensures
        word_limbs(w) == (re, im),
{
    let w = (re as u64) | ((im as u64) << 32u64);
    assert(w as u32 == re && (w >> 32u64) as u32 == im) by (bit_vector)
        requires
            w == (re as u64) | ((im as u64) << 32u64),
    ;
    w
}

/// `d + s` per limb.
fn qm31_add_word(d: u64, s: u64) -> (r: u64)
    ensures
        word_limbs(r) == qm31::add(word_limbs(d), word_limbs(s)),
{
    join(m31_add_raw(d as u32, s as u32), m31_add_raw((d >> 32u64) as u32, (s >> 32u64) as u32))
}

/// `d - s` per limb.
fn qm31_sub_word(d: u64, s: u64) -> (r: u64)
    ensures
        word_limbs(r) == qm31::sub(word_limbs(d), word_limbs(s)),
{
    join(m31_sub_raw(d as u32, s as u32), m31_sub_raw((d >> 32u64) as u32, (s >> 32u64) as u32))
}

/// `(cr + ci·i) * x` for a canonical coefficient: two limb products per
/// output limb, `p − ci` standing in for `−ci` on the real limb.
fn qm31_cmul(cr: u32, ci: u32, x: u64) -> (r: u64)
    requires
        cr < M31_P,
        ci < M31_P,
    ensures
        word_limbs(r) == qm31::mul((cr, ci), word_limbs(x)),
{
    let xr = x as u32;
    let xi = (x >> 32u64) as u32;
    let neg_ci = if ci == 0 {
        0
    } else {
        M31_P - ci
    };
    let fr = m31_fold(xr);
    let fi = m31_fold(xi);
    let re = m31_addmod(m31_mulmod(cr, fr), m31_mulmod(neg_ci, fi));
    let im = m31_addmod(m31_mulmod(cr, fi), m31_mulmod(ci, fr));
    proof {
        let p = mersenne31::p();
        // Every product against a folded limb is the product against the
        // raw limb.
        lemma_mul_mod_noop_right(cr as int, xr as int, p);
        lemma_mul_mod_noop_right(cr as int, fr as int, p);
        lemma_mul_mod_noop_right(neg_ci as int, xi as int, p);
        lemma_mul_mod_noop_right(neg_ci as int, fi as int, p);
        lemma_mul_mod_noop_right(cr as int, xi as int, p);
        lemma_mul_mod_noop_right(cr as int, fi as int, p);
        lemma_mul_mod_noop_right(ci as int, xr as int, p);
        lemma_mul_mod_noop_right(ci as int, fr as int, p);
        // The real limb: `cr·xr + (p − ci)·xi ≡ cr·xr − ci·xi`.
        lemma_add_mod_noop(cr * xr, neg_ci * xi, p);
        let m: int = if ci == 0 {
            0
        } else {
            xi as int
        };
        assert(neg_ci * xi == p * m - ci * xi) by (nonlinear_arith)
            requires
                p == 0x7fff_ffffint,
                ci == 0 ==> neg_ci == 0 && m == 0,
                ci != 0 ==> neg_ci == p - ci && m == xi,
        ;
        lemma_mod_multiples_vanish(m, cr * xr - ci * xi, p);
        lemma_add_mod_noop(cr * xi, ci * xr, p);
        assert(cr * xi + ci * xr == cr * xi + xi * 0 + ci * xr);
    }
    join(re, im)
}

/// `a * b` for two raw elements: the direct four-product form.
fn qm31_mul_word(a: u64, b: u64) -> (r: u64)
    ensures
        word_limbs(r) == qm31::mul(word_limbs(a), word_limbs(b)),
{
    let ar = a as u32;
    let ai = (a >> 32u64) as u32;
    let br = b as u32;
    let bi = (b >> 32u64) as u32;
    let rr = m31_mul_raw(ar, br);
    let ii = m31_mul_raw(ai, bi);
    let ri = m31_mul_raw(ar, bi);
    let ir = m31_mul_raw(ai, br);
    let re = m31_submod(rr, ii);
    let im = m31_addmod(ri, ir);
    proof {
        let p = mersenne31::p();
        lemma_sub_mod_noop(ar * br, ai * bi, p);
        lemma_add_mod_noop(ar * bi, ai * br, p);
    }
    join(re, im)
}

/// A product against the canonicalized coefficient is the product against
/// the raw one.
proof fn lemma_canonical_coeff(c: (u32, u32), x: (u32, u32))
    ensures
        qm31::mul(qm31::canon(c), x) == qm31::mul(c, x),
{
    let p = mersenne31::p();
    let (cr, ci) = c;
    let (kr, ki) = qm31::canon(c);
    lemma_mod_bound(cr as int, p);
    lemma_mod_bound(ci as int, p);
    lemma_mul_mod_noop_left(cr as int, x.0 as int, p);
    lemma_mul_mod_noop_left(ci as int, x.1 as int, p);
    lemma_mul_mod_noop_left(cr as int, x.1 as int, p);
    lemma_mul_mod_noop_left(ci as int, x.0 as int, p);
    lemma_sub_mod_noop(kr * x.0, ki * x.1, p);
    lemma_sub_mod_noop(cr * x.0, ci * x.1, p);
    lemma_add_mod_noop(kr * x.1, ki * x.0, p);
    lemma_add_mod_noop(cr * x.1, ci * x.0, p);
}

/// The coefficient one adds its source: `d + 1·s = d + s`.
proof fn lemma_one_coeff(d: (u32, u32), s: (u32, u32))
    ensures
        qm31::add(d, qm31::mul((1u32, 0u32), s)) == qm31::add(d, s),
{
    let p = mersenne31::p();
    assert(1 * s.0 - 0 * s.1 == s.0 as int);
    assert(1 * s.1 + 0 * s.0 == s.1 as int);
    lemma_add_mod_noop_right(d.0 as int, s.0 as int, p);
    lemma_add_mod_noop_right(d.1 as int, s.1 as int, p);
}

/// Zero every byte of `dst`.
fn zero_fill(dst: &mut [u8])
    ensures
        final(dst)@.len() == old(dst)@.len(),
        forall|j: int| 0 <= j < old(dst)@.len() ==> #[trigger] final(dst)@[j] == 0,
{
    let n = dst.len();
    let mut j: usize = 0;
    while j < n
        invariant
            n == dst@.len(),
            dst@.len() == old(dst)@.len(),
            j <= n,
            forall|k: int| 0 <= k < j ==> #[trigger] dst@[k] == 0,
        decreases n - j,
    {
        dst[j] = 0;
        j += 1;
    }
}

/// `dst += src` in GF((2^31 - 1)^2), AVX2.
pub fn add_assign_qm31_avx2(_token: X64V3Token, dst: &mut [u8], src: &[u8])
    requires
        old(dst)@.len() == src@.len(),
        old(dst)@.len() % 8 == 0,
    ensures
        final(dst)@.len() == old(dst)@.len(),
        forall|e: int|
            0 <= e < old(dst)@.len() / 8 ==> #[trigger] elem_at(final(dst)@, e) == qm31::add(
                elem_at(old(dst)@, e),
                elem_at(src@, e),
            ),
{
    check_equal("qm31::add_assign_avx2", "dst", dst.len(), "src", src.len());
    check_elem_multiple("qm31::add_assign_avx2", dst.len(), 8);
    zip_lanes64(dst, src, qm31_add_word);
    assert forall|e: int| 0 <= e < old(dst)@.len() / 8 implies #[trigger] elem_at(dst@, e)
        == qm31::add(elem_at(old(dst)@, e), elem_at(src@, e)) by {
        lemma_word_limbs(dst@, e);
        lemma_word_limbs(old(dst)@, e);
        lemma_word_limbs(src@, e);
    }
}

/// `dst -= src` in GF((2^31 - 1)^2), AVX2.
pub fn sub_assign_qm31_avx2(_token: X64V3Token, dst: &mut [u8], src: &[u8])
    requires
        old(dst)@.len() == src@.len(),
        old(dst)@.len() % 8 == 0,
    ensures
        final(dst)@.len() == old(dst)@.len(),
        forall|e: int|
            0 <= e < old(dst)@.len() / 8 ==> #[trigger] elem_at(final(dst)@, e) == qm31::sub(
                elem_at(old(dst)@, e),
                elem_at(src@, e),
            ),
{
    check_equal("qm31::sub_assign_avx2", "dst", dst.len(), "src", src.len());
    check_elem_multiple("qm31::sub_assign_avx2", dst.len(), 8);
    zip_lanes64(dst, src, qm31_sub_word);
    assert forall|e: int| 0 <= e < old(dst)@.len() / 8 implies #[trigger] elem_at(dst@, e)
        == qm31::sub(elem_at(old(dst)@, e), elem_at(src@, e)) by {
        lemma_word_limbs(dst@, e);
        lemma_word_limbs(old(dst)@, e);
        lemma_word_limbs(src@, e);
    }
}

/// `dst += coeff * src` in GF((2^31 - 1)^2), AVX2. The coefficient may hold
/// any raw limbs; a zero coefficient leaves `dst` untouched.
pub fn mul_add_qm31_avx2(token: X64V3Token, dst: &mut [u8], coeff: Elem, src: &[u8])
    requires
        old(dst)@.len() == src@.len(),
        old(dst)@.len() % 8 == 0,
    ensures
        final(dst)@.len() == old(dst)@.len(),
        qm31::is_zero(limbs(coeff)) ==> final(dst)@ == old(dst)@,
        !qm31::is_zero(limbs(coeff)) ==> forall|e: int|
            0 <= e < old(dst)@.len() / 8 ==> #[trigger] elem_at(final(dst)@, e) == qm31::add(
                elem_at(old(dst)@, e),
                qm31::mul(limbs(coeff), elem_at(src@, e)),
            ),
{
    check_equal("qm31::mul_add_avx2", "dst", dst.len(), "src", src.len());
    check_elem_multiple("qm31::mul_add_avx2", dst.len(), 8);
    let (cr, ci) = coeff.canonical().to_raw();
    if cr == 0 && ci == 0 {
        return;
    }
    if cr == 1 && ci == 0 {
        add_assign_qm31_avx2(token, dst, src);
        assert forall|e: int| 0 <= e < old(dst)@.len() / 8 implies #[trigger] elem_at(dst@, e)
            == qm31::add(elem_at(old(dst)@, e), qm31::mul(limbs(coeff), elem_at(src@, e))) by {
            lemma_canonical_coeff(limbs(coeff), elem_at(src@, e));
            lemma_one_coeff(elem_at(old(dst)@, e), elem_at(src@, e));
        }
        return;
    }
    let f = |d: u64, s: u64| -> (r: u64)
        ensures
            word_limbs(r) == qm31::add(word_limbs(d), qm31::mul((cr, ci), word_limbs(s))),
        { qm31_add_word(d, qm31_cmul(cr, ci, s)) };
    zip_lanes64(dst, src, f);
    assert forall|e: int| 0 <= e < old(dst)@.len() / 8 implies #[trigger] elem_at(dst@, e)
        == qm31::add(elem_at(old(dst)@, e), qm31::mul(limbs(coeff), elem_at(src@, e))) by {
        lemma_word_limbs(dst@, e);
        lemma_word_limbs(old(dst)@, e);
        lemma_word_limbs(src@, e);
        lemma_canonical_coeff(limbs(coeff), elem_at(src@, e));
    }
}

/// `dst *= coeff` in GF((2^31 - 1)^2), AVX2. The coefficient may hold any
/// raw limbs; a zero coefficient zeroes `dst` and the coefficient one
/// leaves it untouched.
pub fn mul_assign_qm31_avx2(_token: X64V3Token, dst: &mut [u8], coeff: Elem)
    requires
        old(dst)@.len() % 8 == 0,
    ensures
        final(dst)@.len() == old(dst)@.len(),
        qm31::is_zero(limbs(coeff)) ==> forall|j: int|
            0 <= j < old(dst)@.len() ==> #[trigger] final(dst)@[j] == 0,
        qm31::is_one(limbs(coeff)) ==> final(dst)@ == old(dst)@,
        !qm31::is_zero(limbs(coeff)) && !qm31::is_one(limbs(coeff)) ==> forall|e: int|
            0 <= e < old(dst)@.len() / 8 ==> #[trigger] elem_at(final(dst)@, e) == qm31::mul(
                limbs(coeff),
                elem_at(old(dst)@, e),
            ),
{
    check_elem_multiple("qm31::mul_assign_avx2", dst.len(), 8);
    let (cr, ci) = coeff.canonical().to_raw();
    if cr == 0 && ci == 0 {
        zero_fill(dst);
        return;
    }
    if cr == 1 && ci == 0 {
        return;
    }
    let f = |d: u64| -> (r: u64)
        ensures
            word_limbs(r) == qm31::mul((cr, ci), word_limbs(d)),
        { qm31_cmul(cr, ci, d) };
    map_lanes64(dst, f);
    assert forall|e: int| 0 <= e < old(dst)@.len() / 8 implies #[trigger] elem_at(dst@, e)
        == qm31::mul(limbs(coeff), elem_at(old(dst)@, e)) by {
        lemma_word_limbs(dst@, e);
        lemma_word_limbs(old(dst)@, e);
        lemma_canonical_coeff(limbs(coeff), elem_at(old(dst)@, e));
    }
}

/// `dst = coeff * src` in GF((2^31 - 1)^2), AVX2. The destination is
/// write-only; a zero coefficient zeroes it.
pub fn mul_into_qm31_avx2(_token: X64V3Token, dst: &mut [u8], coeff: Elem, src: &[u8])
    requires
        old(dst)@.len() == src@.len(),
        old(dst)@.len() % 8 == 0,
    ensures
        final(dst)@.len() == old(dst)@.len(),
        qm31::is_zero(limbs(coeff)) ==> forall|j: int|
            0 <= j < old(dst)@.len() ==> #[trigger] final(dst)@[j] == 0,
        !qm31::is_zero(limbs(coeff)) ==> forall|e: int|
            0 <= e < old(dst)@.len() / 8 ==> #[trigger] elem_at(final(dst)@, e) == qm31::mul(
                limbs(coeff),
                elem_at(src@, e),
            ),
{
    check_equal("qm31::mul_into_avx2", "dst", dst.len(), "src", src.len());
    check_elem_multiple("qm31::mul_into_avx2", dst.len(), 8);
    let (cr, ci) = coeff.canonical().to_raw();
    if cr == 0 && ci == 0 {
        zero_fill(dst);
        return;
    }
    let f = |_d: u64, s: u64| -> (r: u64)
        ensures
            word_limbs(r) == qm31::mul((cr, ci), word_limbs(s)),
        { qm31_cmul(cr, ci, s) };
    zip_lanes64(dst, src, f);
    assert forall|e: int| 0 <= e < old(dst)@.len() / 8 implies #[trigger] elem_at(dst@, e)
        == qm31::mul(limbs(coeff), elem_at(src@, e)) by {
        lemma_word_limbs(dst@, e);
        lemma_word_limbs(src@, e);
        lemma_canonical_coeff(limbs(coeff), elem_at(src@, e));
    }
}

/// `dst[i] = a[i] * b[i]` in GF((2^31 - 1)^2), AVX2.
pub fn mul_elementwise_qm31_avx2(_token: X64V3Token, dst: &mut [u8], a: &[u8], b: &[u8])
    requires
        old(dst)@.len() == a@.len(),
        old(dst)@.len() == b@.len(),
        old(dst)@.len() % 8 == 0,
    ensures
        final(dst)@.len() == old(dst)@.len(),
        forall|e: int|
            0 <= e < old(dst)@.len() / 8 ==> #[trigger] elem_at(final(dst)@, e) == qm31::mul(
                elem_at(a@, e),
                elem_at(b@, e),
            ),
{
    check_equal("qm31::mul_elementwise_avx2", "dst", dst.len(), "a", a.len());
    check_equal("qm31::mul_elementwise_avx2", "dst", dst.len(), "b", b.len());
    check_elem_multiple("qm31::mul_elementwise_avx2", dst.len(), 8);
    zip3_lanes64(dst, a, b, qm31_mul_word);
    assert forall|e: int| 0 <= e < old(dst)@.len() / 8 implies #[trigger] elem_at(dst@, e)
        == qm31::mul(elem_at(a@, e), elem_at(b@, e)) by {
        lemma_word_limbs(dst@, e);
        lemma_word_limbs(a@, e);
        lemma_word_limbs(b@, e);
    }
}

} // verus!
