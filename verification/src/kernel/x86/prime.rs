//! Prime-field kernels for x86 / `x86_64`.
//!
//! - **Mersenne31 (`u32` lanes).** `2^31 ≡ 1 (mod p)`, so a product folds
//!   with a mask, a shift and an add, then one subtract-and-min.
//! - **Goldilocks (`u64` lanes).** A 64×64→128 product from 32-bit partial
//!   products, then the split-fold reduction (`2^64 ≡ 2^32 − 1`,
//!   `2^96 ≡ −1`).
//! - **`QuadMersenne31`.** `(re, im)` pairs of Mersenne31 limbs with
//!   `i² = −1`.
//!
//! Each kernel is the lane arithmetic of its vector form, applied to every
//! lane of the buffer; the lane helpers below are that arithmetic.

pub mod gld;
pub mod gld_avx2;
pub mod gld_sse;
pub mod m31_avx2;
pub mod m31_sse;
pub mod qm31_avx2;

pub use gld_avx2::{
    add_assign_gld_avx2, add_assign_scalar_gld_avx2, mul_add_gld_avx2, mul_assign_gld_avx2,
    mul_elementwise_assign_gld_avx2, mul_elementwise_gld_avx2, mul_into_gld_avx2,
    sub_assign_gld_avx2, sub_assign_scalar_gld_avx2,
};
pub use gld_sse::{
    add_assign_gld_sse42, add_assign_scalar_gld_sse42, mul_add_gld_sse42, mul_assign_gld_sse42,
    mul_elementwise_assign_gld_sse42, mul_elementwise_gld_sse42, mul_into_gld_sse42,
    sub_assign_gld_sse42, sub_assign_scalar_gld_sse42,
};
pub use qm31_avx2::{
    add_assign_qm31_avx2, mul_add_qm31_avx2, mul_assign_qm31_avx2, mul_elementwise_qm31_avx2,
    mul_into_qm31_avx2, sub_assign_qm31_avx2,
};
pub use m31_avx2::{
    add_assign_m31_avx2, mul_add_m31_avx2, mul_assign_m31_avx2, mul_elementwise_m31_avx2,
    mul_into_m31_avx2, sub_assign_m31_avx2,
};
pub use m31_sse::{
    add_assign_m31_sse42, mul_add_m31_sse42, mul_assign_m31_sse42, mul_elementwise_m31_sse42,
    mul_into_m31_sse42, sub_assign_m31_sse42,
};

use crate::field::mersenne31::{self, MODULUS as M31_P};
use vstd::arithmetic::div_mod::*;
use vstd::prelude::*;

verus! {

/// Paired length equality: every entry holds its buffer pairs to it.
pub fn check_equal(name: &str, left_name: &str, left: usize, right_name: &str, right: usize)
    requires
        left == right,
{
}

/// Whole-element lengths: every entry holds its buffers to it.
pub fn check_elem_multiple(name: &str, len: usize, elem_bytes: usize)
    requires
        elem_bytes > 0,
        len % elem_bytes == 0,
{
}

/// Unsigned lane minimum (`pminud`).
pub fn min_epu32(a: u32, b: u32) -> (r: u32)
    ensures
        r == if a < b {
            a
        } else {
            b
        },
{
    if a < b {
        a
    } else {
        b
    }
}

/// Fold a raw lane (`2^31 ≡ 1`, no conditional subtract). The result is
/// at most `p + 1`, reached only by the raw lane `2^32 - 1`.
pub fn m31_fold(x: u32) -> (r: u32)
    ensures
        r <= M31_P + 1,
        r as int % mersenne31::p() == x as int % mersenne31::p(),
{
    let lo = x & M31_P;
    let hi = x >> 31u32;
    assert(lo <= 0x7fff_ffff && hi <= 1 && x == hi * 0x8000_0000u32 + lo && lo + hi
        <= 0x8000_0000u32) by (bit_vector)
        requires
            lo == x & 0x7fff_ffffu32,
            hi == x >> 31u32,
    ;
    proof {
        lemma_mod_multiples_vanish(hi as int, (hi + lo) as int, mersenne31::p());
    }
    lo + hi
}

/// Canonicalize a lane in `0..=2p`: two unconditional subtract-and-min steps.
pub fn m31_min_chain(x: u32) -> (r: u32)
    requires
        x <= 2 * M31_P,
    ensures
        r == x as int % mersenne31::p(),
{
    let u = min_epu32(x, x.wrapping_sub(M31_P));
    let v = min_epu32(u, u.wrapping_sub(M31_P));
    proof {
        if x >= 2 * M31_P {
            lemma_mod_multiples_vanish(2, (x - 2 * M31_P) as int, mersenne31::p());
        } else if x >= M31_P {
            lemma_mod_multiples_vanish(1, (x - M31_P) as int, mersenne31::p());
        }
        lemma_small_mod(v as nat, mersenne31::p() as nat);
    }
    v
}

/// `a * b (mod p)` over folded lanes: the 62-bit product folded once, then
/// one subtract-and-min.
pub fn m31_mulmod(a: u32, b: u32) -> (r: u32)
    requires
        a <= M31_P + 1,
        b <= M31_P + 1,
    ensures
        r == mersenne31::mul(a, b),
        r < M31_P,
{
    assert((a as int) * (b as int) <= 0x4000_0000_0000_0000) by (nonlinear_arith)
        requires
            a <= 0x8000_0000u32,
            b <= 0x8000_0000u32,
    ;
    proof {
        lemma_no_all_ones_product(a, b);
    }
    let prod = (a as u64) * (b as u64);
    let lo = (prod as u32) & M31_P;
    let hi = (prod >> 31u64) as u32;
    assert(lo <= 0x7fff_ffff && hi <= 0x8000_0000u32 && prod == (hi as u64) * 0x8000_0000u64
        + lo as u64 && (hi == 0x8000_0000u32 ==> lo == 0) && (hi == 0x7fff_ffffu32 ==> lo
        < 0x7fff_ffffu32)) by (bit_vector)
        requires
            lo == (prod as u32) & 0x7fff_ffffu32,
            hi == (prod >> 31u64) as u32,
            prod <= 0x4000_0000_0000_0000u64,
            prod != 0x3fff_ffff_ffff_ffffu64,
    ;
    let t = lo + hi;
    proof {
        lemma_mod_multiples_vanish(hi as int, t as int, mersenne31::p());
    }
    let r = min_epu32(t, t.wrapping_sub(M31_P));
    proof {
        if t >= M31_P {
            lemma_mod_multiples_vanish(1, (t - M31_P) as int, mersenne31::p());
        }
        lemma_small_mod(r as nat, mersenne31::p() as nat);
    }
    r
}

/// No two lanes in `0..=2^31` multiply to `2^62 - 1`, the one product whose
/// fold would leave `2p` behind.
proof fn lemma_no_all_ones_product(a: u32, b: u32)
    requires
        a <= 0x8000_0000u32,
        b <= 0x8000_0000u32,
    ensures
        (a as int) * (b as int) != 0x3fff_ffff_ffff_ffff,
{
    if a <= 0x7fff_fffe {
        assert((a as int) * (b as int) <= 0x7fff_fffe * 0x8000_0000) by (nonlinear_arith)
            requires
                a <= 0x7fff_fffeu32,
                b <= 0x8000_0000u32,
        ;
    } else if b <= 0x7fff_fffe {
        assert((a as int) * (b as int) <= 0x8000_0000 * 0x7fff_fffe) by (nonlinear_arith)
            requires
                b <= 0x7fff_fffeu32,
                a <= 0x8000_0000u32,
        ;
    }
}

/// `a + b (mod p)` of two folded lanes (`0..=p` in, canonical out).
pub fn m31_addmod(a: u32, b: u32) -> (r: u32)
    requires
        a <= M31_P,
        b <= M31_P,
    ensures
        r == mersenne31::add(a, b),
{
    m31_min_chain(a + b)
}

/// `a - b (mod p)` of two folded lanes (`0..=p` in, canonical out): the
/// wrapped difference, the add-back-and-min that undoes a wrap, then the
/// canonicalizing chain.
pub fn m31_submod(a: u32, b: u32) -> (r: u32)
    requires
        a <= M31_P,
        b <= M31_P,
    ensures
        r == mersenne31::sub(a, b),
{
    let diff = a.wrapping_sub(b);
    let fixed = min_epu32(diff, diff.wrapping_add(M31_P));
    proof {
        if a >= b {
            assert(fixed == a - b);
        } else {
            assert(fixed == a - b + M31_P);
            lemma_mod_multiples_vanish(1, a - b, mersenne31::p());
        }
    }
    m31_min_chain(fixed)
}

/// Canonicalize a raw lane: fold, then the min chain.
pub fn m31_canon(c: u32) -> (r: u32)
    ensures
        r < M31_P,
        r == c as int % mersenne31::p(),
{
    let f = m31_fold(c);
    let r = m31_min_chain(f);
    proof {
        lemma_mod_twice(c as int, mersenne31::p());
    }
    r
}

/// Raw-lane addition: canonicalize both operands, add, canonicalize.
pub fn m31_add_raw(d: u32, s: u32) -> (r: u32)
    ensures
        r == mersenne31::add(d, s),
{
    let a = m31_canon(d);
    let b = m31_canon(s);
    let r = m31_addmod(a, b);
    proof {
        lemma_add_mod_noop(d as int, s as int, mersenne31::p());
    }
    r
}

/// Raw-lane subtraction: canonicalize both operands, subtract, canonicalize.
pub fn m31_sub_raw(d: u32, s: u32) -> (r: u32)
    ensures
        r == mersenne31::sub(d, s),
{
    let a = m31_canon(d);
    let b = m31_canon(s);
    let r = m31_submod(a, b);
    proof {
        lemma_sub_mod_noop(d as int, s as int, mersenne31::p());
    }
    r
}

/// Raw-lane product: fold both operands, multiply.
pub fn m31_mul_raw(x: u32, y: u32) -> (r: u32)
    ensures
        r == mersenne31::mul(x, y),
{
    let a = m31_fold(x);
    let b = m31_fold(y);
    let r = m31_mulmod(a, b);
    proof {
        lemma_mul_mod_noop(x as int, y as int, mersenne31::p());
        lemma_mul_mod_noop(a as int, b as int, mersenne31::p());
    }
    r
}

/// `d + cred * s (mod p)` for a canonical coefficient: the product of the
/// folded source, the folded destination, one subtract-and-min.
pub fn m31_axpy(cred: u32, d: u32, s: u32) -> (r: u32)
    requires
        cred < M31_P,
    ensures
        r == mersenne31::canon(d + cred * s),
{
    let sf = m31_fold(s);
    let prod = m31_mulmod(cred, sf);
    let df = m31_canon(d);
    let sum = df + prod;
    let r = min_epu32(sum, sum.wrapping_sub(M31_P));
    proof {
        let p = mersenne31::p();
        if sum >= M31_P {
            lemma_mod_multiples_vanish(1, (sum - M31_P) as int, p);
        }
        lemma_small_mod(r as nat, p as nat);
        lemma_mul_mod_noop(cred as int, s as int, p);
        lemma_mul_mod_noop(cred as int, sf as int, p);
        lemma_add_mod_noop(d as int, cred * s, p);
        lemma_add_mod_noop(df as int, prod as int, p);
        lemma_mod_twice(cred * s, p);
    }
    r
}

/// `cred * x (mod p)` for a canonical coefficient and a raw lane: fold the
/// lane, multiply.
pub fn m31_scale(cred: u32, x: u32) -> (r: u32)
    requires
        cred < M31_P,
    ensures
        r == mersenne31::mul(cred, x),
{
    let f = m31_fold(x);
    let r = m31_mulmod(cred, f);
    proof {
        lemma_mul_mod_noop_right(cred as int, x as int, mersenne31::p());
        lemma_mul_mod_noop_right(cred as int, f as int, mersenne31::p());
    }
    r
}

/// A product against the canonicalized coefficient is the product against
/// the raw one.
pub proof fn lemma_mul_coeff(cred: u32, coeff: u32, d: u32)
    requires
        cred == coeff as int % mersenne31::p(),
    ensures
        mersenne31::mul(cred, d) == mersenne31::mul(coeff, d),
{
    lemma_mul_mod_noop_left(coeff as int, d as int, mersenne31::p());
}

/// The fused `d + cred * s` against the canonicalized coefficient is the
/// sum of `d` and the product against the raw one.
pub proof fn lemma_axpy_coeff(cred: u32, coeff: u32, d: u32, s: u32)
    requires
        cred == coeff as int % mersenne31::p(),
    ensures
        mersenne31::canon(d + cred * s) == mersenne31::add(d, mersenne31::mul(coeff, s)),
{
    let p = mersenne31::p();
    lemma_mul_mod_noop_left(coeff as int, s as int, p);
    lemma_add_mod_noop(d as int, cred * s, p);
    lemma_add_mod_noop(d as int, coeff * s, p);
    lemma_mod_twice(coeff * s, p);
    lemma_small_mod(((coeff * s) % p) as nat, p as nat);
}

} // verus!
