//! Mersenne31 (`u32` lanes) kernels at the AVX2 tier.
//!
//! Each entry takes an `X64V3Token`, holds its own geometry (paired lengths,
//! whole elements), and applies the Mersenne31 lane arithmetic of
//! [`super`] to every lane of the buffer.

use super::{
    check_elem_multiple, check_equal, lemma_axpy_coeff, lemma_mul_coeff, m31_add_raw, m31_axpy,
    m31_canon, m31_mul_raw, m31_scale, m31_sub_raw,
};
use crate::field::mersenne31;
use crate::lanes::{lane32, map_lanes32, zip3_lanes32, zip_lanes32};
use archmage::X64V3Token;
use vstd::prelude::*;

verus! {

/// `dst += src (mod p)`, Mersenne31, AVX2.
pub fn add_assign_m31_avx2(_token: X64V3Token, dst: &mut [u8], src: &[u8])
    requires
        old(dst)@.len() == src@.len(),
        old(dst)@.len() % 4 == 0,
    ensures
        final(dst)@.len() == old(dst)@.len(),
        forall|e: int|
            0 <= e < old(dst)@.len() / 4 ==> #[trigger] lane32(final(dst)@, e)
                == mersenne31::add(lane32(old(dst)@, e), lane32(src@, e)),
{
    check_equal("m31::add_assign_avx2", "dst", dst.len(), "src", src.len());
    check_elem_multiple("m31::add_assign_avx2", dst.len(), 4);
    zip_lanes32(dst, src, m31_add_raw);
}

/// `dst -= src (mod p)`, Mersenne31, AVX2.
pub fn sub_assign_m31_avx2(_token: X64V3Token, dst: &mut [u8], src: &[u8])
    requires
        old(dst)@.len() == src@.len(),
        old(dst)@.len() % 4 == 0,
    ensures
        final(dst)@.len() == old(dst)@.len(),
        forall|e: int|
            0 <= e < old(dst)@.len() / 4 ==> #[trigger] lane32(final(dst)@, e)
                == mersenne31::sub(lane32(old(dst)@, e), lane32(src@, e)),
{
    check_equal("m31::sub_assign_avx2", "dst", dst.len(), "src", src.len());
    check_elem_multiple("m31::sub_assign_avx2", dst.len(), 4);
    zip_lanes32(dst, src, m31_sub_raw);
}

/// `dst += coeff * src (mod p)`, Mersenne31, AVX2. The coefficient is
/// canonicalized once; any raw word is accepted.
pub fn mul_add_m31_avx2(_token: X64V3Token, dst: &mut [u8], coeff: u32, src: &[u8])
    requires
        old(dst)@.len() == src@.len(),
        old(dst)@.len() % 4 == 0,
    ensures
        final(dst)@.len() == old(dst)@.len(),
        forall|e: int|
            0 <= e < old(dst)@.len() / 4 ==> #[trigger] lane32(final(dst)@, e)
                == mersenne31::add(lane32(old(dst)@, e), mersenne31::mul(coeff, lane32(src@, e))),
{
    check_equal("m31::mul_add_avx2", "dst", dst.len(), "src", src.len());
    check_elem_multiple("m31::mul_add_avx2", dst.len(), 4);
    let cred = m31_canon(coeff);
    let f = |d: u32, s: u32| -> (r: u32)
        ensures
            r == mersenne31::canon(d + cred * s),
        { m31_axpy(cred, d, s) };
    zip_lanes32(dst, src, f);
    proof {
        assert forall|d: u32, s: u32|
            #![trigger mersenne31::add(d, mersenne31::mul(coeff, s))]
            mersenne31::canon(d + cred * s) == mersenne31::add(d, mersenne31::mul(coeff, s)) by {
            lemma_axpy_coeff(cred, coeff, d, s);
        }
    }
}

/// `dst *= coeff (mod p)`, Mersenne31, AVX2. The coefficient is
/// canonicalized once; any raw word is accepted.
pub fn mul_assign_m31_avx2(_token: X64V3Token, dst: &mut [u8], coeff: u32)
    requires
        old(dst)@.len() % 4 == 0,
    ensures
        final(dst)@.len() == old(dst)@.len(),
        forall|e: int|
            0 <= e < old(dst)@.len() / 4 ==> #[trigger] lane32(final(dst)@, e)
                == mersenne31::mul(coeff, lane32(old(dst)@, e)),
{
    check_elem_multiple("m31::mul_assign_avx2", dst.len(), 4);
    let cred = m31_canon(coeff);
    let f = |d: u32| -> (r: u32)
        ensures
            r == mersenne31::mul(cred, d),
        { m31_scale(cred, d) };
    map_lanes32(dst, f);
    proof {
        assert forall|d: u32| #![trigger mersenne31::mul(coeff, d)]
            mersenne31::mul(cred, d) == mersenne31::mul(coeff, d) by {
            lemma_mul_coeff(cred, coeff, d);
        }
    }
}

/// `dst = coeff * src (mod p)`, Mersenne31, AVX2. The coefficient is
/// canonicalized once; any raw word is accepted.
pub fn mul_into_m31_avx2(_token: X64V3Token, dst: &mut [u8], coeff: u32, src: &[u8])
    requires
        old(dst)@.len() == src@.len(),
        old(dst)@.len() % 4 == 0,
    ensures
        final(dst)@.len() == old(dst)@.len(),
        forall|e: int|
            0 <= e < old(dst)@.len() / 4 ==> #[trigger] lane32(final(dst)@, e)
                == mersenne31::mul(coeff, lane32(src@, e)),
{
    check_equal("m31::mul_into_avx2", "dst", dst.len(), "src", src.len());
    check_elem_multiple("m31::mul_into_avx2", dst.len(), 4);
    let cred = m31_canon(coeff);
    let f = |_d: u32, s: u32| -> (r: u32)
        ensures
            r == mersenne31::mul(cred, s),
        { m31_scale(cred, s) };
    zip_lanes32(dst, src, f);
    proof {
        assert forall|s: u32| #![trigger mersenne31::mul(coeff, s)]
            mersenne31::mul(cred, s) == mersenne31::mul(coeff, s) by {
            lemma_mul_coeff(cred, coeff, s);
        }
    }
}

/// `dst[i] = a[i] * b[i] (mod p)`, Mersenne31, AVX2.
pub fn mul_elementwise_m31_avx2(_token: X64V3Token, dst: &mut [u8], a: &[u8], b: &[u8])
    requires
        old(dst)@.len() == a@.len(),
        old(dst)@.len() == b@.len(),
        old(dst)@.len() % 4 == 0,
    ensures
        final(dst)@.len() == old(dst)@.len(),
        forall|e: int|
            0 <= e < old(dst)@.len() / 4 ==> #[trigger] lane32(final(dst)@, e)
                == mersenne31::mul(lane32(a@, e), lane32(b@, e)),
{
    check_equal("m31::mul_elementwise_avx2", "dst", dst.len(), "a", a.len());
    check_equal("m31::mul_elementwise_avx2", "dst", dst.len(), "b", b.len());
    check_elem_multiple("m31::mul_elementwise_avx2", dst.len(), 4);
    zip3_lanes32(dst, a, b, m31_mul_raw);
}

} // verus!
