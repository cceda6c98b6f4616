//! Goldilocks (`u64` lanes) kernels at the SSE4.2 tier.
//!
//! Each entry takes an `X64V2Token`, holds its own geometry (paired lengths,
//! whole elements), and applies the Goldilocks lane arithmetic of
//! [`super::gld`] to every lane of the buffer.

use super::gld::{gld_add_raw, gld_axpy, gld_mul, gld_sub_raw};
use super::{check_elem_multiple, check_equal};
use crate::field::goldilocks;
use crate::lanes::{lane64, map_lanes64, zip3_lanes64, zip_lanes64};
use archmage::X64V2Token;
use vstd::prelude::*;

verus! {

/// `dst += src (mod p)`, Goldilocks, SSE4.2.
pub fn add_assign_gld_sse42(_token: X64V2Token, dst: &mut [u8], src: &[u8])
    requires
        old(dst)@.len() == src@.len(),
        old(dst)@.len() % 8 == 0,
    ensures
        final(dst)@.len() == old(dst)@.len(),
        forall|e: int|
            0 <= e < old(dst)@.len() / 8 ==> #[trigger] lane64(final(dst)@, e)
                == goldilocks::add(lane64(old(dst)@, e), lane64(src@, e)),
{
    check_equal("gld::add_assign_sse42", "dst", dst.len(), "src", src.len());
    check_elem_multiple("gld::add_assign_sse42", dst.len(), 8);
    zip_lanes64(dst, src, gld_add_raw);
}

/// `dst -= src (mod p)`, Goldilocks, SSE4.2.
pub fn sub_assign_gld_sse42(_token: X64V2Token, dst: &mut [u8], src: &[u8])
    requires
        old(dst)@.len() == src@.len(),
        old(dst)@.len() % 8 == 0,
    ensures
        final(dst)@.len() == old(dst)@.len(),
        forall|e: int|
            0 <= e < old(dst)@.len() / 8 ==> #[trigger] lane64(final(dst)@, e)
                == goldilocks::sub(lane64(old(dst)@, e), lane64(src@, e)),
{
    check_equal("gld::sub_assign_sse42", "dst", dst.len(), "src", src.len());
    check_elem_multiple("gld::sub_assign_sse42", dst.len(), 8);
    zip_lanes64(dst, src, gld_sub_raw);
}

/// `dst += coeff * src (mod p)`, Goldilocks, SSE4.2. Any raw coefficient
/// word is accepted: the full product is reduced.
pub fn mul_add_gld_sse42(_token: X64V2Token, dst: &mut [u8], coeff: u64, src: &[u8])
    requires
        old(dst)@.len() == src@.len(),
        old(dst)@.len() % 8 == 0,
    ensures
        final(dst)@.len() == old(dst)@.len(),
        forall|e: int|
            0 <= e < old(dst)@.len() / 8 ==> #[trigger] lane64(final(dst)@, e)
                == goldilocks::add(lane64(old(dst)@, e), goldilocks::mul(coeff, lane64(src@, e))),
{
    check_equal("gld::mul_add_sse42", "dst", dst.len(), "src", src.len());
    check_elem_multiple("gld::mul_add_sse42", dst.len(), 8);
    let f = |d: u64, s: u64| -> (r: u64)
        ensures
            r == goldilocks::add(d, goldilocks::mul(coeff, s)),
        { gld_axpy(coeff, d, s) };
    zip_lanes64(dst, src, f);
}

/// `dst *= coeff (mod p)`, Goldilocks, SSE4.2.
pub fn mul_assign_gld_sse42(_token: X64V2Token, dst: &mut [u8], coeff: u64)
    requires
        old(dst)@.len() % 8 == 0,
    ensures
        final(dst)@.len() == old(dst)@.len(),
        forall|e: int|
            0 <= e < old(dst)@.len() / 8 ==> #[trigger] lane64(final(dst)@, e)
                == goldilocks::mul(coeff, lane64(old(dst)@, e)),
{
    check_elem_multiple("gld::mul_assign_sse42", dst.len(), 8);
    let f = |d: u64| -> (r: u64)
        ensures
            r == goldilocks::mul(coeff, d),
        { gld_mul(coeff, d) };
    map_lanes64(dst, f);
}

/// `dst[i] = a[i] * b[i] (mod p)`, Goldilocks, SSE4.2.
pub fn mul_elementwise_gld_sse42(_token: X64V2Token, dst: &mut [u8], a: &[u8], b: &[u8])
    requires
        old(dst)@.len() == a@.len(),
        old(dst)@.len() == b@.len(),
        old(dst)@.len() % 8 == 0,
    ensures
        final(dst)@.len() == old(dst)@.len(),
        forall|e: int|
            0 <= e < old(dst)@.len() / 8 ==> #[trigger] lane64(final(dst)@, e)
                == goldilocks::mul(lane64(a@, e), lane64(b@, e)),
{
    check_equal("gld::mul_elementwise_sse42", "dst", dst.len(), "a", a.len());
    check_equal("gld::mul_elementwise_sse42", "dst", dst.len(), "b", b.len());
    check_elem_multiple("gld::mul_elementwise_sse42", dst.len(), 8);
    zip3_lanes64(dst, a, b, gld_mul);
}

/// `dst = coeff * src (mod p)`, Goldilocks, SSE4.2.
pub fn mul_into_gld_sse42(_token: X64V2Token, dst: &mut [u8], coeff: u64, src: &[u8])
    requires
        old(dst)@.len() == src@.len(),
        old(dst)@.len() % 8 == 0,
    ensures
        final(dst)@.len() == old(dst)@.len(),
        forall|e: int|
            0 <= e < old(dst)@.len() / 8 ==> #[trigger] lane64(final(dst)@, e)
                == goldilocks::mul(coeff, lane64(src@, e)),
{
    check_equal("gld::mul_into_sse42", "dst", dst.len(), "src", src.len());
    check_elem_multiple("gld::mul_into_sse42", dst.len(), 8);
    let f = |_d: u64, s: u64| -> (r: u64)
        ensures
            r == goldilocks::mul(coeff, s),
        { gld_mul(coeff, s) };
    zip_lanes64(dst, src, f);
}

/// `dst[i] = dst[i] * src[i] (mod p)`, Goldilocks, SSE4.2.
pub fn mul_elementwise_assign_gld_sse42(_token: X64V2Token, dst: &mut [u8], src: &[u8])
    requires
        old(dst)@.len() == src@.len(),
        old(dst)@.len() % 8 == 0,
    ensures
        final(dst)@.len() == old(dst)@.len(),
        forall|e: int|
            0 <= e < old(dst)@.len() / 8 ==> #[trigger] lane64(final(dst)@, e)
                == goldilocks::mul(lane64(old(dst)@, e), lane64(src@, e)),
{
    check_equal("gld::mul_elementwise_assign_sse42", "dst", dst.len(), "src", src.len());
    check_elem_multiple("gld::mul_elementwise_assign_sse42", dst.len(), 8);
    zip_lanes64(dst, src, gld_mul);
}

/// `dst[i] += value (mod p)`, Goldilocks, SSE4.2. The raw `value` word is
/// canonicalized once on entry.
pub fn add_assign_scalar_gld_sse42(_token: X64V2Token, dst: &mut [u8], value: u64)
    requires
        old(dst)@.len() % 8 == 0,
    ensures
        final(dst)@.len() == old(dst)@.len(),
        forall|e: int|
            0 <= e < old(dst)@.len() / 8 ==> #[trigger] lane64(final(dst)@, e)
                == goldilocks::add(lane64(old(dst)@, e), value),
{
    check_elem_multiple("gld::add_assign_scalar_sse42", dst.len(), 8);
    let f = |d: u64| -> (r: u64)
        ensures
            r == goldilocks::add(d, value),
        { gld_add_raw(d, value) };
    map_lanes64(dst, f);
}

/// `dst[i] -= value (mod p)`, Goldilocks, SSE4.2. The raw `value` word is
/// canonicalized once on entry.
pub fn sub_assign_scalar_gld_sse42(_token: X64V2Token, dst: &mut [u8], value: u64)
    requires
        old(dst)@.len() % 8 == 0,
    ensures
        final(dst)@.len() == old(dst)@.len(),
        forall|e: int|
            0 <= e < old(dst)@.len() / 8 ==> #[trigger] lane64(final(dst)@, e)
                == goldilocks::sub(lane64(old(dst)@, e), value),
{
    check_elem_multiple("gld::sub_assign_scalar_sse42", dst.len(), 8);
    let f = |d: u64| -> (r: u64)
        ensures
            r == goldilocks::sub(d, value),
        { gld_sub_raw(d, value) };
    map_lanes64(dst, f);
}

} // verus!
