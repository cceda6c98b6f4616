//! `dst[i] = a[i] * b[i]` over interleaved GF(2^16) elements.
//!
//! The one shape whose operands both vary, so no coefficient can be turned
//! into a table first. Three base products make an element:
//! `direct = [a*c, b*d]`, `crossed = [a*d, b*c]`, and `(b*d) * DELTA`.
//! GFNI multiplies the base field directly; AVX2 and SSSE3 borrow the
//! shift/reduce multiply of the GF(2^8) kernels and keep a nibble lookup
//! only for the constant `DELTA` factor.

use super::{multiplies, pairs_assign, pairs_into, product_byte};
use crate::field::gf16::{DELTA, lemma_delta_comm, lemma_tower_product, mul_hi, mul_lo};
use crate::field::gf8::gf_mul_exec;
use crate::field::gf8b;
use crate::kernel::x86::gf8::elementwise::branchless_lane;
use crate::tables::{ScaleTable, lemma_lookup, nibble_scale, scale_table};
use archmage::{X64V2Token, X64V3GfniCryptoToken, X64V3Token};
use vstd::prelude::*;

verus! {

/// `[x0, x1] * [y0, y1]` with every base product a `GF2P8MULB` lane.
pub(crate) fn product_gfni(x0: u8, x1: u8, y0: u8, y1: u8) -> (r: (u8, u8))
    ensures
        r.0 == mul_lo(x0, x1, y0, y1),
        r.1 == mul_hi(x0, x1, y0, y1),
{
    let ac = gf_mul_exec(gf8b::RED, x0, y0);
    let bd = gf_mul_exec(gf8b::RED, x1, y1);
    let ad = gf_mul_exec(gf8b::RED, x0, y1);
    let bc = gf_mul_exec(gf8b::RED, x1, y0);
    let delta_bd = gf_mul_exec(gf8b::RED, bd, DELTA);
    proof {
        lemma_tower_product(x0, x1, y0, y1);
    }
    (ac ^ delta_bd, (ad ^ bc) ^ bd)
}

/// `[x0, x1] * [y0, y1]` with the varying products by shift/reduce and the
/// `DELTA` factor by the nibble lookup of its table.
fn product_shuffle(delta: &ScaleTable, x0: u8, x1: u8, y0: u8, y1: u8) -> (r: (u8, u8))
    requires
        delta.wf(gf8b::RED),
        delta.coeff.0 == DELTA,
    ensures
        r.0 == mul_lo(x0, x1, y0, y1),
        r.1 == mul_hi(x0, x1, y0, y1),
{
    let ac = branchless_lane(gf8b::RED, x0, y0);
    let bd = branchless_lane(gf8b::RED, x1, y1);
    let ad = branchless_lane(gf8b::RED, x0, y1);
    let bc = branchless_lane(gf8b::RED, x1, y0);
    let delta_bd = nibble_scale(delta, bd);
    proof {
        lemma_lookup(*delta, gf8b::RED, bd);
        lemma_delta_comm(bd);
        lemma_tower_product(x0, x1, y0, y1);
    }
    (ac ^ delta_bd, (ad ^ bc) ^ bd)
}

/// `dst[i] = a[i] * b[i]` over interleaved tower elements using GFNI.
pub fn mul_elementwise_gfni(_token: X64V3GfniCryptoToken, dst: &mut [u8], a: &[u8], b: &[u8])
    requires
        old(dst)@.len() % 2 == 0,
        old(dst)@.len() == a@.len(),
        old(dst)@.len() == b@.len(),
    ensures
        final(dst)@.len() == old(dst)@.len(),
        forall|i: int| 0 <= i < old(dst)@.len() ==> #[trigger] final(dst)@[i] == product_byte(a@, b@, i),
{
    let f = |x0: u8, x1: u8, y0: u8, y1: u8| -> (r: (u8, u8))
        ensures
            r.0 == mul_lo(x0, x1, y0, y1),
            r.1 == mul_hi(x0, x1, y0, y1),
        { product_gfni(x0, x1, y0, y1) };
    pairs_into(dst, a, b, f);
}

/// `dst[i] = a[i] * b[i]` over interleaved tower elements, AVX2.
pub fn mul_elementwise_avx2(_token: X64V3Token, dst: &mut [u8], a: &[u8], b: &[u8])
    requires
        old(dst)@.len() % 2 == 0,
        old(dst)@.len() == a@.len(),
        old(dst)@.len() == b@.len(),
    ensures
        final(dst)@.len() == old(dst)@.len(),
        forall|i: int| 0 <= i < old(dst)@.len() ==> #[trigger] final(dst)@[i] == product_byte(a@, b@, i),
{
    let delta = scale_table(gf8b::Elem(DELTA));
    let f = |x0: u8, x1: u8, y0: u8, y1: u8| -> (r: (u8, u8))
        ensures
            r.0 == mul_lo(x0, x1, y0, y1),
            r.1 == mul_hi(x0, x1, y0, y1),
        { product_shuffle(&delta, x0, x1, y0, y1) };
    pairs_into(dst, a, b, f);
}

/// `dst[i] = a[i] * b[i]` over interleaved tower elements, SSSE3.
pub fn mul_elementwise_ssse3(_token: X64V2Token, dst: &mut [u8], a: &[u8], b: &[u8])
    requires
        old(dst)@.len() % 2 == 0,
        old(dst)@.len() == a@.len(),
        old(dst)@.len() == b@.len(),
    ensures
        final(dst)@.len() == old(dst)@.len(),
        forall|i: int| 0 <= i < old(dst)@.len() ==> #[trigger] final(dst)@[i] == product_byte(a@, b@, i),
{
    let delta = scale_table(gf8b::Elem(DELTA));
    let f = |x0: u8, x1: u8, y0: u8, y1: u8| -> (r: (u8, u8))
        ensures
            r.0 == mul_lo(x0, x1, y0, y1),
            r.1 == mul_hi(x0, x1, y0, y1),
        { product_shuffle(&delta, x0, x1, y0, y1) };
    pairs_into(dst, a, b, f);
}

/// `dst[i] = dst[i] * src[i]` over interleaved tower elements using GFNI.
pub fn mul_elementwise_assign_gfni(_token: X64V3GfniCryptoToken, dst: &mut [u8], src: &[u8])
    requires
        old(dst)@.len() % 2 == 0,
        old(dst)@.len() == src@.len(),
    ensures
        final(dst)@.len() == old(dst)@.len(),
        forall|i: int|
            0 <= i < old(dst)@.len() ==> #[trigger] final(dst)@[i] == product_byte(old(dst)@, src@, i),
{
    let f = |x0: u8, x1: u8, y0: u8, y1: u8| -> (r: (u8, u8))
        ensures
            r.0 == mul_lo(x0, x1, y0, y1),
            r.1 == mul_hi(x0, x1, y0, y1),
        { product_gfni(x0, x1, y0, y1) };
    pairs_assign(dst, src, f);
}

/// `dst[i] = dst[i] * src[i]` over interleaved tower elements, AVX2.
pub fn mul_elementwise_assign_avx2(_token: X64V3Token, dst: &mut [u8], src: &[u8])
    requires
        old(dst)@.len() % 2 == 0,
        old(dst)@.len() == src@.len(),
    ensures
        final(dst)@.len() == old(dst)@.len(),
        forall|i: int|
            0 <= i < old(dst)@.len() ==> #[trigger] final(dst)@[i] == product_byte(old(dst)@, src@, i),
{
    let delta = scale_table(gf8b::Elem(DELTA));
    let f = |x0: u8, x1: u8, y0: u8, y1: u8| -> (r: (u8, u8))
        ensures
            r.0 == mul_lo(x0, x1, y0, y1),
            r.1 == mul_hi(x0, x1, y0, y1),
        { product_shuffle(&delta, x0, x1, y0, y1) };
    pairs_assign(dst, src, f);
}

/// `dst[i] = dst[i] * src[i]` over interleaved tower elements, SSSE3.
pub fn mul_elementwise_assign_ssse3(_token: X64V2Token, dst: &mut [u8], src: &[u8])
    requires
        old(dst)@.len() % 2 == 0,
        old(dst)@.len() == src@.len(),
    ensures
        final(dst)@.len() == old(dst)@.len(),
        forall|i: int|
            0 <= i < old(dst)@.len() ==> #[trigger] final(dst)@[i] == product_byte(old(dst)@, src@, i),
{
    let delta = scale_table(gf8b::Elem(DELTA));
    let f = |x0: u8, x1: u8, y0: u8, y1: u8| -> (r: (u8, u8))
        ensures
            r.0 == mul_lo(x0, x1, y0, y1),
            r.1 == mul_hi(x0, x1, y0, y1),
        { product_shuffle(&delta, x0, x1, y0, y1) };
    pairs_assign(dst, src, f);
}

} // verus!
