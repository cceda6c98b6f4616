//! Gather tile-width and remainder controls.
//!
//! The production gather body held fixed while the accumulator count, the
//! source-chain split and the remainder composition vary, and the prepared
//! `Gf8B` affine gather sharing the production body.

use super::super::gather::{
    gather_fused, gather_ok, gather_step, gather_sum, gather_term, gathered,
    mul_add_gather_gfni, mul_add_gather_impl, span_sum,
};
use super::super::{Affine8B, Affine8BFactor, Gfni, brem_span};
use crate::field::gf8::{lemma_xor_assoc, lemma_xor_swap, lemma_xor_zero};
use crate::field::gf8b::Elem;
use archmage::X64V3GfniCryptoToken;
use vstd::prelude::*;

verus! {

/// Gather under `0x11B` through prepared `VGF2P8AFFINEQB` maps:
/// `dst[i] ^= sum_t factors[t] * srcs[t][i]`, sharing the production body
/// and its short-row fusion rule.
pub fn mul_add_gather_affine_8b(
    _token: X64V3GfniCryptoToken,
    dst: &mut [u8],
    factors: &[Affine8BFactor],
    srcs: &[&[u8]],
)
    requires
        gather_ok(old(dst)@.len() as int, factors@.len() as int, srcs@),
        forall|t: int| 0 <= t < factors@.len() ==> (#[trigger] factors@[t]).wf(),
    ensures
        gathered::<Affine8B>(old(dst)@, final(dst)@, factors@, srcs@, old(dst)@.len() as int),
{
    let fused = gather_fused(dst.len(), factors.len());
    mul_add_gather_impl::<Affine8B>(dst, factors, srcs, fused, 4);
}

/// The pre-fusion GFNI gather: the production 128-byte body, every
/// remainder composed from single-source AXPY passes.
pub fn mul_add_gather_gfni_axpy_tail(
    _token: X64V3GfniCryptoToken,
    dst: &mut [u8],
    coeffs: &[Elem],
    srcs: &[&[u8]],
)
    requires
        gather_ok(old(dst)@.len() as int, coeffs@.len() as int, srcs@),
    ensures
        gathered::<Gfni>(old(dst)@, final(dst)@, coeffs@, srcs@, old(dst)@.len() as int),
{
    mul_add_gather_impl::<Gfni>(dst, coeffs, srcs, false, 4);
}

/// The GFNI gather with `TILE_LANES` 32-byte accumulators (1 to 4). Four is
/// the production entry itself; narrower tiles use the same body with the
/// single-source AXPY remainder.
pub fn mul_add_gather_gfni_tile<const TILE_LANES: usize>(
    token: X64V3GfniCryptoToken,
    dst: &mut [u8],
    coeffs: &[Elem],
    srcs: &[&[u8]],
)
    requires
        1 <= TILE_LANES <= 4,
        gather_ok(old(dst)@.len() as int, coeffs@.len() as int, srcs@),
    ensures
        gathered::<Gfni>(old(dst)@, final(dst)@, coeffs@, srcs@, old(dst)@.len() as int),
{
    if TILE_LANES == 4 {
        mul_add_gather_gfni(token, dst, coeffs, srcs);
        return;
    }
    mul_add_gather_impl::<Gfni>(dst, coeffs, srcs, false, TILE_LANES);
}

/// The even-indexed terms among the first `2 * pairs` (and the last term
/// when `odd_tail`), at byte `i`.
pub open spec fn even_sum(coeffs: Seq<Elem>, srcs: Seq<&[u8]>, i: int, pairs: nat) -> u8
    decreases pairs,
{
    if pairs == 0 {
        0u8
    } else {
        even_sum(coeffs, srcs, i, (pairs - 1) as nat) ^ gather_term::<Gfni>(
            coeffs,
            srcs,
            2 * (pairs - 1),
            i,
        )
    }
}

/// The odd-indexed terms among the first `2 * pairs`, at byte `i`.
pub open spec fn odd_sum(coeffs: Seq<Elem>, srcs: Seq<&[u8]>, i: int, pairs: nat) -> u8
    decreases pairs,
{
    if pairs == 0 {
        0u8
    } else {
        odd_sum(coeffs, srcs, i, (pairs - 1) as nat) ^ gather_term::<Gfni>(
            coeffs,
            srcs,
            2 * (pairs - 1) + 1,
            i,
        )
    }
}

/// Splitting the first `2 * pairs` terms by index parity loses none.
proof fn lemma_parity_split(coeffs: Seq<Elem>, srcs: Seq<&[u8]>, i: int, pairs: nat)
    ensures
        span_sum::<Gfni>(coeffs, srcs, i, 0, 2 * pairs) == even_sum(coeffs, srcs, i, pairs)
            ^ odd_sum(coeffs, srcs, i, pairs),
    decreases pairs,
{
    if pairs == 0 {
        lemma_xor_zero(0u8);
    } else {
        let p = (pairs - 1) as nat;
        lemma_parity_split(coeffs, srcs, i, p);
        let e = even_sum(coeffs, srcs, i, p);
        let o = odd_sum(coeffs, srcs, i, p);
        let te = gather_term::<Gfni>(coeffs, srcs, 2 * p as int, i);
        let to = gather_term::<Gfni>(coeffs, srcs, 2 * p as int + 1, i);
        let s = span_sum::<Gfni>(coeffs, srcs, i, 0, 2 * p);
        assert(span_sum::<Gfni>(coeffs, srcs, i, 0, (2 * p + 1) as nat) == s ^ te);
        assert(span_sum::<Gfni>(coeffs, srcs, i, 0, 2 * pairs) == (s ^ te) ^ to);
        lemma_xor_assoc(s, te, to);
        lemma_xor_swap(e, o, te, to);
    }
}

/// One split-chain tile: the even-indexed sources folded into the
/// destination window, the odd-indexed ones into a zeroed second bank, a
/// last odd-count source into the first bank, and the banks combined.
fn split_tile(dst: &mut [u8], off: usize, coeffs: &[Elem], srcs: &[&[u8]])
    requires
        gather_ok(old(dst)@.len() as int, coeffs@.len() as int, srcs@),
        off + 128 <= old(dst)@.len(),
    ensures
        final(dst)@.len() == old(dst)@.len(),
        forall|k: int|
            0 <= k < 128 ==> #[trigger] final(dst)@[off + k] == old(dst)@[off + k] ^ gather_sum::<
                Gfni,
            >(coeffs@, srcs@, off + k),
        forall|j: int|
            0 <= j < old(dst)@.len() && !(off <= j < off + 128) ==> #[trigger] final(dst)@[j]
                == old(dst)@[j],
{
    let n = coeffs.len();
    let pairs = n / 2;
    let total = dst.len();
    let mut odd: [u8; 128] = [0u8; 128];
    assert(odd@.len() == 128);
    assert(forall|k: int| 0 <= k < 128 ==> #[trigger] odd@[k] == 0);
    assert forall|k: int| 0 <= k < 128 implies #[trigger] dst@[off + k] == old(dst)@[off + k]
        ^ even_sum(coeffs@, srcs@, off + k, 0) && odd@[k] == odd_sum(coeffs@, srcs@, off + k, 0) by {
        lemma_xor_zero(dst@[off + k]);
    }
    let mut p: usize = 0;
    while p < pairs
        invariant
            n == coeffs@.len(),
            pairs == n / 2,
            p <= pairs,
            gather_ok(old(dst)@.len() as int, coeffs@.len() as int, srcs@),
            off + 128 <= old(dst)@.len(),
            dst@.len() == old(dst)@.len(),
            odd@.len() == 128,
            forall|k: int|
                0 <= k < 128 ==> #[trigger] dst@[off + k] == old(dst)@[off + k] ^ even_sum(
                    coeffs@,
                    srcs@,
                    off + k,
                    p as nat,
                ) && odd@[k] == odd_sum(coeffs@, srcs@, off + k, p as nat),
            forall|j: int|
                0 <= j < old(dst)@.len() && !(off <= j < off + 128) ==> #[trigger] dst@[j]
                    == old(dst)@[j],
        decreases pairs - p,
    {
        let index = p * 2;
        let even_src = srcs[index];
        let odd_src = srcs[index + 1];
        assert(even_src@.len() == old(dst)@.len() && odd_src@.len() == old(dst)@.len());
        let ghost d0 = dst@;
        let ghost o0 = odd@;
        brem_span::<Gfni>(dst, off, coeffs[index], even_src, off, 128);
        brem_span::<Gfni>(&mut odd, 0, coeffs[index + 1], odd_src, off, 128);
        assert forall|k: int| 0 <= k < 128 implies #[trigger] dst@[off + k] == old(dst)@[off + k]
            ^ even_sum(coeffs@, srcs@, off + k, (p + 1) as nat) && odd@[k] == odd_sum(
            coeffs@,
            srcs@,
            off + k,
            (p + 1) as nat,
        ) by {
            let a = old(dst)@[off + k];
            let e = even_sum(coeffs@, srcs@, off + k, p as nat);
            let te = gather_term::<Gfni>(coeffs@, srcs@, index as int, off + k);
            assert(dst@[off + k] == d0[off + k] ^ te);
            lemma_xor_assoc(a, e, te);
            assert(odd@[0 + k] == o0[0 + k] ^ gather_term::<Gfni>(
                coeffs@,
                srcs@,
                index + 1,
                off + k,
            ));
        }
        p += 1;
    }
    let ghost pre_tail = dst@;
    if n % 2 != 0 {
        let index = n - 1;
        let src = srcs[index];
        assert(src@.len() == old(dst)@.len());
        brem_span::<Gfni>(dst, off, coeffs[index], src, off, 128);
    }
    let ghost banked = dst@;
    let mut k: usize = 0;
    while k < 128
        invariant
            k <= 128,
            total == old(dst)@.len(),
            off + 128 <= old(dst)@.len(),
            odd@.len() == 128,
            dst@.len() == old(dst)@.len(),
            banked.len() == old(dst)@.len(),
            forall|m: int| 0 <= m < k ==> #[trigger] dst@[off + m] == banked[off + m] ^ odd@[m],
            forall|j: int|
                0 <= j < old(dst)@.len() && !(off <= j < off + k) ==> #[trigger] dst@[j]
                    == banked[j],
        decreases 128 - k,
    {
        let v = dst[off + k] ^ odd[k];
        dst[off + k] = v;
        k += 1;
    }
    assert forall|m: int| 0 <= m < 128 implies #[trigger] dst@[off + m] == old(dst)@[off + m]
        ^ gather_sum::<Gfni>(coeffs@, srcs@, off + m) by {
        let i = off + m;
        let a = old(dst)@[i];
        let e = even_sum(coeffs@, srcs@, i, pairs as nat);
        let o = odd_sum(coeffs@, srcs@, i, pairs as nat);
        lemma_parity_split(coeffs@, srcs@, i, pairs as nat);
        let s2 = span_sum::<Gfni>(coeffs@, srcs@, i, 0, 2 * pairs as nat);
        if n % 2 != 0 {
            let tl = gather_term::<Gfni>(coeffs@, srcs@, n - 1, i);
            assert(banked[i] == (a ^ e) ^ tl);
            assert(gather_sum::<Gfni>(coeffs@, srcs@, i) == s2 ^ tl);
            lemma_xor_assoc(a, e, tl);
            lemma_xor_assoc(a, e ^ tl, o);
            lemma_xor_swap(e, tl, o, 0u8);
            lemma_xor_zero(o);
            lemma_xor_zero(tl);
        } else {
            assert(2 * pairs == n);
            assert(banked[i] == a ^ e);
            lemma_xor_assoc(a, e, o);
        }
    }
}

/// The split-chain gather walk: whole 128-byte tiles by [`split_tile`],
/// then the per-source AXPY remainder.
pub fn gather_split(dst: &mut [u8], coeffs: &[Elem], srcs: &[&[u8]])
    requires
        gather_ok(old(dst)@.len() as int, coeffs@.len() as int, srcs@),
    ensures
        gathered::<Gfni>(old(dst)@, final(dst)@, coeffs@, srcs@, old(dst)@.len() as int),
{
    let total = dst.len();
    let mut off: usize = 0;
    while 128 <= total - off
        invariant
            total == old(dst)@.len(),
            off <= total,
            gather_ok(dst@.len() as int, coeffs@.len() as int, srcs@),
            gathered::<Gfni>(old(dst)@, dst@, coeffs@, srcs@, off as int),
        decreases total - off,
    {
        let ghost before = dst@;
        split_tile(dst, off, coeffs, srcs);
        assert forall|i: int| 0 <= i < off + 128 implies #[trigger] dst@[i] == old(dst)@[i]
            ^ gather_sum::<Gfni>(coeffs@, srcs@, i) by {
            if i >= off {
                assert(dst@[off + (i - off)] == before[off + (i - off)] ^ gather_sum::<Gfni>(
                    coeffs@,
                    srcs@,
                    off + (i - off),
                ));
            }
        }
        off += 128;
    }
    gather_step::<Gfni>(dst, off, total - off, coeffs, srcs, Ghost(old(dst)@));
}

/// The GFNI gather with the 128-byte tile's source chains split by index
/// parity into two accumulator banks; the remainder is the per-source AXPY
/// walk.
pub fn mul_add_gather_gfni_split(
    _token: X64V3GfniCryptoToken,
    dst: &mut [u8],
    coeffs: &[Elem],
    srcs: &[&[u8]],
)
    requires
        gather_ok(old(dst)@.len() as int, coeffs@.len() as int, srcs@),
    ensures
        gathered::<Gfni>(old(dst)@, final(dst)@, coeffs@, srcs@, old(dst)@.len() as int),
{
    gather_split(dst, coeffs, srcs);
}

} // verus!
