//! Many sources into one destination over interleaved GF(2^16) elements:
//! `dst ^= sum_t coeffs[t] * srcs[t]`.

use super::{TableCoefficient, axpy16, tower_byte};
use crate::field::gf16::Elem;
use crate::field::gf8::{lemma_xor_assoc, lemma_xor_zero};
use archmage::{X64V2Token, X64V3GfniCryptoToken, X64V3Token};
use vstd::prelude::*;

verus! {

/// Byte `i` of `sum_{t < n} coeffs[t] * srcs[t]`.
pub open spec fn gather16_sum<C: TableCoefficient>(
    coeffs: Seq<C>,
    srcs: Seq<&[u8]>,
    i: int,
    n: nat,
) -> u8
    decreases n,
{
    if n == 0 {
        0u8
    } else {
        (gather16_sum(coeffs, srcs, i, (n - 1) as nat) ^ tower_byte(
            coeffs[n - 1].value(),
            srcs[n - 1]@,
            i,
        )) as u8
    }
}

/// Gather geometry over elements: whole elements, one coefficient per
/// source, every source as long as the destination.
pub open spec fn gather16_ok(dst_len: int, ncoeffs: int, srcs: Seq<&[u8]>) -> bool {
    &&& dst_len % 2 == 0
    &&& ncoeffs == srcs.len()
    &&& forall|t: int| 0 <= t < srcs.len() ==> (#[trigger] srcs[t])@.len() == dst_len
}

/// `after` is `before` plus every source under its coefficient.
pub open spec fn gathered16<C: TableCoefficient>(
    before: Seq<u8>,
    after: Seq<u8>,
    coeffs: Seq<C>,
    srcs: Seq<&[u8]>,
) -> bool {
    &&& after.len() == before.len()
    &&& forall|i: int|
        0 <= i < before.len() ==> #[trigger] after[i] == before[i] ^ gather16_sum(
            coeffs,
            srcs,
            i,
            coeffs.len(),
        )
}

/// The gather walk: one source at a time across the whole destination.
pub(crate) fn gather16<C: TableCoefficient>(dst: &mut [u8], coeffs: &[C], srcs: &[&[u8]], by_table: bool)
    requires
        gather16_ok(old(dst)@.len() as int, coeffs@.len() as int, srcs@),
    ensures
        gathered16(old(dst)@, final(dst)@, coeffs@, srcs@),
{
    let n = dst.len();
    let count = coeffs.len();
    let mut t: usize = 0;
    assert forall|i: int| 0 <= i < n implies #[trigger] dst@[i] == old(dst)@[i] ^ gather16_sum(
        coeffs@,
        srcs@,
        i,
        0,
    ) by {
        lemma_xor_zero(dst@[i]);
    }
    while t < count
        invariant
            n == old(dst)@.len(),
            count == coeffs@.len(),
            gather16_ok(n as int, count as int, srcs@),
            t <= count,
            dst@.len() == n,
            forall|i: int|
                0 <= i < n ==> #[trigger] dst@[i] == old(dst)@[i] ^ gather16_sum(
                    coeffs@,
                    srcs@,
                    i,
                    t as nat,
                ),
        decreases count - t,
    {
        let src = srcs[t];
        assert(src@.len() == n);
        let ghost prev = dst@;
        axpy16(dst, 0, &coeffs[t], src, 0, n, by_table);
        assert forall|i: int| 0 <= i < n implies #[trigger] dst@[i] == old(dst)@[i] ^ gather16_sum(
            coeffs@,
            srcs@,
            i,
            (t + 1) as nat,
        ) by {
            let z = tower_byte(coeffs@[t as int].value(), src@, i);
            assert(dst@[0 + i] == prev[0 + i] ^ tower_byte(coeffs@[t as int].value(), src@, 0 + i));
            lemma_xor_assoc(old(dst)@[i], gather16_sum(coeffs@, srcs@, i, t as nat), z);
        }
        t += 1;
    }
}

/// Many sources into one destination using GFNI.
pub fn mul_add_gather_gfni(
    _token: X64V3GfniCryptoToken,
    dst: &mut [u8],
    coeffs: &[Elem],
    srcs: &[&[u8]],
)
    requires
        gather16_ok(old(dst)@.len() as int, coeffs@.len() as int, srcs@),
    ensures
        gathered16(old(dst)@, final(dst)@, coeffs@, srcs@),
{
    gather16(dst, coeffs, srcs, false);
}

/// Many sources into one destination using AVX2 nibble tables.
pub fn mul_add_gather_avx2<C: TableCoefficient>(
    _token: X64V3Token,
    dst: &mut [u8],
    coeffs: &[C],
    srcs: &[&[u8]],
)
    requires
        gather16_ok(old(dst)@.len() as int, coeffs@.len() as int, srcs@),
    ensures
        gathered16(old(dst)@, final(dst)@, coeffs@, srcs@),
{
    gather16(dst, coeffs, srcs, true);
}

/// Many sources into one destination using SSSE3 nibble tables.
pub fn mul_add_gather_ssse3<C: TableCoefficient>(
    _token: X64V2Token,
    dst: &mut [u8],
    coeffs: &[C],
    srcs: &[&[u8]],
)
    requires
        gather16_ok(old(dst)@.len() as int, coeffs@.len() as int, srcs@),
    ensures
        gathered16(old(dst)@, final(dst)@, coeffs@, srcs@),
{
    gather16(dst, coeffs, srcs, true);
}

} // verus!
