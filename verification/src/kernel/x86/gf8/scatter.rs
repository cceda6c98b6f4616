//! One source into many rows: the GFNI scatter family.
//!
//! Row `j` of a contiguous block receives `coeffs[j] * src`. Zero
//! coefficients drop out before any row is touched, which is where sparsity
//! belongs.

use super::rows::row_byte;
use super::{Affine8D, Blocked, Gfni, brem_at, table_at};
use crate::field::gf8::{gf_mul, lemma_mul_zero_left};
use crate::field::gf8b::Elem;
use crate::field::gf8d;
use archmage::X64V3GfniCryptoToken;
use crate::field::gf8::lemma_xor_zero;
use vstd::prelude::*;

verus! {

/// The rows of a contiguous block after a scatter: byte `k` of row `j` is
/// the old byte plus `coeffs[j] * src[k]`; bytes past the block are
/// unchanged.
pub open spec fn scatter_result<S: Blocked>(
    before: Seq<u8>,
    after: Seq<u8>,
    row_len: int,
    coeffs: Seq<S::Coeff>,
    src: Seq<u8>,
) -> bool {
    &&& after.len() == before.len()
    &&& forall|j: int, k: int|
        0 <= j < coeffs.len() && 0 <= k < row_len ==> #[trigger] row_byte(after, row_len, j, k)
            == row_byte(before, row_len, j, k) ^ gf_mul(S::red(), S::value(coeffs[j]), src[k])
    &&& forall|i: int| coeffs.len() * row_len <= i < before.len() ==> #[trigger] after[i] == before[i]
}

/// `rows[j] ^= coeffs[j] * src` for every row under `0x11B`; rows with a
/// zero coefficient are skipped.
pub fn mul_add_scatter_gfni(
    _token: X64V3GfniCryptoToken,
    rows: &mut [u8],
    row_len: usize,
    coeffs: &[Elem],
    src: &[u8],
)
    requires
        row_len == src@.len(),
        coeffs@.len() * row_len <= old(rows)@.len(),
    ensures
        scatter_result::<Gfni>(old(rows)@, final(rows)@, row_len as int, coeffs@, src@),
{
    mul_add_scatter_impl::<Gfni>(rows, row_len, coeffs, src, false);
}

/// [`mul_add_scatter_gfni`] under `0x11D`, each row folded in with its
/// `VGF2P8AFFINEQB` map.
pub fn mul_add_scatter_affine(
    _token: X64V3GfniCryptoToken,
    rows: &mut [u8],
    row_len: usize,
    coeffs: &[gf8d::Elem],
    src: &[u8],
)
    requires
        row_len == src@.len(),
        coeffs@.len() * row_len <= old(rows)@.len(),
    ensures
        scatter_result::<Affine8D>(old(rows)@, final(rows)@, row_len as int, coeffs@, src@),
{
    mul_add_scatter_impl::<Affine8D>(rows, row_len, coeffs, src, false);
}

/// The scatter walk: every row gets one AXPY of the source, by the
/// strategy's multiply or (when `by_table`) by the coefficient's nibble
/// tables. The multiply path skips rows with a zero coefficient, which add
/// nothing.
pub(crate) fn mul_add_scatter_impl<S: Blocked>(
    rows: &mut [u8],
    row_len: usize,
    coeffs: &[S::Coeff],
    src: &[u8],
    by_table: bool,
)
    requires
        row_len == src@.len(),
        coeffs@.len() * row_len <= old(rows)@.len(),
        forall|i: int| 0 <= i < coeffs@.len() ==> S::prepared(#[trigger] coeffs@[i]),
    ensures
        scatter_result::<S>(old(rows)@, final(rows)@, row_len as int, coeffs@, src@),
{
    let total = rows.len();
    let n = coeffs.len();
    let mut j: usize = 0;
    let mut base: usize = 0;
    while j < n
        invariant
            n == coeffs@.len(),
            total == old(rows)@.len(),
            row_len == src@.len(),
            j <= n,
            base == j * row_len,
            n * row_len <= old(rows)@.len(),
            rows@.len() == old(rows)@.len(),
            forall|i: int| 0 <= i < coeffs@.len() ==> S::prepared(#[trigger] coeffs@[i]),
            forall|r: int, k: int|
                0 <= r < j && 0 <= k < row_len ==> #[trigger] row_byte(rows@, row_len as int, r, k)
                    == row_byte(old(rows)@, row_len as int, r, k) ^ gf_mul(
                    S::red(),
                    S::value(coeffs@[r]),
                    src@[k],
                ),
            forall|i: int| base <= i < old(rows)@.len() ==> #[trigger] rows@[i] == old(rows)@[i],
        decreases n - j,
    {
        assert(base + row_len <= n * row_len) by (nonlinear_arith)
            requires
                base == j * row_len,
                j < n,
        ;
        let coeff = coeffs[j];
        let ghost before = rows@;
        if by_table {
            table_at::<S>(rows, base, coeff, src);
        } else if S::byte(coeff) != 0 {
            brem_at::<S>(rows, base, coeff, src);
        } else {
            assert forall|k: int| 0 <= k < row_len implies #[trigger] rows@[base + k] == before[base
                + k] ^ gf_mul(S::red(), S::value(coeff), src@[k]) by {
                lemma_mul_zero_left(S::red(), src@[k]);
                let x = rows@[base + k];
                lemma_xor_zero(x);
            }
        }
        assert forall|r: int, k: int| 0 <= r < j + 1 && 0 <= k < row_len implies #[trigger] row_byte(
            rows@,
            row_len as int,
            r,
            k,
        ) == row_byte(old(rows)@, row_len as int, r, k) ^ gf_mul(
            S::red(),
            S::value(coeffs@[r]),
            src@[k],
        ) by {
            if r < j {
                assert(r * row_len + k < j * row_len) by (nonlinear_arith)
                    requires
                        r < j,
                        k < row_len,
                ;
                assert(0 <= r * row_len) by (nonlinear_arith)
                    requires
                        0 <= r,
                        0 <= row_len,
                ;
                assert(rows@[r * row_len + k] == before[r * row_len + k]);
                assert(row_byte(before, row_len as int, r, k) == before[r * row_len + k]);
            } else {
                assert(r == j);
                assert(row_byte(rows@, row_len as int, r, k) == rows@[base + k]);
                assert(before[base + k] == old(rows)@[base + k]);
            }
        }
        assert(base + row_len == (j + 1) * row_len) by (nonlinear_arith)
            requires
                base == j * row_len,
        ;
        j += 1;
        base += row_len;
    }
}

} // verus!
