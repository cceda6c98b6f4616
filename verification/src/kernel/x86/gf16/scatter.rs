//! One source into many rows over interleaved GF(2^16) elements:
//! `rows[j] ^= coeffs[j] * src`.

use super::{TableCoefficient, axpy16, tower_byte};
use crate::field::gf16::Elem;
use crate::kernel::x86::gf8::rows::row_byte;
use archmage::{X64V2Token, X64V3GfniCryptoToken, X64V3Token};
use vstd::prelude::*;

verus! {

/// The rows of a contiguous block after a scatter: byte `k` of row `j` is
/// the old byte plus byte `k` of `coeffs[j] * src`; bytes past the block
/// are unchanged.
pub open spec fn scattered16<C: TableCoefficient>(
    before: Seq<u8>,
    after: Seq<u8>,
    row_len: int,
    coeffs: Seq<C>,
    src: Seq<u8>,
) -> bool {
    &&& after.len() == before.len()
    &&& forall|j: int, k: int|
        0 <= j < coeffs.len() && 0 <= k < row_len ==> #[trigger] row_byte(after, row_len, j, k)
            == row_byte(before, row_len, j, k) ^ tower_byte(coeffs[j].value(), src, k)
    &&& forall|i: int| coeffs.len() * row_len <= i < before.len() ==> #[trigger] after[i] == before[i]
}

/// The scatter walk: one AXPY of the source per row.
pub(crate) fn scatter16<C: TableCoefficient>(
    rows: &mut [u8],
    row_len: usize,
    coeffs: &[C],
    src: &[u8],
    by_table: bool,
)
    requires
        row_len % 2 == 0,
        row_len == src@.len(),
        coeffs@.len() * row_len <= old(rows)@.len(),
    ensures
        scattered16(old(rows)@, final(rows)@, row_len as int, coeffs@, src@),
{
    let total = rows.len();
    let n = coeffs.len();
    let mut j: usize = 0;
    let mut base: usize = 0;
    while j < n
        invariant
            n == coeffs@.len(),
            total == old(rows)@.len(),
            row_len % 2 == 0,
            row_len == src@.len(),
            j <= n,
            base == j * row_len,
            n * row_len <= old(rows)@.len(),
            rows@.len() == old(rows)@.len(),
            forall|r: int, k: int|
                0 <= r < j && 0 <= k < row_len ==> #[trigger] row_byte(rows@, row_len as int, r, k)
                    == row_byte(old(rows)@, row_len as int, r, k) ^ tower_byte(
                    coeffs@[r].value(),
                    src@,
                    k,
                ),
            forall|i: int| base <= i < old(rows)@.len() ==> #[trigger] rows@[i] == old(rows)@[i],
        decreases n - j,
    {
        assert(base + row_len <= n * row_len) by (nonlinear_arith)
            requires
                base == j * row_len,
                j < n,
        ;
        let ghost before = rows@;
        axpy16(rows, base, &coeffs[j], src, 0, row_len, by_table);
        assert forall|r: int, k: int| 0 <= r < j + 1 && 0 <= k < row_len implies #[trigger] row_byte(
            rows@,
            row_len as int,
            r,
            k,
        ) == row_byte(old(rows)@, row_len as int, r, k) ^ tower_byte(coeffs@[r].value(), src@, k) by {
            if r < j {
                assert(r * row_len + k < j * row_len) by (nonlinear_arith)
                    requires
                        r < j,
                        k < row_len,
                ;
                assert(0 <= r * row_len) by (nonlinear_arith)
                    requires
                        0 <= r,
                        0 <= row_len,
                ;
                assert(rows@[r * row_len + k] == before[r * row_len + k]);
                assert(row_byte(before, row_len as int, r, k) == before[r * row_len + k]);
            } else {
                assert(r == j);
                assert(row_byte(rows@, row_len as int, r, k) == rows@[base + k]);
                assert(rows@[base + k] == before[base + k] ^ tower_byte(
                    coeffs@[r].value(),
                    src@,
                    0 + k,
                ));
            }
        }
        assert(base + row_len == (j + 1) * row_len) by (nonlinear_arith)
            requires
                base == j * row_len,
        ;
        j += 1;
        base += row_len;
    }
}

/// One source into many rows using GFNI.
pub fn mul_add_scatter_gfni(
    _token: X64V3GfniCryptoToken,
    rows: &mut [u8],
    row_len: usize,
    coeffs: &[Elem],
    src: &[u8],
)
    requires
        row_len % 2 == 0,
        row_len == src@.len(),
        coeffs@.len() * row_len <= old(rows)@.len(),
    ensures
        scattered16(old(rows)@, final(rows)@, row_len as int, coeffs@, src@),
{
    scatter16(rows, row_len, coeffs, src, false);
}

/// One source into many rows using AVX2 nibble tables.
pub fn mul_add_scatter_avx2<C: TableCoefficient>(
    _token: X64V3Token,
    rows: &mut [u8],
    row_len: usize,
    coeffs: &[C],
    src: &[u8],
)
    requires
        row_len % 2 == 0,
        row_len == src@.len(),
        coeffs@.len() * row_len <= old(rows)@.len(),
    ensures
        scattered16(old(rows)@, final(rows)@, row_len as int, coeffs@, src@),
{
    scatter16(rows, row_len, coeffs, src, true);
}

/// One source into many rows using SSSE3 nibble tables.
pub fn mul_add_scatter_ssse3<C: TableCoefficient>(
    _token: X64V2Token,
    rows: &mut [u8],
    row_len: usize,
    coeffs: &[C],
    src: &[u8],
)
    requires
        row_len % 2 == 0,
        row_len == src@.len(),
        coeffs@.len() * row_len <= old(rows)@.len(),
    ensures
        scattered16(old(rows)@, final(rows)@, row_len as int, coeffs@, src@),
{
    scatter16(rows, row_len, coeffs, src, true);
}

} // verus!
