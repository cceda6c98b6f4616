//! Multi-row GF(2^8) kernels on the nibble-shuffle multiply: one source into
//! many rows, and many sources into many rows, every product taken by the
//! coefficient's nibble tables. These are what the shuffle tiers dispatch
//! to where the GFNI tiers use the blocked kernels.

use super::Gfni;
use super::matrix::{matrix_result, slice_terms_ok, lemma_slice_terms};
use super::rows::{mul_add_matrix_impl, terms_ok};
use super::scatter::{mul_add_scatter_impl, scatter_result};
use crate::field::gf8b::Elem;
use crate::kernel::Matrix;
use archmage::{X64V2Token, X64V3Token};
use vstd::prelude::*;

verus! {

/// One source into many rows using AVX2 nibble shuffles:
/// `rows[j] ^= coeffs[j] * src` under `0x11B`.
pub fn mul_add_scatter_avx2(
    _token: X64V3Token,
    rows: &mut [u8],
    row_len: usize,
    coeffs: &[Elem],
    src: &[u8],
)
    requires
        row_len == src@.len(),
        coeffs@.len() * row_len <= old(rows)@.len(),
    ensures
        scatter_result::<Gfni>(old(rows)@, final(rows)@, row_len as int, coeffs@, src@),
{
    mul_add_scatter_impl::<Gfni>(rows, row_len, coeffs, src, true);
}

/// One source into many rows using SSSE3 nibble shuffles.
pub fn mul_add_scatter_ssse3(
    _token: X64V2Token,
    rows: &mut [u8],
    row_len: usize,
    coeffs: &[Elem],
    src: &[u8],
)
    requires
        row_len == src@.len(),
        coeffs@.len() * row_len <= old(rows)@.len(),
    ensures
        scatter_result::<Gfni>(old(rows)@, final(rows)@, row_len as int, coeffs@, src@),
{
    mul_add_scatter_impl::<Gfni>(rows, row_len, coeffs, src, true);
}

/// Many sources into many rows using AVX2 nibble shuffles:
/// `rows[j] ^= sum_t coeffs[t][j] * src[t]` under `0x11B`.
pub fn mul_add_matrix_avx2(
    _token: X64V3Token,
    rows: &mut [u8],
    row_len: usize,
    nrows: usize,
    terms: &[(&[Elem], &[u8])],
)
    requires
        nrows * row_len <= old(rows)@.len(),
        slice_terms_ok(terms, nrows as int, row_len as int),
    ensures
        matrix_result::<Gfni, [(&[Elem], &[u8])]>(
            old(rows)@,
            final(rows)@,
            row_len as int,
            nrows as int,
            terms,
            false,
        ),
{
    proof {
        lemma_slice_terms::<Gfni>(terms, nrows as int, row_len as int);
    }
    mul_add_matrix_avx2_with(_token, rows, row_len, nrows, terms);
}

/// [`mul_add_matrix_avx2`] over a generic matrix source.
pub fn mul_add_matrix_avx2_with<M: Matrix<Elem> + ?Sized>(
    _token: X64V3Token,
    rows: &mut [u8],
    row_len: usize,
    nrows: usize,
    terms: &M,
)
    requires
        nrows * row_len <= old(rows)@.len(),
        terms_ok::<Gfni, M>(terms, nrows as int, row_len as int),
    ensures
        matrix_result::<Gfni, M>(old(rows)@, final(rows)@, row_len as int, nrows as int, terms, false),
{
    mul_add_matrix_impl::<Gfni, M>(rows, row_len, nrows, terms, false, true);
}

/// Many sources into many rows using SSSE3 nibble shuffles.
pub fn mul_add_matrix_ssse3(
    _token: X64V2Token,
    rows: &mut [u8],
    row_len: usize,
    nrows: usize,
    terms: &[(&[Elem], &[u8])],
)
    requires
        nrows * row_len <= old(rows)@.len(),
        slice_terms_ok(terms, nrows as int, row_len as int),
    ensures
        matrix_result::<Gfni, [(&[Elem], &[u8])]>(
            old(rows)@,
            final(rows)@,
            row_len as int,
            nrows as int,
            terms,
            false,
        ),
{
    proof {
        lemma_slice_terms::<Gfni>(terms, nrows as int, row_len as int);
    }
    mul_add_matrix_ssse3_with(_token, rows, row_len, nrows, terms);
}

/// [`mul_add_matrix_ssse3`] over a generic matrix source.
pub fn mul_add_matrix_ssse3_with<M: Matrix<Elem> + ?Sized>(
    _token: X64V2Token,
    rows: &mut [u8],
    row_len: usize,
    nrows: usize,
    terms: &M,
)
    requires
        nrows * row_len <= old(rows)@.len(),
        terms_ok::<Gfni, M>(terms, nrows as int, row_len as int),
    ensures
        matrix_result::<Gfni, M>(old(rows)@, final(rows)@, row_len as int, nrows as int, terms, false),
{
    mul_add_matrix_impl::<Gfni, M>(rows, row_len, nrows, terms, false, true);
}

} // verus!
