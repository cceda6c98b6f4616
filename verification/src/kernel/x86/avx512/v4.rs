//! The AVX-512 kernels behind archmage's x86-64-v4 tokens: each entry
//! holds its buffers to the geometry its kernel needs and forwards.

use super::super::bytes::xored;
use super::super::gf16::gather::{gather16_ok, gathered16};
use super::super::gf16::matrix::{matrix16_result, mul_add_matrix_whole, slice_terms16_ok};
use super::super::gf16::scatter::{scatter16, scattered16};
use super::super::gf16::{check_elements, product_byte, tower_added, tower_scaled};
use super::super::gf8::Gfni;
use super::super::gf8::gather::{gather_ok, gathered, mul_add_gather_impl};
use super::super::gf8::matrix::{lemma_slice_terms, matrix_result, slice_terms_ok};
use super::super::gf8::rows::mul_add_matrix_impl;
use super::super::gf8::scatter::{mul_add_scatter_impl, scatter_result};
use super::super::prime::{check_elem_multiple, check_equal};
use crate::field::{gf16, gf8b};
use crate::tables::TowerCoeff;
use archmage::{X64V4Token, X64V4xToken};
use vstd::prelude::*;

verus! {

/// Every matrix term holds `nrows` coefficients and a `row_len`-byte
/// source.
pub fn check_matrix_terms<E>(name: &str, row_len: usize, nrows: usize, terms: &[(&[E], &[u8])])
    requires
        forall|t: int|
            0 <= t < terms@.len() ==> #[trigger] terms@[t].0@.len() == nrows && terms@[t].1@.len()
                == row_len,
{
    let mut t: usize = 0;
    while t < terms.len()
        invariant
            t <= terms@.len(),
            forall|u: int|
                0 <= u < terms@.len() ==> #[trigger] terms@[u].0@.len() == nrows
                    && terms@[u].1@.len() == row_len,
        decreases terms@.len() - t,
    {
        let (coeffs, src) = terms[t];
        assert(terms@[t as int].0@.len() == nrows);
        check_equal(name, "term coefficients", coeffs.len(), "rows", nrows);
        check_equal(name, "term source", src.len(), "row_len", row_len);
        t += 1;
    }
}

/// `dst ^= src` over 64-byte lanes.
pub fn xor(_proof: X64V4Token, dst: &mut [u8], src: &[u8])
    requires
        old(dst)@.len() == src@.len(),
    ensures
        xored(old(dst)@, final(dst)@, src@),
{
    check_equal("avx512::xor", "dst", dst.len(), "src", src.len());
    super::xor(dst, src);
}

/// `dst ^= coeff * src` under `0x11B` over 64-byte GFNI lanes.
pub fn gf8_mul_add(_proof: X64V4xToken, dst: &mut [u8], coeff: gf8b::Elem, src: &[u8])
    requires
        old(dst)@.len() == src@.len(),
    ensures
        final(dst)@.len() == old(dst)@.len(),
        forall|i: int|
            0 <= i < old(dst)@.len() ==> #[trigger] final(dst)@[i] == old(dst)@[i] ^ gf8b::mul(
                coeff.0,
                src@[i],
            ),
{
    check_equal("avx512::gf8_mul_add", "dst", dst.len(), "src", src.len());
    super::gf8_mul_add(dst, coeff, src);
}

/// `dst = coeff * dst` under `0x11B` over 64-byte GFNI lanes.
pub fn gf8_mul_assign(_proof: X64V4xToken, dst: &mut [u8], coeff: gf8b::Elem)
    ensures
        final(dst)@.len() == old(dst)@.len(),
        forall|i: int|
            0 <= i < old(dst)@.len() ==> #[trigger] final(dst)@[i] == gf8b::mul(
                coeff.0,
                old(dst)@[i],
            ),
{
    super::gf8_mul_assign(dst, coeff);
}

/// `dst = coeff * src` under `0x11B` over 64-byte GFNI lanes.
pub fn gf8_mul_into(_proof: X64V4xToken, dst: &mut [u8], coeff: gf8b::Elem, src: &[u8])
    requires
        old(dst)@.len() == src@.len(),
    ensures
        final(dst)@.len() == old(dst)@.len(),
        forall|i: int|
            0 <= i < old(dst)@.len() ==> #[trigger] final(dst)@[i] == gf8b::mul(coeff.0, src@[i]),
{
    check_equal("avx512::gf8_mul_into", "dst", dst.len(), "src", src.len());
    super::gf8_mul_into(dst, coeff, src);
}

/// `dst[i] = a[i] * b[i]` under `0x11B` over 64-byte GFNI lanes.
pub fn gf8_mul_elementwise(_proof: X64V4xToken, dst: &mut [u8], a: &[u8], b: &[u8])
    requires
        old(dst)@.len() == a@.len(),
        old(dst)@.len() == b@.len(),
    ensures
        final(dst)@.len() == old(dst)@.len(),
        forall|i: int| 0 <= i < old(dst)@.len() ==> #[trigger] final(dst)@[i] == gf8b::mul(a@[i], b@[i]),
{
    check_equal("avx512::gf8_mul_elementwise", "dst", dst.len(), "a", a.len());
    check_equal("avx512::gf8_mul_elementwise", "dst", dst.len(), "b", b.len());
    super::gf8_mul_elementwise(dst, a, b);
}

/// `dst ^= coeff * src` over 64-byte GF(2^16) lanes.
pub fn gf16_mul_add(_proof: X64V4xToken, dst: &mut [u8], coeff: TowerCoeff, src: &[u8])
    requires
        old(dst)@.len() == src@.len(),
        old(dst)@.len() % 2 == 0,
        coeff.wf(),
    ensures
        tower_added(old(dst)@, final(dst)@, coeff.coeff.0, src@),
{
    check_equal("avx512::gf16_mul_add", "dst", dst.len(), "src", src.len());
    check_elem_multiple("avx512::gf16_mul_add", dst.len(), 2);
    super::gf16_mul_add(dst, coeff, src);
}

/// `dst = coeff * dst` over 64-byte GF(2^16) lanes.
pub fn gf16_mul_assign(_proof: X64V4xToken, dst: &mut [u8], coeff: TowerCoeff)
    requires
        old(dst)@.len() % 2 == 0,
        coeff.wf(),
    ensures
        final(dst)@.len() == old(dst)@.len(),
        tower_scaled(final(dst)@, coeff.coeff.0, old(dst)@),
{
    check_elem_multiple("avx512::gf16_mul_assign", dst.len(), 2);
    super::gf16_mul_assign(dst, coeff);
}

/// `dst = coeff * src` over 64-byte GF(2^16) lanes.
pub fn gf16_mul_into(_proof: X64V4xToken, dst: &mut [u8], coeff: TowerCoeff, src: &[u8])
    requires
        old(dst)@.len() == src@.len(),
        old(dst)@.len() % 2 == 0,
        coeff.wf(),
    ensures
        final(dst)@.len() == old(dst)@.len(),
        tower_scaled(final(dst)@, coeff.coeff.0, src@),
{
    check_equal("avx512::gf16_mul_into", "dst", dst.len(), "src", src.len());
    check_elem_multiple("avx512::gf16_mul_into", dst.len(), 2);
    super::gf16_mul_into(dst, coeff, src);
}

/// `dst[i] = a[i] * b[i]` over 64-byte GF(2^16) lanes.
pub fn gf16_mul_elementwise(_proof: X64V4xToken, dst: &mut [u8], a: &[u8], b: &[u8])
    requires
        old(dst)@.len() == a@.len(),
        old(dst)@.len() == b@.len(),
        old(dst)@.len() % 2 == 0,
    ensures
        final(dst)@.len() == old(dst)@.len(),
        forall|i: int| 0 <= i < old(dst)@.len() ==> #[trigger] final(dst)@[i] == product_byte(a@, b@, i),
{
    check_equal("avx512::gf16_mul_elementwise", "dst", dst.len(), "a", a.len());
    check_equal("avx512::gf16_mul_elementwise", "dst", dst.len(), "b", b.len());
    check_elem_multiple("avx512::gf16_mul_elementwise", dst.len(), 2);
    super::gf16_mul_elementwise(dst, a, b);
}

/// One source into many rows under `0x11B`, eight rows per source load.
pub fn gf8_mul_add_scatter(
    _proof: X64V4xToken,
    rows: &mut [u8],
    row_len: usize,
    coeffs: &[gf8b::Elem],
    src: &[u8],
)
    requires
        row_len == src@.len(),
        coeffs@.len() * row_len <= old(rows)@.len(),
    ensures
        scatter_result::<Gfni>(old(rows)@, final(rows)@, row_len as int, coeffs@, src@),
{
    check_equal("avx512::gf8_mul_add_scatter", "row_len", row_len, "src", src.len());
    mul_add_scatter_impl::<Gfni>(rows, row_len, coeffs, src, false);
}

/// Many sources into one destination under `0x11B`.
pub fn gf8_mul_add_gather(
    _proof: X64V4xToken,
    dst: &mut [u8],
    coeffs: &[gf8b::Elem],
    srcs: &[&[u8]],
)
    requires
        gather_ok(old(dst)@.len() as int, coeffs@.len() as int, srcs@),
    ensures
        gathered::<Gfni>(old(dst)@, final(dst)@, coeffs@, srcs@, old(dst)@.len() as int),
{
    check_equal("avx512::gf8_mul_add_gather", "coefficients", coeffs.len(), "sources", srcs.len());
    super::gf8_mul_add_gather(dst, coeffs, srcs);
}

/// Many sources into many rows under `0x11B`.
pub fn gf8_mul_add_matrix(
    _proof: X64V4xToken,
    rows: &mut [u8],
    row_len: usize,
    nrows: usize,
    terms: &[(&[gf8b::Elem], &[u8])],
)
    requires
        nrows * row_len <= old(rows)@.len(),
        slice_terms_ok(terms, nrows as int, row_len as int),
    ensures
        matrix_result::<Gfni, [(&[gf8b::Elem], &[u8])]>(
            old(rows)@,
            final(rows)@,
            row_len as int,
            nrows as int,
            terms,
            false,
        ),
{
    check_matrix_terms("avx512::gf8_mul_add_matrix", row_len, nrows, terms);
    super::gf8_mul_add_matrix(rows, row_len, nrows, terms);
}

/// One GF(2^16) source into many rows.
pub fn gf16_mul_add_scatter(
    _proof: X64V4xToken,
    rows: &mut [u8],
    row_len: usize,
    coeffs: &[gf16::Elem],
    src: &[u8],
)
    requires
        row_len == src@.len(),
        row_len % 2 == 0,
        coeffs@.len() * row_len <= old(rows)@.len(),
    ensures
        scattered16(old(rows)@, final(rows)@, row_len as int, coeffs@, src@),
{
    check_equal("avx512::gf16_mul_add_scatter", "row_len", row_len, "src", src.len());
    check_elements("avx512::gf16_mul_add_scatter", row_len);
    scatter16(rows, row_len, coeffs, src, false);
}

/// Many GF(2^16) sources into one destination.
pub fn gf16_mul_add_gather(
    _proof: X64V4xToken,
    dst: &mut [u8],
    coeffs: &[gf16::Elem],
    srcs: &[&[u8]],
)
    requires
        gather16_ok(old(dst)@.len() as int, coeffs@.len() as int, srcs@),
    ensures
        gathered16(old(dst)@, final(dst)@, coeffs@, srcs@),
{
    check_equal("avx512::gf16_mul_add_gather", "coefficients", coeffs.len(), "sources", srcs.len());
    check_elements("avx512::gf16_mul_add_gather", dst.len());
    super::gf16_mul_add_gather(dst, coeffs, srcs);
}

/// Many GF(2^16) sources into many rows.
pub fn gf16_mul_add_matrix(
    _proof: X64V4xToken,
    rows: &mut [u8],
    row_len: usize,
    nrows: usize,
    terms: &[(&[gf16::Elem], &[u8])],
)
    requires
        row_len % 2 == 0,
        nrows * row_len <= old(rows)@.len(),
        slice_terms16_ok(terms, nrows as int, row_len as int),
    ensures
        matrix16_result::<gf16::Elem, [(&[gf16::Elem], &[u8])]>(
            old(rows)@,
            final(rows)@,
            row_len as int,
            nrows as int,
            terms,
            row_len as int,
        ),
{
    check_elements("avx512::gf16_mul_add_matrix", row_len);
    check_matrix_terms("avx512::gf16_mul_add_matrix", row_len, nrows, terms);
    mul_add_matrix_whole(rows, row_len, nrows, terms, false);
}

} // verus!
