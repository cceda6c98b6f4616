//! AVX-512 GFNI kernels for x86 and `x86_64`, for a caller whose dispatch
//! already established AVX-512F, AVX-512BW and GFNI.
//!
//! The 64-byte lanes double GFNI throughput over the AVX2 backend: each
//! single-buffer kernel walks whole 64-byte lanes and hands the sub-lane
//! tail to the table or scalar form. The token-taking entries are in
//! [`v4`].

pub mod v4;

use super::bytes::{xor_bytes, xored};
use super::gf16::elementwise::product_gfni;
use super::gf16::gather::{gather16, gather16_ok, gathered16};
use super::gf16::matrix::{matrix16, matrix16_result, slice_terms16_ok};
use super::gf16::scatter::{scatter16, scattered16};
use super::gf16::{
    TableCoefficient, pairs_into, product_byte, scale_gfni, tower_added, tower_assign_span,
    tower_byte, tower_scaled, tower_span,
};
use super::gf8::gather::{gather_ok, gathered, mul_add_gather_impl};
use super::gf8::matrix::{lemma_slice_terms, matrix_result, slice_terms_ok};
use super::gf8::nibble::lookup_span;
use super::gf8::rows::mul_add_matrix_impl;
use super::gf8::scatter::{mul_add_scatter_impl, scatter_result};
use super::gf8::{Gfni, bscale_assign, brem_span};
use crate::field::gf16::{self, mul_hi, mul_hi_exec, mul_lo, mul_lo_exec};
use crate::field::gf8::{gf_mul_exec, lemma_xor_zero};
use crate::field::gf8b;
use crate::lanes::{zip3_bytes, zip_bytes_span};
use crate::tables::{TowerCoeff, lemma_lookup, scale_table};
use vstd::prelude::*;

verus! {

/// Bytes per AVX-512 lane.
pub const LANE: usize = 64;

/// The two broadcast words of a coefficient as the halfwords a 16-bit
/// broadcast takes.
pub fn broadcast_words(coeff: TowerCoeff) -> (r: (i16, i16))
    ensures
        r.0 == coeff.same as i16,
        r.1 == coeff.cross as i16,
{
    (coeff.same as i16, coeff.cross as i16)
}

/// The two 16-bit broadcasts of a coefficient.
pub fn factors16(coeff: TowerCoeff) -> (r: (i16, i16))
    ensures
        r.0 == coeff.same as i16,
        r.1 == coeff.cross as i16,
{
    broadcast_words(coeff)
}

/// `coeff * [a, b]`: the element under `same`, the exchanged element under
/// `cross`.
pub fn scale16(coeff: &TowerCoeff, a: u8, b: u8) -> (r: (u8, u8))
    requires
        coeff.wf(),
    ensures
        r.0 == mul_lo(gf16::lo(coeff.coeff.0), gf16::hi(coeff.coeff.0), a, b),
        r.1 == mul_hi(gf16::lo(coeff.coeff.0), gf16::hi(coeff.coeff.0), a, b),
{
    scale_gfni(coeff, a, b)
}

/// `dst ^= src` over 64-byte lanes.
pub fn xor(dst: &mut [u8], src: &[u8])
    requires
        old(dst)@.len() == src@.len(),
    ensures
        xored(old(dst)@, final(dst)@, src@),
{
    xor_bytes(dst, src);
}

/// `dst ^= coeff * src` over 64 byte-wide GFNI lanes; the sub-lane tail by
/// nibble lookups.
pub fn gf8_mul_add(dst: &mut [u8], coeff: gf8b::Elem, src: &[u8])
    requires
        old(dst)@.len() == src@.len(),
    ensures
        final(dst)@.len() == old(dst)@.len(),
        forall|i: int|
            0 <= i < old(dst)@.len() ==> #[trigger] final(dst)@[i] == old(dst)@[i] ^ gf8b::mul(
                coeff.0,
                src@[i],
            ),
{
    let n = dst.len();
    let len = n - n % LANE;
    brem_span::<Gfni>(dst, 0, coeff, src, 0, len);
    let ghost mid = dst@;
    let table = scale_table(coeff);
    lookup_span(dst, len, &table, src, len, n - len);
    assert forall|i: int| 0 <= i < n implies #[trigger] dst@[i] == old(dst)@[i] ^ gf8b::mul(
        coeff.0,
        src@[i],
    ) by {
        if i < len {
            assert(mid[0 + i] == old(dst)@[0 + i] ^ gf8b::mul(coeff.0, src@[0 + i]));
        } else {
            assert(dst@[len + (i - len)] == mid[len + (i - len)] ^ crate::tables::lookup(
                table,
                src@[len + (i - len)],
            ));
            lemma_lookup(table, gf8b::RED, src@[i]);
        }
    }
}

/// `dst = coeff * dst` over 64 byte-wide GFNI lanes.
pub fn gf8_mul_assign(dst: &mut [u8], coeff: gf8b::Elem)
    ensures
        final(dst)@.len() == old(dst)@.len(),
        forall|i: int|
            0 <= i < old(dst)@.len() ==> #[trigger] final(dst)@[i] == gf8b::mul(
                coeff.0,
                old(dst)@[i],
            ),
{
    bscale_assign::<Gfni>(dst, coeff);
}

/// `dst = coeff * src` over 64 byte-wide GFNI lanes; the sub-lane tail by
/// nibble lookups.
pub fn gf8_mul_into(dst: &mut [u8], coeff: gf8b::Elem, src: &[u8])
    requires
        old(dst)@.len() == src@.len(),
    ensures
        final(dst)@.len() == old(dst)@.len(),
        forall|i: int|
            0 <= i < old(dst)@.len() ==> #[trigger] final(dst)@[i] == gf8b::mul(coeff.0, src@[i]),
{
    let n = dst.len();
    let len = n - n % LANE;
    let table = scale_table(coeff);
    let f = |_d: u8, x: u8| -> (r: u8)
        ensures
            r == gf8b::mul(coeff.0, x),
        {
            proof {
                lemma_lookup(table, gf8b::RED, x);
            }
            crate::tables::nibble_scale(&table, x)
        };
    let g = |_d: u8, x: u8| -> (r: u8)
        ensures
            r == gf8b::mul(coeff.0, x),
        { gf_mul_exec(gf8b::RED, coeff.0, x) };
    zip_bytes_span(dst, 0, src, 0, len, g);
    let ghost mid = dst@;
    zip_bytes_span(dst, len, src, len, n - len, f);
    assert forall|i: int| 0 <= i < n implies #[trigger] dst@[i] == gf8b::mul(coeff.0, src@[i]) by {
        if i < len {
            assert(mid[0 + i] == gf8b::mul(coeff.0, src@[0 + i]));
        } else {
            assert(dst@[len + (i - len)] == gf8b::mul(coeff.0, src@[len + (i - len)]));
        }
    }
}

/// `dst[i] = a[i] * b[i]` over 64 byte-wide GFNI lanes.
pub fn gf8_mul_elementwise(dst: &mut [u8], a: &[u8], b: &[u8])
    requires
        old(dst)@.len() == a@.len(),
        old(dst)@.len() == b@.len(),
    ensures
        final(dst)@.len() == old(dst)@.len(),
        forall|i: int| 0 <= i < old(dst)@.len() ==> #[trigger] final(dst)@[i] == gf8b::mul(a@[i], b@[i]),
{
    let f = |x: u8, y: u8| -> (r: u8)
        ensures
            r == gf8b::mul(x, y),
        { gf_mul_exec(gf8b::RED, x, y) };
    zip3_bytes(dst, a, b, f);
}

/// `dst ^= coeff * src` over 64-byte tower lanes; the sub-lane tail by the
/// scalar field multiply.
pub fn gf16_mul_add(dst: &mut [u8], coeff: TowerCoeff, src: &[u8])
    requires
        old(dst)@.len() % 2 == 0,
        old(dst)@.len() == src@.len(),
        coeff.wf(),
    ensures
        tower_added(old(dst)@, final(dst)@, coeff.coeff.0, src@),
{
    let ghost c = coeff.coeff.0;
    let c0 = (coeff.coeff.0 & 0xff) as u8;
    let c1 = (coeff.coeff.0 >> 8u16) as u8;
    let f = |a: u8, b: u8| -> (r: (u8, u8))
        ensures
            r.0 == mul_lo(gf16::lo(c), gf16::hi(c), a, b),
            r.1 == mul_hi(gf16::lo(c), gf16::hi(c), a, b),
        { scale16(&coeff, a, b) };
    let g = |a: u8, b: u8| -> (r: (u8, u8))
        ensures
            r.0 == mul_lo(gf16::lo(c), gf16::hi(c), a, b),
            r.1 == mul_hi(gf16::lo(c), gf16::hi(c), a, b),
        { (mul_lo_exec(c0, c1, a, b), mul_hi_exec(c0, c1, a, b)) };
    let n = dst.len();
    let len = n - n % LANE;
    tower_span(dst, 0, src, 0, len, f, Ghost(c), true);
    let ghost mid = dst@;
    tower_span(dst, len, src, len, n - len, g, Ghost(c), true);
    assert forall|i: int| 0 <= i < n implies #[trigger] dst@[i] == old(dst)@[i] ^ tower_byte(
        c,
        src@,
        i,
    ) by {
        if i < len {
            assert(mid[0 + i] == old(dst)@[0 + i] ^ tower_byte(c, src@, 0 + i));
        } else {
            assert(dst@[len + (i - len)] == mid[len + (i - len)] ^ tower_byte(
                c,
                src@,
                len + (i - len),
            ));
        }
    }
}

/// `dst = coeff * dst` over 64-byte tower lanes.
pub fn gf16_mul_assign(dst: &mut [u8], coeff: TowerCoeff)
    requires
        old(dst)@.len() % 2 == 0,
        coeff.wf(),
    ensures
        final(dst)@.len() == old(dst)@.len(),
        tower_scaled(final(dst)@, coeff.coeff.0, old(dst)@),
{
    let ghost c = coeff.coeff.0;
    let f = |a: u8, b: u8| -> (r: (u8, u8))
        ensures
            r.0 == mul_lo(gf16::lo(c), gf16::hi(c), a, b),
            r.1 == mul_hi(gf16::lo(c), gf16::hi(c), a, b),
        { scale16(&coeff, a, b) };
    let n = dst.len();
    tower_assign_span(dst, 0, n, f, Ghost(c));
    assert forall|i: int| 0 <= i < n implies #[trigger] dst@[i] == tower_byte(c, old(dst)@, i) by {
        assert(dst@[0 + i] == tower_byte(c, old(dst)@, 0 + i));
    }
}

/// `dst = coeff * src` over 64-byte tower lanes.
pub fn gf16_mul_into(dst: &mut [u8], coeff: TowerCoeff, src: &[u8])
    requires
        old(dst)@.len() % 2 == 0,
        old(dst)@.len() == src@.len(),
        coeff.wf(),
    ensures
        final(dst)@.len() == old(dst)@.len(),
        tower_scaled(final(dst)@, coeff.coeff.0, src@),
{
    let ghost c = coeff.coeff.0;
    let f = |a: u8, b: u8| -> (r: (u8, u8))
        ensures
            r.0 == mul_lo(gf16::lo(c), gf16::hi(c), a, b),
            r.1 == mul_hi(gf16::lo(c), gf16::hi(c), a, b),
        { scale16(&coeff, a, b) };
    let n = dst.len();
    tower_span(dst, 0, src, 0, n, f, Ghost(c), false);
    assert forall|i: int| 0 <= i < n implies #[trigger] dst@[i] == tower_byte(c, src@, i) by {
        assert(dst@[0 + i] == 0u8 ^ tower_byte(c, src@, 0 + i));
        lemma_xor_zero(tower_byte(c, src@, i));
    }
}

/// `dst[i] = a[i] * b[i]` over 64-byte tower lanes.
pub fn gf16_mul_elementwise(dst: &mut [u8], a: &[u8], b: &[u8])
    requires
        old(dst)@.len() % 2 == 0,
        old(dst)@.len() == a@.len(),
        old(dst)@.len() == b@.len(),
    ensures
        final(dst)@.len() == old(dst)@.len(),
        forall|i: int| 0 <= i < old(dst)@.len() ==> #[trigger] final(dst)@[i] == product_byte(a@, b@, i),
{
    let f = |x0: u8, x1: u8, y0: u8, y1: u8| -> (r: (u8, u8))
        ensures
            r.0 == mul_lo(x0, x1, y0, y1),
            r.1 == mul_hi(x0, x1, y0, y1),
        { product_gfni(x0, x1, y0, y1) };
    pairs_into(dst, a, b, f);
}

/// One source into many rows under `0x11B`: `rows[j] ^= coeffs[j] * src`.
pub fn gf8_mul_add_scatter(rows: &mut [u8], row_len: usize, coeffs: &[gf8b::Elem], src: &[u8])
    requires
        old(rows)@.len() == row_len * coeffs@.len(),
        src@.len() == row_len,
    ensures
        scatter_result::<Gfni>(old(rows)@, final(rows)@, row_len as int, coeffs@, src@),
{
    assert(coeffs@.len() * row_len == row_len * coeffs@.len()) by (nonlinear_arith);
    mul_add_scatter_impl::<Gfni>(rows, row_len, coeffs, src, false);
}

/// Many sources into one destination under `0x11B`, over 512-byte tiles.
pub fn gf8_mul_add_gather(dst: &mut [u8], coeffs: &[gf8b::Elem], srcs: &[&[u8]])
    requires
        gather_ok(old(dst)@.len() as int, coeffs@.len() as int, srcs@),
    ensures
        gathered::<Gfni>(old(dst)@, final(dst)@, coeffs@, srcs@, old(dst)@.len() as int),
{
    mul_add_gather_impl::<Gfni>(dst, coeffs, srcs, false, 4);
}

/// Many sources into many rows under `0x11B`, eight rows at a time.
pub fn gf8_mul_add_matrix(
    rows: &mut [u8],
    row_len: usize,
    nrows: usize,
    terms: &[(&[gf8b::Elem], &[u8])],
)
    requires
        nrows * row_len <= old(rows)@.len(),
        slice_terms_ok(terms, nrows as int, row_len as int),
    ensures
        matrix_result::<Gfni, [(&[gf8b::Elem], &[u8])]>(
            old(rows)@,
            final(rows)@,
            row_len as int,
            nrows as int,
            terms,
            false,
        ),
{
    proof {
        lemma_slice_terms::<Gfni>(terms, nrows as int, row_len as int);
    }
    mul_add_matrix_impl::<Gfni, [(&[gf8b::Elem], &[u8])]>(rows, row_len, nrows, terms, false, false);
}

/// One tower-field source into many rows.
pub fn gf16_mul_add_scatter(rows: &mut [u8], row_len: usize, coeffs: &[gf16::Elem], src: &[u8])
    requires
        old(rows)@.len() == row_len * coeffs@.len(),
        src@.len() == row_len,
        row_len % 2 == 0,
    ensures
        scattered16(old(rows)@, final(rows)@, row_len as int, coeffs@, src@),
{
    assert(coeffs@.len() * row_len == row_len * coeffs@.len()) by (nonlinear_arith);
    scatter16(rows, row_len, coeffs, src, false);
}

/// Many tower-field sources into one destination.
pub fn gf16_mul_add_gather(dst: &mut [u8], coeffs: &[gf16::Elem], srcs: &[&[u8]])
    requires
        gather16_ok(old(dst)@.len() as int, coeffs@.len() as int, srcs@),
    ensures
        gathered16(old(dst)@, final(dst)@, coeffs@, srcs@),
{
    gather16(dst, coeffs, srcs, false);
}

/// Many tower-field sources into many rows, eight rows at a time.
pub fn gf16_mul_add_matrix(
    rows: &mut [u8],
    row_len: usize,
    nrows: usize,
    terms: &[(&[gf16::Elem], &[u8])],
)
    requires
        row_len % 2 == 0,
        nrows * row_len <= old(rows)@.len(),
        slice_terms16_ok(terms, nrows as int, row_len as int),
    ensures
        matrix16_result::<gf16::Elem, [(&[gf16::Elem], &[u8])]>(
            old(rows)@,
            final(rows)@,
            row_len as int,
            nrows as int,
            terms,
            row_len as int,
        ),
{
    super::gf16::matrix::mul_add_matrix_whole(rows, row_len, nrows, terms, false);
}

} // verus!
