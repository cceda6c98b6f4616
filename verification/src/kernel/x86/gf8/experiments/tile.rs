//! Tile-width and store-policy contrasts against the production tiles.
//!
//! Each body keeps the production multiply, resolution and remainder and
//! varies one knob: how many 32-byte lanes a main-loop iteration folds, and
//! (in the two-row contrast) whether the destination stores are streaming.
//! Neither changes what the rows hold afterwards.

use super::super::matrix::matrix_result;
use super::super::rows::{row_byte, term_ok, term_sum, terms_ok};
use super::super::rows::RESOLVE_CHUNK;
use super::super::{Affine8D, Blocked, Gfni};
use super::resolve::{one_row_terms_ok, resolved_one_row, resolved_row};
use super::rows_resolved_chunked;
use crate::field::gf8b::Elem;
use crate::field::gf8d;
use archmage::X64V3GfniCryptoToken;
use vstd::prelude::*;

verus! {

/// Two-row terms: every term has at least two coefficients and a
/// `row_len`-byte source.
pub open spec fn two_row_terms_ok<E>(terms: Seq<(&[E], &[u8])>, row_len: int) -> bool {
    forall|t: int|
        0 <= t < terms.len() ==> #[trigger] terms[t].0@.len() >= 2 && terms[t].1@.len() == row_len
}

/// The two-row overwrite: rows 0 and 1 take every term's coefficients 0 and
/// 1, the 32-byte-lane prefix in tiles of `lanes` lanes in one pass, the
/// sub-lane tail term by term.
fn mul_into_matrix2_checked<S: Blocked>(
    rows: &mut [u8],
    row_len: usize,
    terms: &[(&[S::Coeff], &[u8])],
    lanes: usize,
)
    requires
        2 * row_len <= old(rows)@.len(),
        two_row_terms_ok(terms@, row_len as int),
        1 <= lanes <= 4,
        forall|c: S::Coeff| S::prepared(c),
    ensures
        matrix_result::<S, [(&[S::Coeff], &[u8])]>(
            old(rows)@,
            final(rows)@,
            row_len as int,
            2,
            terms,
            true,
        ),
{
    assert(terms_ok::<S, [(&[S::Coeff], &[u8])]>(terms, 2, row_len as int)) by {
        assert forall|t: int, r: int| 0 <= t < terms@.len() && 0 <= r < 2 implies #[trigger] term_ok::<
            S,
            [(&[S::Coeff], &[u8])],
        >(terms, t, r, row_len as int) by {
            assert(terms@[t].0@.len() >= 2 && terms@[t].1@.len() == row_len);
        }
    }
    let count = terms.len();
    let chunk = if count == 0 {
        1
    } else {
        count
    };
    rows_resolved_chunked::<S, [(&[S::Coeff], &[u8])]>(
        rows,
        row_len,
        0,
        2,
        lanes,
        terms,
        chunk,
        true,
        false,
    );
    assert forall|r: int, k: int| 0 <= r < 2 && 0 <= k < row_len implies #[trigger] row_byte(
        rows@,
        row_len as int,
        r,
        k,
    ) == 0u8 ^ term_sum::<S, [(&[S::Coeff], &[u8])]>(terms, r, k, terms@.len()) by {
        assert(row_byte(rows@, row_len as int, 0 + r, k) == 0u8 ^ term_sum::<
            S,
            [(&[S::Coeff], &[u8])],
        >(terms, 0 + r, k, terms@.len()));
    }
}

/// Two-row overwrite (the two-parity encode) under `0x11B` with a tunable
/// main tile: `rows[j][k] = sum_t terms[t].0[j] * terms[t].1[k]` for rows
/// 0 and 1. `lanes` (2, 3 or 4) is the number of 32-byte lanes per row
/// folded per iteration; `nt` selects streaming stores, which take a whole
/// number of 32-byte lanes per row.
pub fn mul_into_matrix2_8b(
    _token: X64V3GfniCryptoToken,
    rows: &mut [u8],
    row_len: usize,
    terms: &[(&[Elem], &[u8])],
    nt: bool,
    lanes: usize,
)
    requires
        2 * row_len <= old(rows)@.len(),
        two_row_terms_ok(terms@, row_len as int),
        2 <= lanes <= 4,
        nt ==> row_len % 32 == 0,
    ensures
        matrix_result::<Gfni, [(&[Elem], &[u8])]>(
            old(rows)@,
            final(rows)@,
            row_len as int,
            2,
            terms,
            true,
        ),
{
    mul_into_matrix2_checked::<Gfni>(rows, row_len, terms, lanes);
}

/// [`mul_into_matrix2_8b`] under `0x11D`.
pub fn mul_into_matrix2_8d(
    _token: X64V3GfniCryptoToken,
    rows: &mut [u8],
    row_len: usize,
    terms: &[(&[gf8d::Elem], &[u8])],
    nt: bool,
    lanes: usize,
)
    requires
        2 * row_len <= old(rows)@.len(),
        two_row_terms_ok(terms@, row_len as int),
        2 <= lanes <= 4,
        nt ==> row_len % 32 == 0,
    ensures
        matrix_result::<Affine8D, [(&[gf8d::Elem], &[u8])]>(
            old(rows)@,
            final(rows)@,
            row_len as int,
            2,
            terms,
            true,
        ),
{
    mul_into_matrix2_checked::<Affine8D>(rows, row_len, terms, lanes);
}

/// One-row overwrite on the resolved path with a selectable main tile
/// (`lanes` 4 is production's 128 bytes, 3 a 96-byte tile):
/// `rows[k] = sum_t terms[t].0[0] * terms[t].1[k]` under `0x11D`.
pub fn mul_into_matrix1_tile_8d(
    _token: X64V3GfniCryptoToken,
    rows: &mut [u8],
    row_len: usize,
    terms: &[(&[gf8d::Elem], &[u8])],
    lanes: usize,
)
    requires
        row_len <= old(rows)@.len(),
        one_row_terms_ok(terms@, row_len as int),
        lanes == 3 || lanes == 4,
    ensures
        resolved_row(old(rows)@, final(rows)@, row_len as int, terms),
{
    resolved_one_row(rows, row_len, terms, lanes, RESOLVE_CHUNK);
}

} // verus!
