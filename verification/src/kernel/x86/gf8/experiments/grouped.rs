//! The multi-row panel, resolved and externally resolved, chunked.
//!
//! These extend the one-row resolve contrasts in `resolve` to every output
//! count, over the production row-group walk: four rows at a time, then a
//! pair, then a single row.

use super::super::Affine8D;
use super::super::matrix::{matrix_result, slice_terms_ok};
use super::super::rows::{lemma_row_before, row_byte, term_ok, term_sum, terms_ok, zero_row};
use super::{group_maps_ok, map_sum, rows_external_chunked, rows_resolved_chunked};
use crate::field::gf8d;
use crate::kernel::Matrix;
use archmage::X64V3GfniCryptoToken;
use vstd::prelude::*;

verus! {

/// Rows below `g` carry the overwrite sum of every term; every byte from row
/// `g` on is as in `before`.
pub open spec fn rows_done<M: Matrix<gf8d::Elem> + ?Sized>(
    before: Seq<u8>,
    after: Seq<u8>,
    row_len: int,
    terms: &M,
    g: int,
) -> bool {
    &&& after.len() == before.len()
    &&& forall|r: int, k: int|
        0 <= r < g && 0 <= k < row_len ==> #[trigger] row_byte(after, row_len, r, k) == 0u8
            ^ term_sum::<Affine8D, M>(terms, r, k, terms.spec_len())
    &&& forall|p: int| g * row_len <= p < before.len() ==> #[trigger] after[p] == before[p]
}

/// Overwrite the `width` rows from `g` with a resolved chunked group walk,
/// extending the finished rows from `g` to `g + width`.
fn resolved_group(
    rows: &mut [u8],
    row_len: usize,
    nrows: usize,
    g: usize,
    width: usize,
    lanes: usize,
    terms: &[(&[gf8d::Elem], &[u8])],
    chunk: usize,
    Ghost(orig): Ghost<Seq<u8>>,
)
    requires
        g + width <= nrows,
        nrows * row_len <= old(rows)@.len(),
        1 <= lanes <= 4,
        chunk > 0,
        terms_ok::<Affine8D, [(&[gf8d::Elem], &[u8])]>(terms, nrows as int, row_len as int),
        rows_done(orig, old(rows)@, row_len as int, terms, g as int),
    ensures
        rows_done(orig, final(rows)@, row_len as int, terms, (g + width) as int),
{
    assert((g + width) * row_len <= nrows * row_len) by (nonlinear_arith)
        requires
            g + width <= nrows,
    ;
    assert forall|t: int, r: int|
        0 <= t < terms@.len() && g <= r < g + width implies #[trigger] term_ok::<
        Affine8D,
        [(&[gf8d::Elem], &[u8])],
    >(terms, t, r, row_len as int) by {
        assert(term_ok::<Affine8D, [(&[gf8d::Elem], &[u8])]>(terms, t, r, row_len as int));
    }
    assert(g * row_len <= (g + width) * row_len) by (nonlinear_arith);
    let ghost before = rows@;
    rows_resolved_chunked::<Affine8D, [(&[gf8d::Elem], &[u8])]>(
        rows,
        row_len,
        g,
        width,
        lanes,
        terms,
        chunk,
        true,
        false,
    );
    assert forall|r: int, k: int| 0 <= r < g + width && 0 <= k < row_len implies #[trigger] row_byte(
        rows@,
        row_len as int,
        r,
        k,
    ) == 0u8 ^ term_sum::<Affine8D, [(&[gf8d::Elem], &[u8])]>(terms, r, k, terms@.len()) by {
        if r < g {
            lemma_row_before(r, g as int, row_len as int, k);
            assert(rows@[r * row_len + k] == before[r * row_len + k]);
            assert(row_byte(before, row_len as int, r, k) == before[r * row_len + k]);
        } else {
            assert(row_byte(rows@, row_len as int, g + (r - g), k) == 0u8 ^ term_sum::<
                Affine8D,
                [(&[gf8d::Elem], &[u8])],
            >(terms, g + (r - g), k, terms@.len()));
        }
    }
    assert forall|p: int| (g + width) * row_len <= p < orig.len() implies #[trigger] rows@[p]
        == orig[p] by {
        assert(g * row_len <= (g + width) * row_len) by (nonlinear_arith);
        assert(rows@[p] == before[p]);
    }
}

/// Multi-row overwrite on the resolved path with a selectable resolve chunk
/// (32 is the production width), over the production grouping: four rows
/// at a 64-byte tile, then a pair and a single row at 128 bytes. Row `j`
/// becomes `sum_t terms[t].0[j] * terms[t].1` under `0x11D`.
pub fn mul_into_matrix_chunk_8d(
    _token: X64V3GfniCryptoToken,
    rows: &mut [u8],
    row_len: usize,
    nrows: usize,
    terms: &[(&[gf8d::Elem], &[u8])],
    chunk: usize,
)
    requires
        nrows * row_len <= old(rows)@.len(),
        slice_terms_ok(terms, nrows as int, row_len as int),
        chunk == 32 || chunk == 64 || chunk == 96,
    ensures
        matrix_result::<Affine8D, [(&[gf8d::Elem], &[u8])]>(
            old(rows)@,
            final(rows)@,
            row_len as int,
            nrows as int,
            terms,
            true,
        ),
{
    proof {
        super::super::matrix::lemma_slice_terms::<Affine8D>(terms, nrows as int, row_len as int);
    }
    let mut g: usize = 0;
    while 4 <= nrows - g
        invariant
            g <= nrows,
            nrows * row_len <= old(rows)@.len(),
            chunk > 0,
            terms_ok::<Affine8D, [(&[gf8d::Elem], &[u8])]>(terms, nrows as int, row_len as int),
            rows_done(old(rows)@, rows@, row_len as int, terms, g as int),
        decreases nrows - g,
    {
        resolved_group(rows, row_len, nrows, g, 4, 2, terms, chunk, Ghost(old(rows)@));
        g += 4;
    }
    if 2 <= nrows - g {
        resolved_group(rows, row_len, nrows, g, 2, 4, terms, chunk, Ghost(old(rows)@));
        g += 2;
    }
    if g < nrows {
        resolved_group(rows, row_len, nrows, g, 1, 4, terms, chunk, Ghost(old(rows)@));
        g += 1;
    }
    assert(g == nrows);
}

/// The group row `r` of an `nrows`-row panel belongs to starts at: groups of
/// four from row 0, then a pair, then a single row.
pub open spec fn group_start(nrows: int, r: int) -> int {
    let full = nrows - nrows % 4;
    if r < full {
        r - r % 4
    } else if nrows - full >= 2 && r < full + 2 {
        full
    } else {
        r
    }
}

/// The number of rows in row `r`'s group.
pub open spec fn group_width(nrows: int, r: int) -> int {
    let full = nrows - nrows % 4;
    if r < full {
        4
    } else if nrows - full >= 2 && r < full + 2 {
        2
    } else {
        1
    }
}

/// Where row `r`'s map column starts in the group-major map list: each
/// group's words follow the groups before it, term-major, so term `t`'s
/// word for row `r` sits at `word_base + t * group_width`.
pub open spec fn word_base(nrows: int, terms: int, r: int) -> int {
    group_start(nrows, r) * terms + (r - group_start(nrows, r))
}

/// Rows below `g` carry the full mapped sum of their column; every byte from
/// row `g` on is as in `before`.
pub open spec fn mapped_done(
    before: Seq<u8>,
    after: Seq<u8>,
    row_len: int,
    nrows: int,
    maps: Seq<u64>,
    srcs: Seq<&[u8]>,
    g: int,
) -> bool {
    &&& after.len() == before.len()
    &&& forall|r: int, k: int|
        0 <= r < g && 0 <= k < row_len ==> #[trigger] row_byte(after, row_len, r, k) == map_sum(
            maps,
            word_base(nrows, srcs.len() as int, r),
            group_width(nrows, r),
            srcs,
            k,
            0,
            srcs.len(),
        )
    &&& forall|p: int| g * row_len <= p < before.len() ==> #[trigger] after[p] == before[p]
}

/// Externally resolved multi-row geometry: `nrows * srcs.len()` map words,
/// every source `row_len` bytes.
pub open spec fn grouped_maps_ok(maps: Seq<u64>, srcs: Seq<&[u8]>, nrows: int, row_len: int) -> bool {
    &&& maps.len() == nrows * srcs.len()
    &&& forall|t: int| 0 <= t < srcs.len() ==> (#[trigger] srcs[t])@.len() == row_len
}

/// Overwrite the `width` rows from `g` with the externally resolved chunk
/// loop over the map block at `cursor == g * terms`, extending the finished
/// rows from `g` to `g + width`; each row of the group is `width` words
/// apart per term.
fn external_group(
    rows: &mut [u8],
    row_len: usize,
    nrows: usize,
    g: usize,
    width: usize,
    maps: &[u64],
    cursor: usize,
    srcs: &[&[u8]],
    chunk: usize,
    Ghost(orig): Ghost<Seq<u8>>,
)
    requires
        g + width <= nrows,
        cursor == g * srcs@.len(),
        srcs@.len() > 0,
        nrows * row_len <= old(rows)@.len(),
        grouped_maps_ok(maps@, srcs@, nrows as int, row_len as int),
        forall|j: int|
            0 <= j < width ==> group_start(nrows as int, #[trigger] (g + j)) == g && group_width(
                nrows as int,
                g + j,
            ) == width,
        mapped_done(orig, old(rows)@, row_len as int, nrows as int, maps@, srcs@, g as int),
    ensures
        mapped_done(
            orig,
            final(rows)@,
            row_len as int,
            nrows as int,
            maps@,
            srcs@,
            (g + width) as int,
        ),
{
    let ghost n = srcs@.len() as int;
    assert((g + width) * row_len <= nrows * row_len && (g + width) * n <= nrows * n)
        by (nonlinear_arith)
        requires
            g + width <= nrows,
            n >= 0,
    ;
    assert(cursor + n * width == (g + width) * n) by (nonlinear_arith)
        requires
            cursor == g * n,
    ;
    assert(g * row_len <= (g + width) * row_len) by (nonlinear_arith);
    let ghost before = rows@;
    rows_external_chunked(rows, row_len, g, width, maps, cursor, srcs, chunk);
    assert forall|r: int, k: int| 0 <= r < g + width && 0 <= k < row_len implies #[trigger] row_byte(
        rows@,
        row_len as int,
        r,
        k,
    ) == map_sum(
        maps@,
        word_base(nrows as int, n, r),
        group_width(nrows as int, r),
        srcs@,
        k,
        0,
        srcs@.len(),
    ) by {
        if r < g {
            lemma_row_before(r, g as int, row_len as int, k);
            assert(rows@[r * row_len + k] == before[r * row_len + k]);
            assert(row_byte(before, row_len as int, r, k) == before[r * row_len + k]);
        } else {
            let j = r - g;
            assert(group_start(nrows as int, g + j) == g && group_width(nrows as int, g + j) == width);
            assert(row_byte(rows@, row_len as int, g + j, k) == map_sum(
                maps@,
                cursor + j,
                width as int,
                srcs@,
                k,
                0,
                srcs@.len(),
            ));
        }
    }
    assert forall|p: int| (g + width) * row_len <= p < orig.len() implies #[trigger] rows@[p]
        == orig[p] by {
        assert(g * row_len <= (g + width) * row_len) by (nonlinear_arith);
        assert(rows@[p] == before[p]);
    }
}

/// Multi-row overwrite over externally resolved `VGF2P8AFFINEQB` words,
/// chunked at `chunk` terms (`0`: one pass), over the production grouping.
/// `maps` is group-major: each four-row group's words, then the pair's, then
/// the single row's, each group term-major, so row `r` becomes
/// `sum_t maps[word_base(r) + t * group_width(r)] * srcs[t]`; with no
/// sources every row is zero.
pub fn mul_into_matrix_external_grouped_8d(
    _token: X64V3GfniCryptoToken,
    rows: &mut [u8],
    row_len: usize,
    nrows: usize,
    maps: &[u64],
    srcs: &[&[u8]],
    chunk: usize,
)
    requires
        row_len % 32 == 0,
        nrows * row_len <= old(rows)@.len(),
        grouped_maps_ok(maps@, srcs@, nrows as int, row_len as int),
        chunk == 0 || chunk == 32 || chunk == 64 || chunk == 96,
    ensures
        mapped_done(
            old(rows)@,
            final(rows)@,
            row_len as int,
            nrows as int,
            maps@,
            srcs@,
            nrows as int,
        ),
{
    let terms = srcs.len();
    let total = rows.len();
    let mlen = maps.len();
    if terms == 0 {
        zero_row(rows, 0, nrows * row_len);
        assert forall|r: int, k: int| 0 <= r < nrows && 0 <= k < row_len implies #[trigger] row_byte(
            rows@,
            row_len as int,
            r,
            k,
        ) == map_sum(
            maps@,
            word_base(nrows as int, 0, r),
            group_width(nrows as int, r),
            srcs@,
            k,
            0,
            srcs@.len(),
        ) by {
            lemma_row_before(r, nrows as int, row_len as int, k);
            assert(rows@[0 + (r * row_len + k)] == 0);
        }
        return;
    }
    let mut cursor: usize = 0;
    let mut g: usize = 0;
    assert(nrows * terms <= maps@.len());
    while 4 <= nrows - g
        invariant
            g <= nrows,
            mlen == maps@.len(),
            g % 4 == 0,
            terms == srcs@.len(),
            terms > 0,
            cursor == g * terms,
            nrows * row_len <= old(rows)@.len(),
            grouped_maps_ok(maps@, srcs@, nrows as int, row_len as int),
            mapped_done(old(rows)@, rows@, row_len as int, nrows as int, maps@, srcs@, g as int),
        decreases nrows - g,
    {
        assert forall|j: int| 0 <= j < 4 implies group_start(nrows as int, #[trigger] (g + j))
            == g && group_width(nrows as int, g + j) == 4 by {
            assert((g + j) % 4 == j);
        }
        external_group(rows, row_len, nrows, g, 4, maps, cursor, srcs, chunk, Ghost(old(rows)@));
        assert(g * terms + terms * 4 == (g + 4) * terms) by (nonlinear_arith);
        assert((g + 4) * terms <= nrows * terms) by (nonlinear_arith)
            requires
                g + 4 <= nrows,
        ;
        cursor += terms * 4;
        g += 4;
    }
    assert(g == nrows - nrows % 4);
    if 2 <= nrows - g {
        assert forall|j: int| 0 <= j < 2 implies group_start(nrows as int, #[trigger] (g + j))
            == g && group_width(nrows as int, g + j) == 2 by {}
        external_group(rows, row_len, nrows, g, 2, maps, cursor, srcs, chunk, Ghost(old(rows)@));
        assert(g * terms + terms * 2 == (g + 2) * terms) by (nonlinear_arith);
        assert((g + 2) * terms <= nrows * terms) by (nonlinear_arith)
            requires
                g + 2 <= nrows,
        ;
        cursor += terms * 2;
        g += 2;
    }
    if g < nrows {
        assert forall|j: int| 0 <= j < 1 implies group_start(nrows as int, #[trigger] (g + j))
            == g && group_width(nrows as int, g + j) == 1 by {}
        external_group(rows, row_len, nrows, g, 1, maps, cursor, srcs, chunk, Ghost(old(rows)@));
        g += 1;
    }
    assert(g == nrows);
}

} // verus!
