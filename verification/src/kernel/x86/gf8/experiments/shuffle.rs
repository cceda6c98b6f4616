//! Nibble-shuffle alternatives to the GFNI multiply in the multi-row shapes.
//!
//! These bodies ask whether spreading the multiply across the two shuffle
//! ports beats the single-port `GF2P8MULB` ceiling at six and two outputs,
//! including prepacked 32-byte coefficient records: `[lo; 16, hi; 16]`, the
//! products of a coefficient with every low and every high nibble.

use super::super::matrix::matrix_result;
use super::super::rows::{lemma_row_before, row_byte, term_ok, term_sum, terms_ok, zero_row};
use super::super::{Affine8D, Blocked, Gfni};
use super::rows_resolved_chunked;
use crate::field::gf8::{lemma_xor_assoc, lemma_xor_zero};
use crate::field::gf8b::Elem;
use crate::field::gf8d;
use crate::lanes::zip_bytes_span;
use archmage::{X64V3GfniCryptoToken, X64V3Token};
use vstd::prelude::*;

verus! {

/// Six-row terms: every term has six coefficients and a `row_len`-byte
/// source.
pub open spec fn six_row_terms_ok<E>(terms: Seq<(&[E], &[u8])>, row_len: int) -> bool {
    forall|t: int|
        0 <= t < terms.len() ==> #[trigger] terms[t].0@.len() == 6 && terms[t].1@.len() == row_len
}

/// The six-row shuffle body: one source load feeds six accumulators through
/// nibble-table lookups over the 32-byte-lane prefix; the sub-lane tail is
/// folded term by term by the multiply, zero coefficients skipped.
fn mul_into_matrix6_shuffle_impl<S: Blocked>(
    rows: &mut [u8],
    row_len: usize,
    terms: &[(&[S::Coeff], &[u8])],
)
    requires
        6 * row_len <= old(rows)@.len(),
        six_row_terms_ok(terms@, row_len as int),
        forall|c: S::Coeff| S::prepared(c),
    ensures
        matrix_result::<S, [(&[S::Coeff], &[u8])]>(
            old(rows)@,
            final(rows)@,
            row_len as int,
            6,
            terms,
            true,
        ),
{
    assert(terms_ok::<S, [(&[S::Coeff], &[u8])]>(terms, 6, row_len as int)) by {
        assert forall|t: int, r: int| 0 <= t < terms@.len() && 0 <= r < 6 implies #[trigger] term_ok::<
            S,
            [(&[S::Coeff], &[u8])],
        >(terms, t, r, row_len as int) by {
            assert(terms@[t].0@.len() == 6 && terms@[t].1@.len() == row_len);
        }
    }
    let count = terms.len();
    let chunk = if count == 0 {
        1
    } else {
        count
    };
    rows_resolved_chunked::<S, [(&[S::Coeff], &[u8])]>(
        rows,
        row_len,
        0,
        6,
        1,
        terms,
        chunk,
        true,
        true,
    );
    assert forall|r: int, k: int| 0 <= r < 6 && 0 <= k < row_len implies #[trigger] row_byte(
        rows@,
        row_len as int,
        r,
        k,
    ) == 0u8 ^ term_sum::<S, [(&[S::Coeff], &[u8])]>(terms, r, k, terms@.len()) by {
        assert(row_byte(rows@, row_len as int, 0 + r, k) == 0u8 ^ term_sum::<
            S,
            [(&[S::Coeff], &[u8])],
        >(terms, 0 + r, k, terms@.len()));
    }
}

/// Six-output overwrite by nibble shuffles under `0x11B`, even on a GFNI
/// host: `rows[j][k] = sum_t terms[t].0[j] * terms[t].1[k]` for `j < 6`.
pub fn mul_into_matrix6_shuffle_8b(
    _token: X64V3GfniCryptoToken,
    rows: &mut [u8],
    row_len: usize,
    terms: &[(&[Elem], &[u8])],
)
    requires
        6 * row_len <= old(rows)@.len(),
        six_row_terms_ok(terms@, row_len as int),
    ensures
        matrix_result::<Gfni, [(&[Elem], &[u8])]>(
            old(rows)@,
            final(rows)@,
            row_len as int,
            6,
            terms,
            true,
        ),
{
    mul_into_matrix6_shuffle_impl::<Gfni>(rows, row_len, terms);
}

/// [`mul_into_matrix6_shuffle_8b`] under `0x11D`.
pub fn mul_into_matrix6_shuffle_8d(
    _token: X64V3GfniCryptoToken,
    rows: &mut [u8],
    row_len: usize,
    terms: &[(&[gf8d::Elem], &[u8])],
)
    requires
        6 * row_len <= old(rows)@.len(),
        six_row_terms_ok(terms@, row_len as int),
    ensures
        matrix_result::<Affine8D, [(&[gf8d::Elem], &[u8])]>(
            old(rows)@,
            final(rows)@,
            row_len as int,
            6,
            terms,
            true,
        ),
{
    mul_into_matrix6_shuffle_impl::<Affine8D>(rows, row_len, terms);
}

/// `x` multiplied through a packed record: the low nibble's entry of the
/// low half xor the high nibble's entry of the high half.
pub open spec fn packed_product(rec: [u8; 32], x: u8) -> u8 {
    rec@[(x % 16) as int] ^ rec@[16 + (x / 16) as int]
}

/// Whether the sub-lane tail folds a record: its `c * 1` entry is nonzero,
/// or (when `probe_high`) its `c * 0x10` entry is.
pub open spec fn record_kept(rec: [u8; 32], probe_high: bool) -> bool {
    rec@[1] != 0 || (probe_high && rec@[16] != 0)
}

/// Term `t`'s contribution to row `row` at byte `k`: its packed product, or
/// nothing in the tail when the record is not kept.
pub open spec fn packed_term(
    tables: Seq<[u8; 32]>,
    srcs: Seq<&[u8]>,
    nrows: int,
    row: int,
    t: int,
    k: int,
    tail: bool,
    probe_high: bool,
) -> u8 {
    let rec = tables[t * nrows + row];
    if !tail || record_kept(rec, probe_high) {
        packed_product(rec, srcs[t]@[k])
    } else {
        0u8
    }
}

/// The sum of the first `n` packed terms of row `row` at byte `k`.
pub open spec fn packed_sum(
    tables: Seq<[u8; 32]>,
    srcs: Seq<&[u8]>,
    nrows: int,
    row: int,
    k: int,
    n: nat,
    tail: bool,
    probe_high: bool,
) -> u8
    decreases n,
{
    if n == 0 {
        0u8
    } else {
        packed_sum(tables, srcs, nrows, row, k, (n - 1) as nat, tail, probe_high) ^ packed_term(
            tables,
            srcs,
            nrows,
            row,
            n - 1,
            k,
            tail,
            probe_high,
        )
    }
}

/// Packed geometry: `nrows` records per source, every source `row_len`
/// bytes.
pub open spec fn packed_ok(tables: Seq<[u8; 32]>, srcs: Seq<&[u8]>, nrows: int, row_len: int) -> bool {
    &&& tables.len() == srcs.len() * nrows
    &&& forall|t: int| 0 <= t < srcs.len() ==> (#[trigger] srcs[t])@.len() == row_len
}

/// Row `r`, byte `k` of `after` is the packed sum over every source (the
/// sub-lane tail, from `row_len` rounded down to 32 bytes, taking only kept
/// records) for each of the first `nrows` rows; bytes past them are as in
/// `before`.
pub open spec fn packed_result(
    before: Seq<u8>,
    after: Seq<u8>,
    row_len: int,
    nrows: int,
    tables: Seq<[u8; 32]>,
    srcs: Seq<&[u8]>,
    probe_high: bool,
) -> bool {
    &&& after.len() == before.len()
    &&& forall|r: int, k: int|
        0 <= r < nrows && 0 <= k < row_len ==> #[trigger] row_byte(after, row_len, r, k)
            == packed_sum(
            tables,
            srcs,
            nrows,
            r,
            k,
            srcs.len(),
            k >= row_len - row_len % 32,
            probe_high,
        )
    &&& forall|p: int| nrows * row_len <= p < before.len() ==> #[trigger] after[p] == before[p]
}

/// Record `t * nrows + row` lies inside the packed tables.
proof fn lemma_record_index(t: int, row: int, nrows: int, n: int)
    by (nonlinear_arith)
    requires
        0 <= t < n,
        0 <= row < nrows,
    ensures
        0 <= t * nrows + row < n * nrows,
{
    assert(t * nrows + nrows <= n * nrows);
}

/// Fold the packed terms of row `row` into bytes `off .. off + w` of the
/// row at `base` (kept records only, when `tail`).
fn fold_packed_window(
    rows: &mut [u8],
    base: usize,
    off: usize,
    w: usize,
    row_len: usize,
    tables: &[[u8; 32]],
    srcs: &[&[u8]],
    nrows: usize,
    row: usize,
    tail: bool,
    probe_high: bool,
)
    requires
        off + w <= row_len,
        base + row_len <= old(rows)@.len(),
        row < nrows,
        packed_ok(tables@, srcs@, nrows as int, row_len as int),
    ensures
        final(rows)@.len() == old(rows)@.len(),
        forall|k: int|
            off <= k < off + w ==> #[trigger] final(rows)@[base + k] == old(rows)@[base + k]
                ^ packed_sum(
                tables@,
                srcs@,
                nrows as int,
                row as int,
                k,
                srcs@.len(),
                tail,
                probe_high,
            ),
        forall|p: int|
            0 <= p < old(rows)@.len() && !(base + off <= p < base + off + w) ==> #[trigger] final(rows)@[p] == old(rows)@[p],
{
    let n = srcs.len();
    let total = rows.len();
    let tlen = tables.len();
    let mut t: usize = 0;
    assert forall|k: int| off <= k < off + w implies #[trigger] rows@[base + k] == old(rows)@[base + k]
        ^ packed_sum(tables@, srcs@, nrows as int, row as int, k, 0, tail, probe_high) by {
        lemma_xor_zero(rows@[base + k]);
    }
    while t < n
        invariant
            t <= n,
            n == srcs@.len(),
            total == old(rows)@.len(),
            tlen == tables@.len(),
            off + w <= row_len,
            base + row_len <= old(rows)@.len(),
            row < nrows,
            packed_ok(tables@, srcs@, nrows as int, row_len as int),
            rows@.len() == old(rows)@.len(),
            forall|k: int|
                off <= k < off + w ==> #[trigger] rows@[base + k] == old(rows)@[base + k] ^ packed_sum(
                    tables@,
                    srcs@,
                    nrows as int,
                    row as int,
                    k,
                    t as nat,
                    tail,
                    probe_high,
                ),
            forall|p: int|
                0 <= p < old(rows)@.len() && !(base + off <= p < base + off + w) ==> #[trigger] rows@[p]
                    == old(rows)@[p],
        decreases n - t,
    {
        proof {
            lemma_record_index(t as int, row as int, nrows as int, n as int);
        }
        let rec = tables[t * nrows + row];
        let src = srcs[t];
        assert(src@.len() == row_len);
        let ghost prev = rows@;
        if !tail || rec[1] != 0 || (probe_high && rec[16] != 0) {
            let f = |d: u8, x: u8| -> (r: u8)
                ensures
                    r == d ^ packed_product(rec, x),
                {
                    let lo = rec[(x % 16) as usize];
                    let hi = rec[16 + (x / 16) as usize];
                    d ^ (lo ^ hi)
                };
            zip_bytes_span(rows, base + off, src, off, w, f);
            assert forall|k: int| off <= k < off + w implies #[trigger] rows@[base + k] == prev[base
                + k] ^ packed_term(
                tables@,
                srcs@,
                nrows as int,
                row as int,
                t as int,
                k,
                tail,
                probe_high,
            ) by {
                assert(rows@[(base + off) + (k - off)] == prev[(base + off) + (k - off)]
                    ^ packed_product(rec, src@[off + (k - off)]));
            }
        } else {
            assert forall|k: int| off <= k < off + w implies #[trigger] rows@[base + k] == prev[base
                + k] ^ packed_term(
                tables@,
                srcs@,
                nrows as int,
                row as int,
                t as int,
                k,
                tail,
                probe_high,
            ) by {
                lemma_xor_zero(prev[base + k]);
            }
        }
        assert forall|k: int| off <= k < off + w implies #[trigger] rows@[base + k] == old(rows)@[base
            + k] ^ packed_sum(
            tables@,
            srcs@,
            nrows as int,
            row as int,
            k,
            (t + 1) as nat,
            tail,
            probe_high,
        ) by {
            let a = old(rows)@[base + k];
            let y = packed_sum(tables@, srcs@, nrows as int, row as int, k, t as nat, tail, probe_high);
            let z = packed_term(tables@, srcs@, nrows as int, row as int, t as int, k, tail, probe_high);
            lemma_xor_assoc(a, y, z);
        }
        t += 1;
    }
}

/// One packed window pass: bytes `off .. off + w` of each of the first
/// `nrows` rows cleared, then every packed term folded in (kept records
/// only, when `tail`).
fn packed_window_pass(
    rows: &mut [u8],
    row_len: usize,
    nrows: usize,
    off: usize,
    w: usize,
    tables: &[[u8; 32]],
    srcs: &[&[u8]],
    tail: bool,
    probe_high: bool,
)
    requires
        nrows * row_len <= old(rows)@.len(),
        off + w <= row_len,
        packed_ok(tables@, srcs@, nrows as int, row_len as int),
    ensures
        final(rows)@.len() == old(rows)@.len(),
        forall|r: int, k: int|
            0 <= r < nrows && off <= k < off + w ==> #[trigger] row_byte(
                final(rows)@,
                row_len as int,
                r,
                k,
            ) == packed_sum(tables@, srcs@, nrows as int, r, k, srcs@.len(), tail, probe_high),
        forall|r: int, k: int|
            0 <= r < nrows && 0 <= k < row_len && !(off <= k < off + w) ==> #[trigger] row_byte(
                final(rows)@,
                row_len as int,
                r,
                k,
            ) == row_byte(old(rows)@, row_len as int, r, k),
        forall|p: int|
            nrows * row_len <= p < old(rows)@.len() ==> #[trigger] final(rows)@[p] == old(rows)@[p],
{
    let total = rows.len();
    let mut r: usize = 0;
    while r < nrows
        invariant
            r <= nrows,
            total == old(rows)@.len(),
            nrows * row_len <= old(rows)@.len(),
            off + w <= row_len,
            packed_ok(tables@, srcs@, nrows as int, row_len as int),
            rows@.len() == old(rows)@.len(),
            forall|r2: int, k: int|
                0 <= r2 < r && off <= k < off + w ==> #[trigger] row_byte(
                    rows@,
                    row_len as int,
                    r2,
                    k,
                ) == packed_sum(tables@, srcs@, nrows as int, r2, k, srcs@.len(), tail, probe_high),
            forall|r2: int, k: int|
                0 <= r2 < r && 0 <= k < row_len && !(off <= k < off + w) ==> #[trigger] row_byte(
                    rows@,
                    row_len as int,
                    r2,
                    k,
                ) == row_byte(old(rows)@, row_len as int, r2, k),
            forall|p: int|
                r * row_len <= p < old(rows)@.len() ==> #[trigger] rows@[p] == old(rows)@[p],
        decreases nrows - r,
    {
        assert(r * row_len + row_len <= nrows * row_len) by (nonlinear_arith)
            requires
                r < nrows,
        ;
        let base = r * row_len;
        let ghost before = rows@;
        zero_row(rows, base + off, w);
        let ghost seeded = rows@;
        fold_packed_window(rows, base, off, w, row_len, tables, srcs, nrows, r, tail, probe_high);
        assert forall|r2: int, k: int| 0 <= r2 < r + 1 && off <= k < off + w implies #[trigger] row_byte(
            rows@,
            row_len as int,
            r2,
            k,
        ) == packed_sum(tables@, srcs@, nrows as int, r2, k, srcs@.len(), tail, probe_high) by {
            if r2 < r {
                lemma_row_before(r2, r as int, row_len as int, k);
                let q = r2 * row_len + k;
                assert(rows@[q] == seeded[q] && seeded[q] == before[q]);
                assert(row_byte(before, row_len as int, r2, k) == before[q]);
            } else {
                assert(r2 * row_len + k == base + k);
                assert(seeded[(base + off) + (k - off)] == 0);
                lemma_xor_zero(packed_sum(tables@, srcs@, nrows as int, r2, k, srcs@.len(), tail, probe_high));
            }
        }
        assert forall|r2: int, k: int|
            0 <= r2 < r + 1 && 0 <= k < row_len && !(off <= k < off + w) implies #[trigger] row_byte(
            rows@,
            row_len as int,
            r2,
            k,
        ) == row_byte(old(rows)@, row_len as int, r2, k) by {
            if r2 < r {
                lemma_row_before(r2, r as int, row_len as int, k);
                let q = r2 * row_len + k;
                assert(rows@[q] == seeded[q] && seeded[q] == before[q]);
                assert(row_byte(before, row_len as int, r2, k) == before[q]);
            } else {
                assert(r2 * row_len + k == base + k);
                assert(seeded[base + k] == before[base + k]);
            }
        }
        assert(r * row_len + row_len == (r + 1) * row_len) by (nonlinear_arith);
        r += 1;
    }
}

/// The packed shuffle body over the first `nrows` rows: the 32-byte-lane
/// prefix in tiles of `lanes` lanes and then single lanes, every record
/// folded in; the sub-lane tail takes only the kept records.
fn packed_body(
    rows: &mut [u8],
    row_len: usize,
    nrows: usize,
    tables: &[[u8; 32]],
    srcs: &[&[u8]],
    lanes: usize,
    probe_high: bool,
)
    requires
        nrows * row_len <= old(rows)@.len(),
        1 <= lanes <= 4,
        packed_ok(tables@, srcs@, nrows as int, row_len as int),
    ensures
        packed_result(
            old(rows)@,
            final(rows)@,
            row_len as int,
            nrows as int,
            tables@,
            srcs@,
            probe_high,
        ),
{
    let vlen = row_len - row_len % 32;
    let step = 32 * lanes;
    let mut tile: usize = 0;
    while step <= vlen - tile
        invariant
            step == 32 * lanes,
            1 <= lanes <= 4,
            tile <= vlen,
            tile % 32 == 0,
            vlen == row_len - row_len % 32,
            nrows * row_len <= old(rows)@.len(),
            packed_ok(tables@, srcs@, nrows as int, row_len as int),
            rows@.len() == old(rows)@.len(),
            forall|r: int, k: int|
                0 <= r < nrows && 0 <= k < tile ==> #[trigger] row_byte(rows@, row_len as int, r, k)
                    == packed_sum(tables@, srcs@, nrows as int, r, k, srcs@.len(), false, probe_high),
            forall|r: int, k: int|
                0 <= r < nrows && tile <= k < row_len ==> #[trigger] row_byte(
                    rows@,
                    row_len as int,
                    r,
                    k,
                ) == row_byte(old(rows)@, row_len as int, r, k),
            forall|p: int|
                nrows * row_len <= p < old(rows)@.len() ==> #[trigger] rows@[p] == old(rows)@[p],
        decreases vlen - tile,
    {
        let ghost before = rows@;
        packed_window_pass(rows, row_len, nrows, tile, step, tables, srcs, false, probe_high);
        assert forall|r: int, k: int| 0 <= r < nrows && 0 <= k < tile + step implies #[trigger] row_byte(
            rows@,
            row_len as int,
            r,
            k,
        ) == packed_sum(tables@, srcs@, nrows as int, r, k, srcs@.len(), false, probe_high) by {
            if k < tile {
                assert(row_byte(rows@, row_len as int, r, k) == row_byte(before, row_len as int, r, k));
            }
        }
        assert forall|r: int, k: int| 0 <= r < nrows && tile + step <= k < row_len implies #[trigger] row_byte(
            rows@,
            row_len as int,
            r,
            k,
        ) == row_byte(old(rows)@, row_len as int, r, k) by {
            assert(row_byte(rows@, row_len as int, r, k) == row_byte(before, row_len as int, r, k));
        }
        tile += step;
    }
    while 32 <= vlen - tile
        invariant
            tile <= vlen,
            tile % 32 == 0,
            vlen == row_len - row_len % 32,
            nrows * row_len <= old(rows)@.len(),
            packed_ok(tables@, srcs@, nrows as int, row_len as int),
            rows@.len() == old(rows)@.len(),
            forall|r: int, k: int|
                0 <= r < nrows && 0 <= k < tile ==> #[trigger] row_byte(rows@, row_len as int, r, k)
                    == packed_sum(tables@, srcs@, nrows as int, r, k, srcs@.len(), false, probe_high),
            forall|r: int, k: int|
                0 <= r < nrows && tile <= k < row_len ==> #[trigger] row_byte(
                    rows@,
                    row_len as int,
                    r,
                    k,
                ) == row_byte(old(rows)@, row_len as int, r, k),
            forall|p: int|
                nrows * row_len <= p < old(rows)@.len() ==> #[trigger] rows@[p] == old(rows)@[p],
        decreases vlen - tile,
    {
        let ghost before = rows@;
        packed_window_pass(rows, row_len, nrows, tile, 32, tables, srcs, false, probe_high);
        assert forall|r: int, k: int| 0 <= r < nrows && 0 <= k < tile + 32 implies #[trigger] row_byte(
            rows@,
            row_len as int,
            r,
            k,
        ) == packed_sum(tables@, srcs@, nrows as int, r, k, srcs@.len(), false, probe_high) by {
            if k < tile {
                assert(row_byte(rows@, row_len as int, r, k) == row_byte(before, row_len as int, r, k));
            }
        }
        assert forall|r: int, k: int| 0 <= r < nrows && tile + 32 <= k < row_len implies #[trigger] row_byte(
            rows@,
            row_len as int,
            r,
            k,
        ) == row_byte(old(rows)@, row_len as int, r, k) by {
            assert(row_byte(rows@, row_len as int, r, k) == row_byte(before, row_len as int, r, k));
        }
        tile += 32;
    }
    let ghost mid = rows@;
    packed_window_pass(rows, row_len, nrows, vlen, row_len - vlen, tables, srcs, true, probe_high);
    assert forall|r: int, k: int| 0 <= r < nrows && 0 <= k < row_len implies #[trigger] row_byte(
        rows@,
        row_len as int,
        r,
        k,
    ) == packed_sum(
        tables@,
        srcs@,
        nrows as int,
        r,
        k,
        srcs@.len(),
        k >= row_len - row_len % 32,
        probe_high,
    ) by {
        if k < vlen {
            assert(row_byte(rows@, row_len as int, r, k) == row_byte(mid, row_len as int, r, k));
        }
    }
}

/// The six-row packed body: one source load feeds six accumulators through
/// the records of its six rows.
fn mul_into_matrix6_shuffle_packed_impl(
    rows: &mut [u8],
    row_len: usize,
    tables: &[[u8; 32]],
    srcs: &[&[u8]],
)
    requires
        6 * row_len <= old(rows)@.len(),
        packed_ok(tables@, srcs@, 6, row_len as int),
    ensures
        packed_result(old(rows)@, final(rows)@, row_len as int, 6, tables@, srcs@, false),
{
    packed_body(rows, row_len, 6, tables, srcs, 1, false);
}

/// Six-output overwrite by nibble shuffles over prepacked records:
/// `tables[t * 6 + j]` is the `[lo; 16, hi; 16]` record of term `t`'s
/// coefficient for row `j`, and row `j` becomes
/// `sum_t packed(tables[t * 6 + j], srcs[t])`; in the sub-lane tail a record
/// whose `c * 1` entry is zero is skipped.
pub fn mul_into_matrix6_shuffle_packed_8b(
    _token: X64V3GfniCryptoToken,
    rows: &mut [u8],
    row_len: usize,
    tables: &[[u8; 32]],
    srcs: &[&[u8]],
)
    requires
        6 * row_len <= old(rows)@.len(),
        packed_ok(tables@, srcs@, 6, row_len as int),
    ensures
        packed_result(old(rows)@, final(rows)@, row_len as int, 6, tables@, srcs@, false),
{
    mul_into_matrix6_shuffle_packed_impl(rows, row_len, tables, srcs);
}

/// [`mul_into_matrix6_shuffle_packed_8b`] for records prepared under
/// `0x11D`: the body reads only the records, so it is the same walk.
pub fn mul_into_matrix6_shuffle_packed_8d(
    _token: X64V3GfniCryptoToken,
    rows: &mut [u8],
    row_len: usize,
    tables: &[[u8; 32]],
    srcs: &[&[u8]],
)
    requires
        6 * row_len <= old(rows)@.len(),
        packed_ok(tables@, srcs@, 6, row_len as int),
    ensures
        packed_result(old(rows)@, final(rows)@, row_len as int, 6, tables@, srcs@, false),
{
    mul_into_matrix6_shuffle_packed_impl(rows, row_len, tables, srcs);
}

/// The two-row packed body: each term's two records reused across `lanes`
/// 32-byte lanes per iteration.
fn mul_into_matrix2_shuffle_body(
    rows: &mut [u8],
    row_len: usize,
    tables: &[[u8; 32]],
    srcs: &[&[u8]],
    lanes: usize,
)
    requires
        2 * row_len <= old(rows)@.len(),
        packed_ok(tables@, srcs@, 2, row_len as int),
        1 <= lanes <= 2,
    ensures
        packed_result(old(rows)@, final(rows)@, row_len as int, 2, tables@, srcs@, true),
{
    packed_body(rows, row_len, 2, tables, srcs, lanes, true);
}

/// Two-output overwrite by nibble shuffles over prepacked records, for
/// either byte field: `tables[t * 2 + j]` is the record of term `t`'s
/// coefficient for row `j`, and row `j` becomes
/// `sum_t packed(tables[t * 2 + j], srcs[t])`. `lanes` (1 or 2) is the number
/// of 32-byte lanes per iteration; in the sub-lane tail a record whose
/// `c * 1` and `c * 0x10` entries are both zero is skipped.
pub fn mul_into_matrix2_shuffle_packed(
    _token: X64V3Token,
    rows: &mut [u8],
    row_len: usize,
    tables: &[[u8; 32]],
    srcs: &[&[u8]],
    lanes: usize,
)
    requires
        2 * row_len <= old(rows)@.len(),
        packed_ok(tables@, srcs@, 2, row_len as int),
        lanes == 1 || lanes == 2,
    ensures
        packed_result(old(rows)@, final(rows)@, row_len as int, 2, tables@, srcs@, true),
{
    mul_into_matrix2_shuffle_body(rows, row_len, tables, srcs, lanes);
}

} // verus!
