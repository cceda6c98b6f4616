//! Measurement variants of the GF(2^8) kernels.
//!
//! None of these is reached from production dispatch: each one varies a
//! single decision of the production body it is paired with. They are
//! grouped by what they vary: `tile` for tile width and store policy,
//! `shuffle` for the nibble alternative to the GFNI multiply, `resolve` for
//! per-call coefficient resolution, `grouped` for the multi-row panel, and
//! `gather` for the gather tile and remainder controls.
//!
//! This module holds what `resolve` and `grouped` share: the row walks over
//! externally resolved `VGF2P8AFFINEQB` map words, and the resolved row
//! walks chunked at a selectable width.

pub mod gather;
pub mod grouped;
pub mod resolve;
pub mod shuffle;
pub mod tile;

use super::rows::{lemma_row_before, row_byte, term_ok, term_sum, zero_row};
use super::nibble::lookup_span;
use super::{Blocked, affine_byte, brem_span};
use crate::field::gf8::{affine_apply, gf_mul, lemma_xor_assoc, lemma_xor_zero};
use crate::kernel::Matrix;
use crate::lanes::zip_bytes_at;
use crate::tables::{lemma_lookup, lookup};
use vstd::prelude::*;

verus! {

/// `sum_t maps[at + t * stride] * srcs[t][k]` over the `n` terms from
/// `first`, each product one `VGF2P8AFFINEQB` byte lane.
pub open spec fn map_sum(
    maps: Seq<u64>,
    at: int,
    stride: int,
    srcs: Seq<&[u8]>,
    k: int,
    first: int,
    n: nat,
) -> u8
    decreases n,
{
    if n == 0 {
        0u8
    } else {
        let t = first + n - 1;
        (map_sum(maps, at, stride, srcs, k, first, (n - 1) as nat) ^ affine_apply(
            maps[at + t * stride],
            srcs[t]@[k],
        )) as u8
    }
}

/// The first `a + b` mapped terms are the first `a` plus the next `b`.
pub proof fn lemma_map_split(
    maps: Seq<u64>,
    at: int,
    stride: int,
    srcs: Seq<&[u8]>,
    k: int,
    a: nat,
    b: nat,
)
    ensures
        map_sum(maps, at, stride, srcs, k, 0, a + b) == map_sum(maps, at, stride, srcs, k, 0, a)
            ^ map_sum(maps, at, stride, srcs, k, a as int, b),
    decreases b,
{
    let x = map_sum(maps, at, stride, srcs, k, 0, a);
    if b == 0 {
        lemma_xor_zero(x);
    } else {
        lemma_map_split(maps, at, stride, srcs, k, a, (b - 1) as nat);
        let y = map_sum(maps, at, stride, srcs, k, a as int, (b - 1) as nat);
        let t = a + b - 1;
        let z = affine_apply(maps[at + t * stride], srcs[t]@[k]);
        lemma_xor_assoc(x, y, z);
        assert(map_sum(maps, at, stride, srcs, k, 0, a + b) == map_sum(
            maps,
            at,
            stride,
            srcs,
            k,
            0,
            (a + b - 1) as nat,
        ) ^ z);
    }
}

/// The map words of terms `first .. first + count` lie at
/// `at + t * stride` inside `maps`, and each of those terms has a
/// `row_len`-byte source.
pub open spec fn maps_cover(
    maps: Seq<u64>,
    at: int,
    stride: int,
    srcs: Seq<&[u8]>,
    first: int,
    count: int,
    row_len: int,
) -> bool {
    &&& 0 <= first
    &&& first + count <= srcs.len()
    &&& forall|t: int| first <= t < first + count ==> (#[trigger] srcs[t])@.len() == row_len
    &&& forall|t: int| first <= t < first + count ==> 0 <= at + #[trigger] (t * stride) < maps.len()
}

/// Fold mapped terms `first .. first + count` into one row:
/// `rows[base + k] ^= sum_t maps[at + t * stride] * srcs[t][k]`, every byte
/// outside the row left as it was.
fn fold_maps_row(
    rows: &mut [u8],
    base: usize,
    row_len: usize,
    maps: &[u64],
    at: usize,
    stride: usize,
    srcs: &[&[u8]],
    first: usize,
    count: usize,
)
    requires
        base + row_len <= old(rows)@.len(),
        maps_cover(
            maps@,
            at as int,
            stride as int,
            srcs@,
            first as int,
            count as int,
            row_len as int,
        ),
    ensures
        final(rows)@.len() == old(rows)@.len(),
        forall|k: int|
            0 <= k < row_len ==> #[trigger] final(rows)@[base + k] == old(rows)@[base + k]
                ^ map_sum(maps@, at as int, stride as int, srcs@, k, first as int, count as nat),
        forall|j: int|
            0 <= j < old(rows)@.len() && !(base <= j < base + row_len) ==> #[trigger] final(rows)@[j] == old(rows)@[j],
{
    let nsrc = srcs.len();
    let mlen = maps.len();
    let mut s: usize = 0;
    assert forall|k: int| 0 <= k < row_len implies #[trigger] rows@[base + k] == old(rows)@[base
        + k] ^ map_sum(maps@, at as int, stride as int, srcs@, k, first as int, 0) by {
        lemma_xor_zero(rows@[base + k]);
    }
    while s < count
        invariant
            s <= count,
            nsrc == srcs@.len(),
            mlen == maps@.len(),
            base + row_len <= old(rows)@.len(),
            rows@.len() == old(rows)@.len(),
            maps_cover(
                maps@,
                at as int,
                stride as int,
                srcs@,
                first as int,
                count as int,
                row_len as int,
            ),
            forall|k: int|
                0 <= k < row_len ==> #[trigger] rows@[base + k] == old(rows)@[base + k] ^ map_sum(
                    maps@,
                    at as int,
                    stride as int,
                    srcs@,
                    k,
                    first as int,
                    s as nat,
                ),
            forall|j: int|
                0 <= j < old(rows)@.len() && !(base <= j < base + row_len) ==> #[trigger] rows@[j]
                    == old(rows)@[j],
        decreases count - s,
    {
        let t = first + s;
        assert(srcs@[t as int]@.len() == row_len);
        assert(0 <= at + t * stride < maps@.len());
        let m = maps[at + t * stride];
        let src = srcs[t];
        let f = |d: u8, x: u8| -> (r: u8)
            ensures
                r == d ^ affine_apply(m, x),
            { d ^ affine_byte(m, x) };
        let ghost prev = rows@;
        zip_bytes_at(rows, base, src, f);
        assert forall|k: int| 0 <= k < row_len implies #[trigger] rows@[base + k] == old(rows)@[base + k] ^ map_sum(
            maps@,
            at as int,
            stride as int,
            srcs@,
            k,
            first as int,
            (s + 1) as nat,
        ) by {
            let a = old(rows)@[base + k];
            let y = map_sum(maps@, at as int, stride as int, srcs@, k, first as int, s as nat);
            let z = affine_apply(m, src@[k]);
            assert(rows@[base + k] == prev[base + k] ^ z);
            lemma_xor_assoc(a, y, z);
        }
        s += 1;
    }
}

/// The map columns of a `width`-row group: row `j` of the group reads term
/// `t`'s word at `cursor + t * width + j`, and every term has a
/// `row_len`-byte source.
pub open spec fn group_maps_ok(
    maps: Seq<u64>,
    cursor: int,
    width: int,
    srcs: Seq<&[u8]>,
    row_len: int,
) -> bool {
    &&& 0 <= cursor
    &&& cursor + srcs.len() * width <= maps.len()
    &&& forall|t: int| 0 <= t < srcs.len() ==> (#[trigger] srcs[t])@.len() == row_len
}

/// Word `j` of term `t` in a `width`-wide column block lies inside the block.
proof fn lemma_column_bound(cursor: int, j: int, t: int, width: int, n: int, mlen: int)
    by (nonlinear_arith)
    requires
        0 <= j < width,
        0 <= t < n,
        0 <= cursor,
        cursor + n * width <= mlen,
    ensures
        0 <= cursor + j + t * width < mlen,
{
    assert(t * width + width <= n * width);
}

/// Row `j` of a group reads a covered map column.
proof fn lemma_group_cover(
    maps: Seq<u64>,
    cursor: int,
    width: int,
    srcs: Seq<&[u8]>,
    row_len: int,
    j: int,
    first: int,
    count: int,
)
    requires
        group_maps_ok(maps, cursor, width, srcs, row_len),
        0 <= j < width,
        0 <= first,
        first + count <= srcs.len(),
    ensures
        maps_cover(maps, cursor + j, width, srcs, first, count, row_len),
{
    assert forall|t: int| first <= t < first + count implies #[trigger] srcs[t]@.len() == row_len by {
    }
    assert forall|t: int| first <= t < first + count implies 0 <= cursor + j + #[trigger] (t * width) < maps.len() by {
        lemma_column_bound(cursor, j, t, width, srcs.len() as int, maps.len() as int);
    }
}

/// One chunk pass over a group: mapped terms `start .. start + taken` folded
/// into each of the `width` rows from row `g`, each row first cleared when
/// `clear`.
fn external_pass(
    rows: &mut [u8],
    row_len: usize,
    g: usize,
    width: usize,
    maps: &[u64],
    cursor: usize,
    srcs: &[&[u8]],
    start: usize,
    taken: usize,
    clear: bool,
)
    requires
        g + width <= usize::MAX,
        (g + width) * row_len <= old(rows)@.len(),
        group_maps_ok(maps@, cursor as int, width as int, srcs@, row_len as int),
        start + taken <= srcs@.len(),
        srcs@.len() > 0,
    ensures
        final(rows)@.len() == old(rows)@.len(),
        forall|j: int, k: int|
            0 <= j < width && 0 <= k < row_len ==> #[trigger] row_byte(
                final(rows)@,
                row_len as int,
                g + j,
                k,
            ) == (if clear {
                0u8
            } else {
                row_byte(old(rows)@, row_len as int, g + j, k)
            }) ^ map_sum(
                maps@,
                cursor + j,
                width as int,
                srcs@,
                k,
                start as int,
                taken as nat,
            ),
        forall|p: int|
            0 <= p < old(rows)@.len() && !(g * row_len <= p < (g + width) * row_len)
                ==> #[trigger] final(rows)@[p] == old(rows)@[p],
{
    let total = rows.len();
    let mlen = maps.len();
    assert(width <= srcs@.len() * width) by (nonlinear_arith)
        requires
            srcs@.len() > 0,
    ;
    let mut j: usize = 0;
    while j < width
        invariant
            j <= width,
            total == old(rows)@.len(),
            mlen == maps@.len(),
            width <= srcs@.len() * width,
            srcs@.len() > 0,
            g + width <= usize::MAX,
            (g + width) * row_len <= old(rows)@.len(),
            rows@.len() == old(rows)@.len(),
            group_maps_ok(maps@, cursor as int, width as int, srcs@, row_len as int),
            start + taken <= srcs@.len(),
            forall|j2: int, k: int|
                0 <= j2 < j && 0 <= k < row_len ==> #[trigger] row_byte(
                    rows@,
                    row_len as int,
                    g + j2,
                    k,
                ) == (if clear {
                    0u8
                } else {
                    row_byte(old(rows)@, row_len as int, g + j2, k)
                }) ^ map_sum(
                    maps@,
                    cursor + j2,
                    width as int,
                    srcs@,
                    k,
                    start as int,
                    taken as nat,
                ),
            forall|p: int|
                0 <= p < old(rows)@.len() && !(g * row_len <= p < (g + j) * row_len)
                    ==> #[trigger] rows@[p] == old(rows)@[p],
        decreases width - j,
    {
        assert((g + j) * row_len + row_len <= (g + width) * row_len && g * row_len <= (g + j)
            * row_len) by (nonlinear_arith)
            requires
                j < width,
        ;
        let base = (g + j) * row_len;
        let ghost before = rows@;
        if clear {
            zero_row(rows, base, row_len);
        }
        let ghost seeded = rows@;
        proof {
            lemma_group_cover(
                maps@,
                cursor as int,
                width as int,
                srcs@,
                row_len as int,
                j as int,
                start as int,
                taken as int,
            );
        }
        fold_maps_row(rows, base, row_len, maps, cursor + j, width, srcs, start, taken);
        assert forall|j2: int, k: int| 0 <= j2 < j + 1 && 0 <= k < row_len implies #[trigger] row_byte(
            rows@,
            row_len as int,
            g + j2,
            k,
        ) == (if clear {
            0u8
        } else {
            row_byte(old(rows)@, row_len as int, g + j2, k)
        }) ^ map_sum(
            maps@,
            cursor + j2,
            width as int,
            srcs@,
            k,
            start as int,
            taken as nat,
        ) by {
            if j2 < j {
                lemma_row_before(g + j2, (g + j) as int, row_len as int, k);
                let q = (g + j2) * row_len + k;
                assert(rows@[q] == seeded[q] && seeded[q] == before[q]);
                assert(row_byte(before, row_len as int, g + j2, k) == before[q]);
                assert(row_byte(rows@, row_len as int, g + j2, k) == rows@[q]);
            } else {
                assert((g + j2) * row_len + k == base + k);
                assert(row_byte(rows@, row_len as int, g + j2, k) == rows@[base + k]);
                assert(row_byte(old(rows)@, row_len as int, g + j2, k) == old(rows)@[base + k]);
                if clear {
                    assert(seeded[base + k] == 0);
                } else {
                    assert(seeded[base + k] == before[base + k]);
                    assert(before[base + k] == old(rows)@[base + k]);
                }
            }
        }
        assert((g + j) * row_len + row_len == (g + j + 1) * row_len) by (nonlinear_arith);
        j += 1;
    }
}

/// The externally resolved chunk loop over a `width`-row group: terms taken
/// `chunk` at a time (`0` takes them all in one pass), the first pass
/// overwriting and the later ones accumulating, so each row of the group
/// ends as the full mapped sum.
pub fn rows_external_chunked(
    rows: &mut [u8],
    row_len: usize,
    g: usize,
    width: usize,
    maps: &[u64],
    cursor: usize,
    srcs: &[&[u8]],
    chunk: usize,
)
    requires
        g + width <= usize::MAX,
        (g + width) * row_len <= old(rows)@.len(),
        group_maps_ok(maps@, cursor as int, width as int, srcs@, row_len as int),
        srcs@.len() > 0,
        g + width <= usize::MAX,
    ensures
        final(rows)@.len() == old(rows)@.len(),
        forall|j: int, k: int|
            0 <= j < width && 0 <= k < row_len ==> #[trigger] row_byte(
                final(rows)@,
                row_len as int,
                g + j,
                k,
            ) == map_sum(maps@, cursor + j, width as int, srcs@, k, 0, srcs@.len()),
        forall|p: int|
            0 <= p < old(rows)@.len() && !(g * row_len <= p < (g + width) * row_len)
                ==> #[trigger] final(rows)@[p] == old(rows)@[p],
{
    let terms = srcs.len();
    let step = if chunk == 0 {
        terms
    } else {
        chunk
    };
    let taken0 = if step < terms {
        step
    } else {
        terms
    };
    external_pass(rows, row_len, g, width, maps, cursor, srcs, 0, taken0, true);
    assert forall|j: int, k: int| 0 <= j < width && 0 <= k < row_len implies #[trigger] row_byte(
        rows@,
        row_len as int,
        g + j,
        k,
    ) == map_sum(maps@, cursor + j, width as int, srcs@, k, 0, taken0 as nat) by {
        lemma_xor_zero(map_sum(maps@, cursor + j, width as int, srcs@, k, 0, taken0 as nat));
    }
    let mut start = taken0;
    while start < terms
        invariant
            0 < step,
            g + width <= usize::MAX,
            start <= terms,
            terms == srcs@.len(),
            (g + width) * row_len <= old(rows)@.len(),
            rows@.len() == old(rows)@.len(),
            group_maps_ok(maps@, cursor as int, width as int, srcs@, row_len as int),
            forall|j: int, k: int|
                0 <= j < width && 0 <= k < row_len ==> #[trigger] row_byte(
                    rows@,
                    row_len as int,
                    g + j,
                    k,
                ) == map_sum(maps@, cursor + j, width as int, srcs@, k, 0, start as nat),
            forall|p: int|
                0 <= p < old(rows)@.len() && !(g * row_len <= p < (g + width) * row_len)
                    ==> #[trigger] rows@[p] == old(rows)@[p],
        decreases terms - start,
    {
        let taken = if step < terms - start {
            step
        } else {
            terms - start
        };
        let ghost before = rows@;
        external_pass(rows, row_len, g, width, maps, cursor, srcs, start, taken, false);
        assert forall|j: int, k: int| 0 <= j < width && 0 <= k < row_len implies #[trigger] row_byte(
            rows@,
            row_len as int,
            g + j,
            k,
        ) == map_sum(maps@, cursor + j, width as int, srcs@, k, 0, (start + taken) as nat) by {
            lemma_map_split(
                maps@,
                cursor + j,
                width as int,
                srcs@,
                k,
                start as nat,
                taken as nat,
            );
            assert(row_byte(before, row_len as int, g + j, k) == map_sum(
                maps@,
                cursor + j,
                width as int,
                srcs@,
                k,
                0,
                start as nat,
            ));
        }
        start += taken;
    }
}

/// The sum of the `n` resolved terms from `first` for row `row` at byte `k`.
pub open spec fn range_sum<S: Blocked, M: Matrix<S::Coeff> + ?Sized>(
    m: &M,
    row: int,
    k: int,
    first: int,
    n: nat,
) -> u8
    decreases n,
{
    if n == 0 {
        0u8
    } else {
        let t = first + n - 1;
        (range_sum::<S, M>(m, row, k, first, (n - 1) as nat) ^ gf_mul(
            S::red(),
            S::value(m.spec_coefficient(t, row)),
            m.spec_source(t)[k],
        )) as u8
    }
}

/// A range from the first term is the running term sum, and the first
/// `a + b` terms are the first `a` plus the next `b`.
pub proof fn lemma_range_split<S: Blocked, M: Matrix<S::Coeff> + ?Sized>(
    m: &M,
    row: int,
    k: int,
    a: nat,
    b: nat,
)
    ensures
        range_sum::<S, M>(m, row, k, 0, a) == term_sum::<S, M>(m, row, k, a),
        range_sum::<S, M>(m, row, k, 0, a + b) == range_sum::<S, M>(m, row, k, 0, a)
            ^ range_sum::<S, M>(m, row, k, a as int, b),
    decreases a + b,
{
    if a > 0 {
        lemma_range_split::<S, M>(m, row, k, (a - 1) as nat, 0);
    }
    let x = range_sum::<S, M>(m, row, k, 0, a);
    if b == 0 {
        lemma_xor_zero(x);
    } else {
        lemma_range_split::<S, M>(m, row, k, a, (b - 1) as nat);
        let y = range_sum::<S, M>(m, row, k, a as int, (b - 1) as nat);
        let t = a + b - 1;
        let z = gf_mul(S::red(), S::value(m.spec_coefficient(t, row)), m.spec_source(t)[k]);
        lemma_xor_assoc(x, y, z);
        assert(range_sum::<S, M>(m, row, k, 0, a + b) == range_sum::<S, M>(
            m,
            row,
            k,
            0,
            (a + b - 1) as nat,
        ) ^ z);
    }
}

/// Every term is usable for each row `g .. g + width`.
pub open spec fn group_terms_ok<S: Blocked, M: Matrix<S::Coeff> + ?Sized>(
    m: &M,
    g: int,
    width: int,
    row_len: int,
) -> bool {
    forall|t: int, r: int|
        0 <= t < m.spec_len() && g <= r < g + width ==> #[trigger] term_ok::<S, M>(
            m,
            t,
            r,
            row_len,
        )
}

/// Fold resolved terms `first .. first + count` of row `row` into the window
/// `base + off .. base + off + width`, from the same window of each source,
/// each product by the strategy's multiply (a zero coefficient skipped when
/// `skip_zero`) or by its nibble tables when `by_table`.
fn fold_window<S: Blocked, M: Matrix<S::Coeff> + ?Sized>(
    rows: &mut [u8],
    base: usize,
    off: usize,
    width: usize,
    row: usize,
    row_len: usize,
    terms: &M,
    first: usize,
    count: usize,
    skip_zero: bool,
    by_table: bool,
)
    requires
        off + width <= row_len,
        base + row_len <= old(rows)@.len(),
        first + count <= terms.spec_len(),
        forall|t: int| 0 <= t < terms.spec_len() ==> #[trigger] term_ok::<S, M>(terms, t, row as int, row_len as int),
    ensures
        final(rows)@.len() == old(rows)@.len(),
        forall|k: int|
            off <= k < off + width ==> #[trigger] final(rows)@[base + k] == old(rows)@[base + k]
                ^ range_sum::<S, M>(terms, row as int, k, first as int, count as nat),
        forall|p: int|
            0 <= p < old(rows)@.len() && !(base + off <= p < base + off + width)
                ==> #[trigger] final(rows)@[p] == old(rows)@[p],
{
    let n = terms.len();
    let total = rows.len();
    let mut s: usize = 0;
    assert forall|k: int| off <= k < off + width implies #[trigger] rows@[base + k] == old(
        rows,
    )@[base + k] ^ range_sum::<S, M>(terms, row as int, k, first as int, 0) by {
        lemma_xor_zero(rows@[base + k]);
    }
    while s < count
        invariant
            s <= count,
            n == terms.spec_len(),
            total == old(rows)@.len(),
            off + width <= row_len,
            base + row_len <= old(rows)@.len(),
            first + count <= terms.spec_len(),
            forall|t: int| 0 <= t < terms.spec_len() ==> #[trigger] term_ok::<S, M>(terms, t, row as int, row_len as int),
            rows@.len() == old(rows)@.len(),
            forall|k: int|
                off <= k < off + width ==> #[trigger] rows@[base + k] == old(rows)@[base + k]
                    ^ range_sum::<S, M>(terms, row as int, k, first as int, s as nat),
            forall|p: int|
                0 <= p < old(rows)@.len() && !(base + off <= p < base + off + width)
                    ==> #[trigger] rows@[p] == old(rows)@[p],
        decreases count - s,
    {
        let t = first + s;
        assert(term_ok::<S, M>(terms, t as int, row as int, row_len as int));
        let coeff = *terms.coefficient(t, row);
        let src = terms.source(t);
        let ghost v = S::value(coeff);
        let ghost prev = rows@;
        if by_table {
            let table = S::table(coeff);
            lookup_span(rows, base + off, &table, src, off, width);
            assert forall|k: int| off <= k < off + width implies #[trigger] rows@[base + k]
                == prev[base + k] ^ gf_mul(S::red(), v, src@[k]) by {
                assert(rows@[(base + off) + (k - off)] == prev[(base + off) + (k - off)] ^ lookup(
                    table,
                    src@[off + (k - off)],
                ));
                lemma_lookup(table, S::red(), src@[k]);
            }
        } else if !skip_zero || S::byte(coeff) != 0 {
            brem_span::<S>(rows, base + off, coeff, src, off, width);
            assert forall|k: int| off <= k < off + width implies #[trigger] rows@[base + k]
                == prev[base + k] ^ gf_mul(S::red(), v, src@[k]) by {
                assert(rows@[(base + off) + (k - off)] == prev[(base + off) + (k - off)] ^ gf_mul(
                    S::red(),
                    v,
                    src@[off + (k - off)],
                ));
            }
        } else {
            assert forall|k: int| off <= k < off + width implies #[trigger] rows@[base + k]
                == prev[base + k] ^ gf_mul(S::red(), v, src@[k]) by {
                crate::field::gf8::lemma_mul_zero_left(S::red(), src@[k]);
                lemma_xor_zero(prev[base + k]);
            }
        }
        assert forall|k: int| off <= k < off + width implies #[trigger] rows@[base + k] == old(rows)@[base + k] ^ range_sum::<S, M>(terms, row as int, k, first as int, (s + 1) as nat) by {
            let a = old(rows)@[base + k];
            let y = range_sum::<S, M>(terms, row as int, k, first as int, s as nat);
            let z = gf_mul(S::red(), v, src@[k]);
            lemma_xor_assoc(a, y, z);
        }
        s += 1;
    }
}

/// One window pass over a group: resolved terms `first .. first + count`
/// folded into bytes `off .. off + w` of each of the `width` rows from row
/// `g`, each window first cleared when `clear`, each product by the
/// strategy's multiply (a zero coefficient skipped when `skip_zero`) or by
/// its nibble tables when `by_table`.
fn window_pass<S: Blocked, M: Matrix<S::Coeff> + ?Sized>(
    rows: &mut [u8],
    row_len: usize,
    g: usize,
    width: usize,
    off: usize,
    w: usize,
    terms: &M,
    first: usize,
    count: usize,
    clear: bool,
    skip_zero: bool,
    by_table: bool,
)
    requires
        g + width <= usize::MAX,
        (g + width) * row_len <= old(rows)@.len(),
        off + w <= row_len,
        first + count <= terms.spec_len(),
        group_terms_ok::<S, M>(terms, g as int, width as int, row_len as int),
    ensures
        final(rows)@.len() == old(rows)@.len(),
        forall|j: int, k: int|
            0 <= j < width && off <= k < off + w ==> #[trigger] row_byte(
                final(rows)@,
                row_len as int,
                g + j,
                k,
            ) == (if clear {
                0u8
            } else {
                row_byte(old(rows)@, row_len as int, g + j, k)
            }) ^ range_sum::<S, M>(terms, g + j, k, first as int, count as nat),
        forall|j: int, k: int|
            0 <= j < width && 0 <= k < row_len && !(off <= k < off + w) ==> #[trigger] row_byte(
                final(rows)@,
                row_len as int,
                g + j,
                k,
            ) == row_byte(old(rows)@, row_len as int, g + j, k),
        forall|p: int|
            0 <= p < old(rows)@.len() && !(g * row_len <= p < (g + width) * row_len)
                ==> #[trigger] final(rows)@[p] == old(rows)@[p],
{
    let total = rows.len();
    let mut j: usize = 0;
    while j < width
        invariant
            j <= width,
            total == old(rows)@.len(),
            g + width <= usize::MAX,
            (g + width) * row_len <= old(rows)@.len(),
            off + w <= row_len,
            first + count <= terms.spec_len(),
            group_terms_ok::<S, M>(terms, g as int, width as int, row_len as int),
            rows@.len() == old(rows)@.len(),
            forall|j2: int, k: int|
                0 <= j2 < j && off <= k < off + w ==> #[trigger] row_byte(
                    rows@,
                    row_len as int,
                    g + j2,
                    k,
                ) == (if clear {
                    0u8
                } else {
                    row_byte(old(rows)@, row_len as int, g + j2, k)
                }) ^ range_sum::<S, M>(terms, g + j2, k, first as int, count as nat),
            forall|j2: int, k: int|
                0 <= j2 < j && 0 <= k < row_len && !(off <= k < off + w) ==> #[trigger] row_byte(
                    rows@,
                    row_len as int,
                    g + j2,
                    k,
                ) == row_byte(old(rows)@, row_len as int, g + j2, k),
            forall|p: int|
                0 <= p < old(rows)@.len() && !(g * row_len <= p < (g + j) * row_len)
                    ==> #[trigger] rows@[p] == old(rows)@[p],
        decreases width - j,
    {
        assert((g + j) * row_len + row_len <= (g + width) * row_len && g * row_len <= (g + j)
            * row_len) by (nonlinear_arith)
            requires
                j < width,
        ;
        let base = (g + j) * row_len;
        let ghost before = rows@;
        if clear {
            zero_row(rows, base + off, w);
        }
        let ghost seeded = rows@;
        assert forall|t: int| 0 <= t < terms.spec_len() implies #[trigger] term_ok::<S, M>(
            terms,
            t,
            (g + j) as int,
            row_len as int,
        ) by {
            assert(term_ok::<S, M>(terms, t, (g + j) as int, row_len as int));
        }
        fold_window::<S, M>(
            rows,
            base,
            off,
            w,
            g + j,
            row_len,
            terms,
            first,
            count,
            skip_zero,
            by_table,
        );
        assert forall|j2: int, k: int| 0 <= j2 < j + 1 && off <= k < off + w implies #[trigger] row_byte(
            rows@,
            row_len as int,
            g + j2,
            k,
        ) == (if clear {
            0u8
        } else {
            row_byte(old(rows)@, row_len as int, g + j2, k)
        }) ^ range_sum::<S, M>(terms, g + j2, k, first as int, count as nat) by {
            if j2 < j {
                lemma_row_before(g + j2, (g + j) as int, row_len as int, k);
                let q = (g + j2) * row_len + k;
                assert(rows@[q] == seeded[q] && seeded[q] == before[q]);
                assert(row_byte(before, row_len as int, g + j2, k) == before[q]);
                assert(row_byte(rows@, row_len as int, g + j2, k) == rows@[q]);
            } else {
                assert((g + j2) * row_len + k == base + k);
                assert(row_byte(rows@, row_len as int, g + j2, k) == rows@[base + k]);
                assert(row_byte(old(rows)@, row_len as int, g + j2, k) == old(rows)@[base + k]);
                if clear {
                    assert(seeded[(base + off) + (k - off)] == 0);
                } else {
                    assert(before[base + k] == old(rows)@[base + k]);
                }
            }
        }
        assert forall|j2: int, k: int|
            0 <= j2 < j + 1 && 0 <= k < row_len && !(off <= k < off + w) implies #[trigger] row_byte(
            rows@,
            row_len as int,
            g + j2,
            k,
        ) == row_byte(old(rows)@, row_len as int, g + j2, k) by {
            if j2 < j {
                lemma_row_before(g + j2, (g + j) as int, row_len as int, k);
                let q = (g + j2) * row_len + k;
                assert(rows@[q] == seeded[q] && seeded[q] == before[q]);
                assert(row_byte(before, row_len as int, g + j2, k) == before[q]);
                assert(row_byte(rows@, row_len as int, g + j2, k) == rows@[q]);
            } else {
                assert((g + j2) * row_len + k == base + k);
                assert(row_byte(rows@, row_len as int, g + j2, k) == rows@[base + k]);
                assert(row_byte(old(rows)@, row_len as int, g + j2, k) == old(rows)@[base + k]);
                assert(seeded[base + k] == before[base + k]);
                assert(before[base + k] == old(rows)@[base + k]);
            }
        }
        assert((g + j) * row_len + row_len == (g + j + 1) * row_len) by (nonlinear_arith);
        j += 1;
    }
}

/// One chunk pass over the 32-byte-lane prefix of a group: resolved terms
/// `first .. first + count` folded into bytes `0 .. vlen` of each row, in
/// tiles of `lanes` 32-byte lanes and then single lanes, each tile first
/// cleared when `clear`.
fn resolved_pass<S: Blocked, M: Matrix<S::Coeff> + ?Sized>(
    rows: &mut [u8],
    row_len: usize,
    g: usize,
    width: usize,
    vlen: usize,
    lanes: usize,
    terms: &M,
    first: usize,
    count: usize,
    clear: bool,
    by_table: bool,
)
    requires
        g + width <= usize::MAX,
        (g + width) * row_len <= old(rows)@.len(),
        vlen <= row_len,
        vlen % 32 == 0,
        1 <= lanes <= 4,
        first + count <= terms.spec_len(),
        group_terms_ok::<S, M>(terms, g as int, width as int, row_len as int),
    ensures
        final(rows)@.len() == old(rows)@.len(),
        forall|j: int, k: int|
            0 <= j < width && 0 <= k < vlen ==> #[trigger] row_byte(
                final(rows)@,
                row_len as int,
                g + j,
                k,
            ) == (if clear {
                0u8
            } else {
                row_byte(old(rows)@, row_len as int, g + j, k)
            }) ^ range_sum::<S, M>(terms, g + j, k, first as int, count as nat),
        forall|j: int, k: int|
            0 <= j < width && vlen <= k < row_len ==> #[trigger] row_byte(
                final(rows)@,
                row_len as int,
                g + j,
                k,
            ) == row_byte(old(rows)@, row_len as int, g + j, k),
        forall|p: int|
            0 <= p < old(rows)@.len() && !(g * row_len <= p < (g + width) * row_len)
                ==> #[trigger] final(rows)@[p] == old(rows)@[p],
{
    let step = 32 * lanes;
    let mut tile: usize = 0;
    while step <= vlen - tile
        invariant
            step == 32 * lanes,
            1 <= lanes <= 4,
            tile <= vlen,
            tile % 32 == 0,
            g + width <= usize::MAX,
            (g + width) * row_len <= old(rows)@.len(),
            vlen <= row_len,
            vlen % 32 == 0,
            first + count <= terms.spec_len(),
            group_terms_ok::<S, M>(terms, g as int, width as int, row_len as int),
            rows@.len() == old(rows)@.len(),
            forall|j: int, k: int|
                0 <= j < width && 0 <= k < tile ==> #[trigger] row_byte(
                    rows@,
                    row_len as int,
                    g + j,
                    k,
                ) == (if clear {
                    0u8
                } else {
                    row_byte(old(rows)@, row_len as int, g + j, k)
                }) ^ range_sum::<S, M>(terms, g + j, k, first as int, count as nat),
            forall|j: int, k: int|
                0 <= j < width && tile <= k < row_len ==> #[trigger] row_byte(
                    rows@,
                    row_len as int,
                    g + j,
                    k,
                ) == row_byte(old(rows)@, row_len as int, g + j, k),
            forall|p: int|
                0 <= p < old(rows)@.len() && !(g * row_len <= p < (g + width) * row_len)
                    ==> #[trigger] rows@[p] == old(rows)@[p],
        decreases vlen - tile,
    {
        let ghost before = rows@;
        window_pass::<S, M>(
            rows,
            row_len,
            g,
            width,
            tile,
            step,
            terms,
            first,
            count,
            clear,
            false,
            by_table,
        );
        assert forall|j: int, k: int| 0 <= j < width && 0 <= k < tile + step implies #[trigger] row_byte(
            rows@,
            row_len as int,
            g + j,
            k,
        ) == (if clear {
            0u8
        } else {
            row_byte(old(rows)@, row_len as int, g + j, k)
        }) ^ range_sum::<S, M>(terms, g + j, k, first as int, count as nat) by {
            if k < tile {
                assert(row_byte(rows@, row_len as int, g + j, k) == row_byte(before, row_len as int, g + j, k));
            } else {
                assert(row_byte(before, row_len as int, g + j, k) == row_byte(old(rows)@, row_len as int, g + j, k));
            }
        }
        assert forall|j: int, k: int| 0 <= j < width && tile + step <= k < row_len implies #[trigger] row_byte(
            rows@,
            row_len as int,
            g + j,
            k,
        ) == row_byte(old(rows)@, row_len as int, g + j, k) by {
            assert(row_byte(rows@, row_len as int, g + j, k) == row_byte(before, row_len as int, g + j, k));
        }
        tile += step;
    }
    while 32 <= vlen - tile
        invariant
            tile <= vlen,
            tile % 32 == 0,
            g + width <= usize::MAX,
            (g + width) * row_len <= old(rows)@.len(),
            vlen <= row_len,
            vlen % 32 == 0,
            first + count <= terms.spec_len(),
            group_terms_ok::<S, M>(terms, g as int, width as int, row_len as int),
            rows@.len() == old(rows)@.len(),
            forall|j: int, k: int|
                0 <= j < width && 0 <= k < tile ==> #[trigger] row_byte(
                    rows@,
                    row_len as int,
                    g + j,
                    k,
                ) == (if clear {
                    0u8
                } else {
                    row_byte(old(rows)@, row_len as int, g + j, k)
                }) ^ range_sum::<S, M>(terms, g + j, k, first as int, count as nat),
            forall|j: int, k: int|
                0 <= j < width && tile <= k < row_len ==> #[trigger] row_byte(
                    rows@,
                    row_len as int,
                    g + j,
                    k,
                ) == row_byte(old(rows)@, row_len as int, g + j, k),
            forall|p: int|
                0 <= p < old(rows)@.len() && !(g * row_len <= p < (g + width) * row_len)
                    ==> #[trigger] rows@[p] == old(rows)@[p],
        decreases vlen - tile,
    {
        let ghost before = rows@;
        window_pass::<S, M>(
            rows,
            row_len,
            g,
            width,
            tile,
            32,
            terms,
            first,
            count,
            clear,
            false,
            by_table,
        );
        assert forall|j: int, k: int| 0 <= j < width && 0 <= k < tile + 32 implies #[trigger] row_byte(
            rows@,
            row_len as int,
            g + j,
            k,
        ) == (if clear {
            0u8
        } else {
            row_byte(old(rows)@, row_len as int, g + j, k)
        }) ^ range_sum::<S, M>(terms, g + j, k, first as int, count as nat) by {
            if k < tile {
                assert(row_byte(rows@, row_len as int, g + j, k) == row_byte(before, row_len as int, g + j, k));
            } else {
                assert(row_byte(before, row_len as int, g + j, k) == row_byte(old(rows)@, row_len as int, g + j, k));
            }
        }
        assert forall|j: int, k: int| 0 <= j < width && tile + 32 <= k < row_len implies #[trigger] row_byte(
            rows@,
            row_len as int,
            g + j,
            k,
        ) == row_byte(old(rows)@, row_len as int, g + j, k) by {
            assert(row_byte(rows@, row_len as int, g + j, k) == row_byte(before, row_len as int, g + j, k));
        }
        tile += 32;
    }
}

/// What a resolved group walk leaves in row `g + j`: every term folded in,
/// over the old bytes or (when `overwrite`) over zero.
pub open spec fn group_result<S: Blocked, M: Matrix<S::Coeff> + ?Sized>(
    before: Seq<u8>,
    after: Seq<u8>,
    row_len: int,
    g: int,
    width: int,
    terms: &M,
    overwrite: bool,
) -> bool {
    &&& after.len() == before.len()
    &&& forall|j: int, k: int|
        0 <= j < width && 0 <= k < row_len ==> #[trigger] row_byte(after, row_len, g + j, k) == (
        if overwrite {
            0u8
        } else {
            row_byte(before, row_len, g + j, k)
        }) ^ term_sum::<S, M>(terms, g + j, k, terms.spec_len())
    &&& forall|p: int|
        0 <= p < before.len() && !(g * row_len <= p < (g + width) * row_len) ==> #[trigger] after[p]
            == before[p]
}

/// The resolved chunk loop over a `width`-row group: the 32-byte-lane prefix
/// of each row takes the terms `chunk` at a time in tiles of `lanes` lanes
/// (each product by the strategy's multiply, or by its nibble tables when
/// `by_table`), the first pass overwriting when `overwrite` and the later
/// ones accumulating; the sub-lane tail then takes every term by the
/// multiply, zero coefficients skipped.
pub fn rows_resolved_chunked<S: Blocked, M: Matrix<S::Coeff> + ?Sized>(
    rows: &mut [u8],
    row_len: usize,
    g: usize,
    width: usize,
    lanes: usize,
    terms: &M,
    chunk: usize,
    overwrite: bool,
    by_table: bool,
)
    requires
        g + width <= usize::MAX,
        (g + width) * row_len <= old(rows)@.len(),
        1 <= lanes <= 4,
        chunk > 0,
        group_terms_ok::<S, M>(terms, g as int, width as int, row_len as int),
    ensures
        group_result::<S, M>(old(rows)@, final(rows)@, row_len as int, g as int, width as int, terms, overwrite),
{
    let vlen = row_len - row_len % 32;
    let count = terms.len();
    let taken0 = if chunk < count {
        chunk
    } else {
        count
    };
    resolved_pass::<S, M>(
        rows,
        row_len,
        g,
        width,
        vlen,
        lanes,
        terms,
        0,
        taken0,
        overwrite,
        by_table,
    );
    let mut start = taken0;
    while start < count
        invariant
            chunk > 0,
            start <= count,
            count == terms.spec_len(),
            g + width <= usize::MAX,
            (g + width) * row_len <= old(rows)@.len(),
            vlen <= row_len,
            vlen % 32 == 0,
            1 <= lanes <= 4,
            group_terms_ok::<S, M>(terms, g as int, width as int, row_len as int),
            rows@.len() == old(rows)@.len(),
            forall|j: int, k: int|
                0 <= j < width && 0 <= k < vlen ==> #[trigger] row_byte(
                    rows@,
                    row_len as int,
                    g + j,
                    k,
                ) == (if overwrite {
                    0u8
                } else {
                    row_byte(old(rows)@, row_len as int, g + j, k)
                }) ^ range_sum::<S, M>(terms, g + j, k, 0, start as nat),
            forall|j: int, k: int|
                0 <= j < width && vlen <= k < row_len ==> #[trigger] row_byte(
                    rows@,
                    row_len as int,
                    g + j,
                    k,
                ) == row_byte(old(rows)@, row_len as int, g + j, k),
            forall|p: int|
                0 <= p < old(rows)@.len() && !(g * row_len <= p < (g + width) * row_len)
                    ==> #[trigger] rows@[p] == old(rows)@[p],
        decreases count - start,
    {
        let taken = if chunk < count - start {
            chunk
        } else {
            count - start
        };
        let ghost before = rows@;
        resolved_pass::<S, M>(
            rows,
            row_len,
            g,
            width,
            vlen,
            lanes,
            terms,
            start,
            taken,
            false,
            by_table,
        );
        assert forall|j: int, k: int| 0 <= j < width && 0 <= k < vlen implies #[trigger] row_byte(
            rows@,
            row_len as int,
            g + j,
            k,
        ) == (if overwrite {
            0u8
        } else {
            row_byte(old(rows)@, row_len as int, g + j, k)
        }) ^ range_sum::<S, M>(terms, g + j, k, 0, (start + taken) as nat) by {
            let a = if overwrite {
                0u8
            } else {
                row_byte(old(rows)@, row_len as int, g + j, k)
            };
            let y = range_sum::<S, M>(terms, g + j, k, 0, start as nat);
            let z = range_sum::<S, M>(terms, g + j, k, start as int, taken as nat);
            assert(row_byte(before, row_len as int, g + j, k) == a ^ y);
            lemma_range_split::<S, M>(terms, g + j, k, start as nat, taken as nat);
            lemma_xor_assoc(a, y, z);
        }
        start += taken;
    }
    let ghost mid = rows@;
    window_pass::<S, M>(
        rows,
        row_len,
        g,
        width,
        vlen,
        row_len - vlen,
        terms,
        0,
        count,
        overwrite,
        true,
        false,
    );
    assert forall|j: int, k: int| 0 <= j < width && 0 <= k < row_len implies #[trigger] row_byte(
        rows@,
        row_len as int,
        g + j,
        k,
    ) == (if overwrite {
        0u8
    } else {
        row_byte(old(rows)@, row_len as int, g + j, k)
    }) ^ term_sum::<S, M>(terms, g + j, k, terms.spec_len()) by {
        lemma_range_split::<S, M>(terms, g + j, k, count as nat, 0);
        if k < vlen {
            assert(row_byte(rows@, row_len as int, g + j, k) == row_byte(mid, row_len as int, g + j, k));
        } else {
            assert(row_byte(mid, row_len as int, g + j, k) == row_byte(old(rows)@, row_len as int, g + j, k));
        }
    }
}

} // verus!
