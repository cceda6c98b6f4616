//! Many sources into many rows over interleaved GF(2^16) elements:
//! `rows[j] ^= sum_t coeffs[t][j] * src[t]`.
//!
//! The `_with` forms read their terms through a [`Matrix`] provider and
//! cover, in every row, the whole elements of the shortest of the row
//! length and the source lengths.

use super::{TableCoefficient, axpy16, tower_byte};
use crate::field::gf16::Elem;
use crate::field::gf8::{lemma_xor_assoc, lemma_xor_zero};
use crate::kernel::Matrix;
use crate::kernel::x86::gf8::rows::{lemma_row_before, row_byte};
use archmage::{X64V2Token, X64V3GfniCryptoToken, X64V3Token};
use vstd::prelude::*;

verus! {

/// Byte `k` of `sum_{t < n} coeff(t, row) * source(t)`.
pub open spec fn msum16<C: TableCoefficient, M: Matrix<C> + ?Sized>(
    m: &M,
    row: int,
    k: int,
    n: nat,
) -> u8
    decreases n,
{
    if n == 0 {
        0u8
    } else {
        (msum16::<C, M>(m, row, k, (n - 1) as nat) ^ tower_byte(
            m.spec_coefficient(n - 1, row).value(),
            m.spec_source(n - 1),
            k,
        )) as u8
    }
}

/// The shortest of `row_len` and the first `n` source lengths.
pub open spec fn span16<C, M: Matrix<C> + ?Sized>(m: &M, row_len: int, n: nat) -> int
    decreases n,
{
    if n == 0 {
        row_len
    } else {
        let s = span16::<C, M>(m, row_len, (n - 1) as nat);
        let l = m.spec_source(n - 1).len() as int;
        if l < s {
            l
        } else {
            s
        }
    }
}

/// The bytes of every row a matrix pass covers: the whole elements of
/// the span.
pub open spec fn width16<C, M: Matrix<C> + ?Sized>(m: &M, row_len: int) -> int {
    let s = span16::<C, M>(m, row_len, m.spec_len());
    s - s % 2
}

/// Every term supplies a coefficient for each of the first `nrows` rows.
pub open spec fn coeffs_ok<C, M: Matrix<C> + ?Sized>(m: &M, nrows: int) -> bool {
    forall|t: int, r: int|
        0 <= t < m.spec_len() && 0 <= r < nrows ==> #[trigger] m.has_coefficient(t, r)
}

/// The rows after a matrix pass over the first `width` bytes of each row.
pub open spec fn matrix16_result<C: TableCoefficient, M: Matrix<C> + ?Sized>(
    before: Seq<u8>,
    after: Seq<u8>,
    row_len: int,
    nrows: int,
    terms: &M,
    width: int,
) -> bool {
    &&& after.len() == before.len()
    &&& forall|r: int, k: int|
        0 <= r < nrows && 0 <= k < width ==> #[trigger] row_byte(after, row_len, r, k) == row_byte(
            before,
            row_len,
            r,
            k,
        ) ^ msum16::<C, M>(terms, r, k, terms.spec_len())
    &&& forall|r: int, k: int|
        0 <= r < nrows && width <= k < row_len ==> #[trigger] row_byte(after, row_len, r, k)
            == row_byte(before, row_len, r, k)
    &&& forall|i: int| nrows * row_len <= i < before.len() ==> #[trigger] after[i] == before[i]
}

/// The span of the terms, computed.
fn span_of<C, M: Matrix<C> + ?Sized>(terms: &M, row_len: usize) -> (s: usize)
    ensures
        s == span16::<C, M>(terms, row_len as int, terms.spec_len()),
        s <= row_len,
        forall|t: int| 0 <= t < terms.spec_len() ==> s <= #[trigger] terms.spec_source(t).len(),
{
    let n = terms.len();
    let mut span = row_len;
    let mut t: usize = 0;
    while t < n
        invariant
            n == terms.spec_len(),
            t <= n,
            span == span16::<C, M>(terms, row_len as int, t as nat),
            span <= row_len,
            forall|u: int| 0 <= u < t ==> span <= #[trigger] terms.spec_source(u).len(),
        decreases n - t,
    {
        let l = terms.source(t).len();
        if l < span {
            span = l;
        }
        t += 1;
    }
    span
}

/// Fold every term into the first `width` bytes of one row.
fn fold_row16<C: TableCoefficient, M: Matrix<C> + ?Sized>(
    rows: &mut [u8],
    base: usize,
    row: usize,
    width: usize,
    terms: &M,
    by_table: bool,
)
    requires
        base + width <= old(rows)@.len(),
        width % 2 == 0,
        forall|t: int| 0 <= t < terms.spec_len() ==> width <= #[trigger] terms.spec_source(t).len(),
        forall|t: int| 0 <= t < terms.spec_len() ==> #[trigger] terms.has_coefficient(t, row as int),
    ensures
        final(rows)@.len() == old(rows)@.len(),
        forall|k: int|
            0 <= k < width ==> #[trigger] final(rows)@[base + k] == old(rows)@[base + k] ^ msum16::<
                C,
                M,
            >(terms, row as int, k, terms.spec_len()),
        forall|j: int|
            0 <= j < old(rows)@.len() && !(base <= j < base + width) ==> #[trigger] final(rows)@[j]
                == old(rows)@[j],
{
    let n = terms.len();
    let mut t: usize = 0;
    assert forall|k: int| 0 <= k < width implies #[trigger] rows@[base + k] == old(rows)@[base + k]
        ^ msum16::<C, M>(terms, row as int, k, 0) by {
        lemma_xor_zero(rows@[base + k]);
    }
    while t < n
        invariant
            n == terms.spec_len(),
            t <= n,
            base + width <= old(rows)@.len(),
            width % 2 == 0,
            rows@.len() == old(rows)@.len(),
            forall|u: int| 0 <= u < terms.spec_len() ==> width <= #[trigger] terms.spec_source(u).len(),
            forall|u: int| 0 <= u < terms.spec_len() ==> #[trigger] terms.has_coefficient(u, row as int),
            forall|k: int|
                0 <= k < width ==> #[trigger] rows@[base + k] == old(rows)@[base + k] ^ msum16::<
                    C,
                    M,
                >(terms, row as int, k, t as nat),
            forall|j: int|
                0 <= j < old(rows)@.len() && !(base <= j < base + width) ==> #[trigger] rows@[j]
                    == old(rows)@[j],
        decreases n - t,
    {
        assert(terms.has_coefficient(t as int, row as int));
        let coeff = terms.coefficient(t, row);
        let src = terms.source(t);
        assert(width <= terms.spec_source(t as int).len());
        let ghost prev = rows@;
        axpy16(rows, base, coeff, src, 0, width, by_table);
        assert forall|k: int| 0 <= k < width implies #[trigger] rows@[base + k] == old(rows)@[base
            + k] ^ msum16::<C, M>(terms, row as int, k, (t + 1) as nat) by {
            let z = tower_byte(coeff.value(), src@, k);
            assert(rows@[base + k] == prev[base + k] ^ tower_byte(coeff.value(), src@, 0 + k));
            lemma_xor_assoc(old(rows)@[base + k], msum16::<C, M>(terms, row as int, k, t as nat), z);
        }
        t += 1;
    }
}

/// The row walk: every row folded over the whole elements of the span.
pub(crate) fn matrix16<C: TableCoefficient, M: Matrix<C> + ?Sized>(
    rows: &mut [u8],
    row_len: usize,
    nrows: usize,
    terms: &M,
    by_table: bool,
)
    requires
        nrows * row_len <= old(rows)@.len(),
        coeffs_ok::<C, M>(terms, nrows as int),
    ensures
        matrix16_result::<C, M>(
            old(rows)@,
            final(rows)@,
            row_len as int,
            nrows as int,
            terms,
            width16::<C, M>(terms, row_len as int),
        ),
{
    let span = span_of::<C, M>(terms, row_len);
    let width = span - span % 2;
    let total = rows.len();
    let mut r: usize = 0;
    let mut base: usize = 0;
    while r < nrows
        invariant
            total == old(rows)@.len(),
            r <= nrows,
            base == r * row_len,
            nrows * row_len <= old(rows)@.len(),
            rows@.len() == old(rows)@.len(),
            width == width16::<C, M>(terms, row_len as int),
            width <= row_len,
            width % 2 == 0,
            forall|t: int| 0 <= t < terms.spec_len() ==> width <= #[trigger] terms.spec_source(t).len(),
            coeffs_ok::<C, M>(terms, nrows as int),
            forall|r2: int, k: int|
                0 <= r2 < r && 0 <= k < width ==> #[trigger] row_byte(rows@, row_len as int, r2, k)
                    == row_byte(old(rows)@, row_len as int, r2, k) ^ msum16::<C, M>(
                    terms,
                    r2,
                    k,
                    terms.spec_len(),
                ),
            forall|r2: int, k: int|
                0 <= r2 < r && width <= k < row_len ==> #[trigger] row_byte(
                    rows@,
                    row_len as int,
                    r2,
                    k,
                ) == row_byte(old(rows)@, row_len as int, r2, k),
            forall|j: int| base <= j < old(rows)@.len() ==> #[trigger] rows@[j] == old(rows)@[j],
        decreases nrows - r,
    {
        assert(base + row_len <= nrows * row_len) by (nonlinear_arith)
            requires
                base == r * row_len,
                r < nrows,
        ;
        assert forall|t: int| 0 <= t < terms.spec_len() implies #[trigger] terms.has_coefficient(
            t,
            r as int,
        ) by {
            assert(coeffs_ok::<C, M>(terms, nrows as int));
        }
        let ghost before = rows@;
        fold_row16::<C, M>(rows, base, r, width, terms, by_table);
        assert forall|r2: int, k: int| 0 <= r2 < r + 1 && 0 <= k < width implies #[trigger] row_byte(
            rows@,
            row_len as int,
            r2,
            k,
        ) == row_byte(old(rows)@, row_len as int, r2, k) ^ msum16::<C, M>(
            terms,
            r2,
            k,
            terms.spec_len(),
        ) by {
            if r2 < r {
                lemma_row_before(r2, r as int, row_len as int, k);
                let j = r2 * row_len + k;
                assert(rows@[j] == before[j]);
                assert(row_byte(before, row_len as int, r2, k) == before[j]);
            } else {
                assert(r2 == r);
                assert(row_byte(rows@, row_len as int, r2, k) == rows@[base + k]);
            }
        }
        assert forall|r2: int, k: int| 0 <= r2 < r + 1 && width <= k < row_len implies #[trigger] row_byte(
            rows@,
            row_len as int,
            r2,
            k,
        ) == row_byte(old(rows)@, row_len as int, r2, k) by {
            if r2 < r {
                lemma_row_before(r2, r as int, row_len as int, k);
                let j = r2 * row_len + k;
                assert(rows@[j] == before[j]);
                assert(row_byte(before, row_len as int, r2, k) == before[j]);
            } else {
                assert(r2 == r);
                assert(row_byte(rows@, row_len as int, r2, k) == rows@[base + k]);
                assert(rows@[base + k] == before[base + k]);
            }
        }
        assert(base + row_len == (r + 1) * row_len) by (nonlinear_arith)
            requires
                base == r * row_len,
        ;
        r += 1;
        base += row_len;
    }
}

/// Every `(coeffs, src)` term holds `nrows` coefficients and a `row_len`-byte
/// source.
pub open spec fn slice_terms16_ok(terms: &[(&[Elem], &[u8])], nrows: int, row_len: int) -> bool {
    forall|t: int|
        0 <= t < terms@.len() ==> #[trigger] terms@[t].0@.len() == nrows && terms@[t].1@.len()
            == row_len
}

/// With every source `row_len` bytes long, the span is the whole row.
proof fn lemma_full_span(terms: &[(&[Elem], &[u8])], nrows: int, row_len: int, n: nat)
    requires
        slice_terms16_ok(terms, nrows, row_len),
        n <= terms@.len(),
    ensures
        span16::<Elem, [(&[Elem], &[u8])]>(terms, row_len, n) == row_len,
    decreases n,
{
    if n > 0 {
        lemma_full_span(terms, nrows, row_len, (n - 1) as nat);
        assert(terms@[n - 1].0@.len() == nrows);
    }
}

/// The slice shape check gives every row its coefficients.
proof fn lemma_slice_coeffs(terms: &[(&[Elem], &[u8])], nrows: int, row_len: int)
    requires
        slice_terms16_ok(terms, nrows, row_len),
    ensures
        coeffs_ok::<Elem, [(&[Elem], &[u8])]>(terms, nrows),
{
    assert forall|t: int, r: int| 0 <= t < terms.spec_len() && 0 <= r < nrows implies #[trigger] terms.has_coefficient(
        t,
        r,
    ) by {
        assert(terms@[t].0@.len() == nrows);
    }
}

/// The `_with` entries' early exit: nothing to fold leaves the rows as
/// they are.
pub open spec fn matrix16_empty(row_len: int, nrows: int, nterms: int) -> bool {
    row_len == 0 || nrows == 0 || nterms == 0
}

/// A matrix pass with nothing to fold satisfies the result relation with
/// the rows unchanged.
proof fn lemma_empty_pass<C: TableCoefficient, M: Matrix<C> + ?Sized>(
    rows: Seq<u8>,
    row_len: int,
    nrows: int,
    terms: &M,
)
    requires
        matrix16_empty(row_len, nrows, terms.spec_len() as int),
        row_len % 2 == 0,
        0 <= row_len,
        0 <= nrows,
    ensures
        matrix16_result::<C, M>(rows, rows, row_len, nrows, terms, width16::<C, M>(terms, row_len)),
{
    assert forall|r: int, k: int|
        0 <= r < nrows && 0 <= k < width16::<C, M>(terms, row_len) implies #[trigger] row_byte(
        rows,
        row_len,
        r,
        k,
    ) == row_byte(rows, row_len, r, k) ^ msum16::<C, M>(terms, r, k, terms.spec_len()) by {
        if terms.spec_len() == 0 {
            lemma_xor_zero(row_byte(rows, row_len, r, k));
        } else if row_len == 0 {
            lemma_span_below(terms, row_len, terms.spec_len());
        }
    }
}

/// The span never exceeds the row.
proof fn lemma_span_below<C, M: Matrix<C> + ?Sized>(m: &M, row_len: int, n: nat)
    ensures
        span16::<C, M>(m, row_len, n) <= row_len,
        0 <= row_len ==> 0 <= span16::<C, M>(m, row_len, n),
    decreases n,
{
    if n > 0 {
        lemma_span_below::<C, M>(m, row_len, (n - 1) as nat);
    }
}

/// The slice entries' pass: every source `row_len` bytes, so every row is
/// covered whole.
pub(crate) fn mul_add_matrix_whole(
    rows: &mut [u8],
    row_len: usize,
    nrows: usize,
    terms: &[(&[Elem], &[u8])],
    by_table: bool,
)
    requires
        row_len % 2 == 0,
        nrows * row_len <= old(rows)@.len(),
        slice_terms16_ok(terms, nrows as int, row_len as int),
    ensures
        matrix16_result::<Elem, [(&[Elem], &[u8])]>(
            old(rows)@,
            final(rows)@,
            row_len as int,
            nrows as int,
            terms,
            row_len as int,
        ),
{
    proof {
        lemma_full_span(terms, nrows as int, row_len as int, terms@.len());
        lemma_slice_coeffs(terms, nrows as int, row_len as int);
    }
    matrix16::<Elem, [(&[Elem], &[u8])]>(rows, row_len, nrows, terms, by_table);
}

/// Apply every `(coeffs, src)` term to all `nrows` rows, with `GF2P8MULB`.
pub fn mul_add_matrix_gfni(
    _token: X64V3GfniCryptoToken,
    rows: &mut [u8],
    row_len: usize,
    nrows: usize,
    terms: &[(&[Elem], &[u8])],
)
    requires
        row_len % 2 == 0,
        nrows * row_len <= old(rows)@.len(),
        slice_terms16_ok(terms, nrows as int, row_len as int),
    ensures
        matrix16_result::<Elem, [(&[Elem], &[u8])]>(
            old(rows)@,
            final(rows)@,
            row_len as int,
            nrows as int,
            terms,
            row_len as int,
        ),
{
    mul_add_matrix_whole(rows, row_len, nrows, terms, false);
}

/// Many sources into many rows, GFNI backend, over a generic matrix source.
pub fn mul_add_matrix_gfni_with<M: Matrix<Elem> + ?Sized>(
    _token: X64V3GfniCryptoToken,
    rows: &mut [u8],
    row_len: usize,
    nrows: usize,
    terms: &M,
)
    requires
        row_len % 2 == 0,
        matrix16_empty(row_len as int, nrows as int, terms.spec_len() as int) || nrows * row_len
            <= old(rows)@.len(),
        coeffs_ok::<Elem, M>(terms, nrows as int),
    ensures
        matrix16_result::<Elem, M>(
            old(rows)@,
            final(rows)@,
            row_len as int,
            nrows as int,
            terms,
            width16::<Elem, M>(terms, row_len as int),
        ),
{
    if row_len == 0 || nrows == 0 || terms.len() == 0 {
        proof {
            lemma_empty_pass::<Elem, M>(rows@, row_len as int, nrows as int, terms);
        }
        return;
    }
    matrix16::<Elem, M>(rows, row_len, nrows, terms, false);
}

/// Many sources into many rows using AVX2 nibble tables.
pub fn mul_add_matrix_avx2(
    _token: X64V3Token,
    rows: &mut [u8],
    row_len: usize,
    nrows: usize,
    terms: &[(&[Elem], &[u8])],
)
    requires
        row_len % 2 == 0,
        nrows * row_len <= old(rows)@.len(),
        slice_terms16_ok(terms, nrows as int, row_len as int),
    ensures
        matrix16_result::<Elem, [(&[Elem], &[u8])]>(
            old(rows)@,
            final(rows)@,
            row_len as int,
            nrows as int,
            terms,
            row_len as int,
        ),
{
    mul_add_matrix_whole(rows, row_len, nrows, terms, true);
}

/// [`mul_add_matrix_avx2`] over a generic matrix source.
pub fn mul_add_matrix_avx2_with<C: TableCoefficient, M: Matrix<C> + ?Sized>(
    _token: X64V3Token,
    rows: &mut [u8],
    row_len: usize,
    nrows: usize,
    terms: &M,
)
    requires
        row_len % 2 == 0,
        matrix16_empty(row_len as int, nrows as int, terms.spec_len() as int) || nrows * row_len
            <= old(rows)@.len(),
        coeffs_ok::<C, M>(terms, nrows as int),
    ensures
        matrix16_result::<C, M>(
            old(rows)@,
            final(rows)@,
            row_len as int,
            nrows as int,
            terms,
            width16::<C, M>(terms, row_len as int),
        ),
{
    if row_len == 0 || nrows == 0 || terms.len() == 0 {
        proof {
            lemma_empty_pass::<C, M>(rows@, row_len as int, nrows as int, terms);
        }
        return;
    }
    matrix16::<C, M>(rows, row_len, nrows, terms, true);
}

/// Many sources into many rows using SSSE3 nibble tables.
pub fn mul_add_matrix_ssse3(
    _token: X64V2Token,
    rows: &mut [u8],
    row_len: usize,
    nrows: usize,
    terms: &[(&[Elem], &[u8])],
)
    requires
        row_len % 2 == 0,
        nrows * row_len <= old(rows)@.len(),
        slice_terms16_ok(terms, nrows as int, row_len as int),
    ensures
        matrix16_result::<Elem, [(&[Elem], &[u8])]>(
            old(rows)@,
            final(rows)@,
            row_len as int,
            nrows as int,
            terms,
            row_len as int,
        ),
{
    mul_add_matrix_whole(rows, row_len, nrows, terms, true);
}

/// [`mul_add_matrix_ssse3`] over a generic matrix source.
pub fn mul_add_matrix_ssse3_with<C: TableCoefficient, M: Matrix<C> + ?Sized>(
    _token: X64V2Token,
    rows: &mut [u8],
    row_len: usize,
    nrows: usize,
    terms: &M,
)
    requires
        row_len % 2 == 0,
        matrix16_empty(row_len as int, nrows as int, terms.spec_len() as int) || nrows * row_len
            <= old(rows)@.len(),
        coeffs_ok::<C, M>(terms, nrows as int),
    ensures
        matrix16_result::<C, M>(
            old(rows)@,
            final(rows)@,
            row_len as int,
            nrows as int,
            terms,
            width16::<C, M>(terms, row_len as int),
        ),
{
    if row_len == 0 || nrows == 0 || terms.len() == 0 {
        proof {
            lemma_empty_pass::<C, M>(rows@, row_len as int, nrows as int, terms);
        }
        return;
    }
    matrix16::<C, M>(rows, row_len, nrows, terms, true);
}

} // verus!
