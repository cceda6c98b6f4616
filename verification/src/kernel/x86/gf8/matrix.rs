//! Many sources into many rows: the production matrix kernels.
//!
//! Every destination row `j` receives `sum_t coeff(t, j) * source(t)`. The
//! contiguous entries lay the rows out `row_len` apart from the start of one
//! buffer; the `_at` entries place each row at its own disjoint offset. The
//! `_with` forms read their terms through a [`Matrix`] provider, whose
//! per-term coefficient counts are its own contract.

use super::rows::{mul_add_matrix_impl, row_byte, term_ok, term_sum, terms_ok, row_terms_ok, fold_row};
use super::{Affine8D, Affine8DPrepared, Blocked, Gfni};
use crate::field::gf8b::Elem;
use crate::field::gf8d;
use crate::kernel::Matrix;
use crate::tables::Prepared8D;
use archmage::X64V3GfniCryptoToken;
use vstd::prelude::*;

verus! {

/// Prepared coefficients stored term-major (`term * nrows + row`) beside
/// the source buffer of each term.
pub struct PreparedMatrix<'a> {
    /// Prepared coefficients, `terms * nrows` entries.
    pub prepared: &'a [Prepared8D],
    /// Destination row count.
    pub nrows: usize,
    /// Source buffer of each term.
    pub sources: &'a [&'a [u8]],
}

impl<'a> Matrix<Prepared8D> for PreparedMatrix<'a> {
    open spec fn spec_len(&self) -> nat {
        self.sources@.len()
    }

    open spec fn spec_coefficient(&self, term: int, row: int) -> Prepared8D {
        self.prepared@[term * self.nrows + row]
    }

    open spec fn spec_source(&self, term: int) -> Seq<u8> {
        self.sources@[term]@
    }

    open spec fn has_coefficient(&self, term: int, row: int) -> bool {
        &&& 0 <= term
        &&& 0 <= row < self.nrows
        &&& term * self.nrows + row < self.prepared@.len()
    }

    fn len(&self) -> (r: usize) {
        self.sources.len()
    }

    fn coefficient(&self, term: usize, row: usize) -> (r: &Prepared8D) {
        let total = self.prepared.len();
        assert(term * self.nrows + row < total);
        let at = term * self.nrows;
        &self.prepared[at + row]
    }

    fn source(&self, term: usize) -> (r: &[u8]) {
        self.sources[term]
    }
}

/// Every `(coeffs, src)` term holds `nrows` coefficients and a `row_len`-byte
/// source.
pub open spec fn slice_terms_ok<E>(terms: &[(&[E], &[u8])], nrows: int, row_len: int) -> bool {
    forall|t: int|
        0 <= t < terms@.len() ==> #[trigger] terms@[t].0@.len() == nrows && terms@[t].1@.len()
            == row_len
}

/// A slice of terms that passes the shape check is usable for every row.
pub proof fn lemma_slice_terms<S: Blocked>(
    terms: &[(&[S::Coeff], &[u8])],
    nrows: int,
    row_len: int,
)
    requires
        slice_terms_ok(terms, nrows, row_len),
        forall|c: S::Coeff| S::prepared(c),
    ensures
        terms_ok::<S, [(&[S::Coeff], &[u8])]>(terms, nrows, row_len),
{
    assert forall|t: int, r: int| 0 <= t < terms.spec_len() && 0 <= r < nrows implies #[trigger] term_ok::<
        S,
        [(&[S::Coeff], &[u8])],
    >(terms, t, r, row_len) by {
        assert(terms@[t].0@.len() == nrows);
    }
}

/// The rows of a contiguous block after a matrix pass: row `r`, byte `k`
/// of `after` is `seed ^ sum_t coeff(t, r) * source(t)[k]`, where the seed
/// is the old byte (accumulate) or zero (overwrite); bytes past the block
/// are unchanged.
pub open spec fn matrix_result<S: Blocked, M: Matrix<S::Coeff> + ?Sized>(
    before: Seq<u8>,
    after: Seq<u8>,
    row_len: int,
    nrows: int,
    terms: &M,
    overwrite: bool,
) -> bool {
    &&& after.len() == before.len()
    &&& forall|r: int, k: int|
        0 <= r < nrows && 0 <= k < row_len ==> #[trigger] row_byte(after, row_len, r, k) == (if overwrite {
            0u8
        } else {
            row_byte(before, row_len, r, k)
        }) ^ term_sum::<S, M>(terms, r, k, terms.spec_len())
    &&& forall|j: int| nrows * row_len <= j < before.len() ==> #[trigger] after[j] == before[j]
}

/// For each `(coeffs, src)` term and each row `j < nrows`,
/// `rows[j] ^= coeffs[j] * src` under `0x11B`.
///
/// The term loop does not skip zero coefficients: that predicate belongs
/// to the scatter shape, which drops zero rows before grouping.
pub fn mul_add_matrix_gfni(
    _token: X64V3GfniCryptoToken,
    rows: &mut [u8],
    row_len: usize,
    nrows: usize,
    terms: &[(&[Elem], &[u8])],
)
    requires
        nrows * row_len <= old(rows)@.len(),
        slice_terms_ok(terms, nrows as int, row_len as int),
    ensures
        matrix_result::<Gfni, [(&[Elem], &[u8])]>(
            old(rows)@,
            final(rows)@,
            row_len as int,
            nrows as int,
            terms,
            false,
        ),
{
    proof {
        lemma_slice_terms::<Gfni>(terms, nrows as int, row_len as int);
    }
    mul_add_matrix_gfni_with(_token, rows, row_len, nrows, terms);
}

/// [`mul_add_matrix_gfni`] over a generic matrix source.
pub fn mul_add_matrix_gfni_with<M: Matrix<Elem> + ?Sized>(
    _token: X64V3GfniCryptoToken,
    rows: &mut [u8],
    row_len: usize,
    nrows: usize,
    terms: &M,
)
    requires
        nrows * row_len <= old(rows)@.len(),
        terms_ok::<Gfni, M>(terms, nrows as int, row_len as int),
    ensures
        matrix_result::<Gfni, M>(old(rows)@, final(rows)@, row_len as int, nrows as int, terms, false),
{
    mul_add_matrix_impl::<Gfni, M>(rows, row_len, nrows, terms, false, false);
}

/// [`mul_add_matrix_gfni`] under `0x11D`, folding every term in with its
/// affine map.
pub fn mul_add_matrix_affine(
    _token: X64V3GfniCryptoToken,
    rows: &mut [u8],
    row_len: usize,
    nrows: usize,
    terms: &[(&[gf8d::Elem], &[u8])],
)
    requires
        nrows * row_len <= old(rows)@.len(),
        slice_terms_ok(terms, nrows as int, row_len as int),
    ensures
        matrix_result::<Affine8D, [(&[gf8d::Elem], &[u8])]>(
            old(rows)@,
            final(rows)@,
            row_len as int,
            nrows as int,
            terms,
            false,
        ),
{
    proof {
        lemma_slice_terms::<Affine8D>(terms, nrows as int, row_len as int);
    }
    mul_add_matrix_affine_with(_token, rows, row_len, nrows, terms);
}

/// [`mul_add_matrix_affine`] over a generic matrix source.
pub fn mul_add_matrix_affine_with<M: Matrix<gf8d::Elem> + ?Sized>(
    _token: X64V3GfniCryptoToken,
    rows: &mut [u8],
    row_len: usize,
    nrows: usize,
    terms: &M,
)
    requires
        nrows * row_len <= old(rows)@.len(),
        terms_ok::<Affine8D, M>(terms, nrows as int, row_len as int),
    ensures
        matrix_result::<Affine8D, M>(
            old(rows)@,
            final(rows)@,
            row_len as int,
            nrows as int,
            terms,
            false,
        ),
{
    mul_add_matrix_impl::<Affine8D, M>(rows, row_len, nrows, terms, false, false);
}

/// [`mul_add_matrix_gfni`] with overwrite semantics:
/// `rows[j] = sum_t coeffs[t][j] * src[t]`; an empty term list writes the
/// zero sum.
pub fn mul_into_matrix_gfni(
    _token: X64V3GfniCryptoToken,
    rows: &mut [u8],
    row_len: usize,
    nrows: usize,
    terms: &[(&[Elem], &[u8])],
)
    requires
        nrows * row_len <= old(rows)@.len(),
        slice_terms_ok(terms, nrows as int, row_len as int),
    ensures
        matrix_result::<Gfni, [(&[Elem], &[u8])]>(
            old(rows)@,
            final(rows)@,
            row_len as int,
            nrows as int,
            terms,
            true,
        ),
{
    proof {
        lemma_slice_terms::<Gfni>(terms, nrows as int, row_len as int);
    }
    mul_into_matrix_gfni_with(_token, rows, row_len, nrows, terms);
}

/// [`mul_into_matrix_gfni`] over a generic matrix source.
pub fn mul_into_matrix_gfni_with<M: Matrix<Elem> + ?Sized>(
    _token: X64V3GfniCryptoToken,
    rows: &mut [u8],
    row_len: usize,
    nrows: usize,
    terms: &M,
)
    requires
        nrows * row_len <= old(rows)@.len(),
        terms_ok::<Gfni, M>(terms, nrows as int, row_len as int),
    ensures
        matrix_result::<Gfni, M>(old(rows)@, final(rows)@, row_len as int, nrows as int, terms, true),
{
    mul_add_matrix_impl::<Gfni, M>(rows, row_len, nrows, terms, true, false);
}

/// [`mul_add_matrix_affine`] with overwrite semantics under `0x11D`.
pub fn mul_into_matrix_affine(
    _token: X64V3GfniCryptoToken,
    rows: &mut [u8],
    row_len: usize,
    nrows: usize,
    terms: &[(&[gf8d::Elem], &[u8])],
)
    requires
        nrows * row_len <= old(rows)@.len(),
        slice_terms_ok(terms, nrows as int, row_len as int),
    ensures
        matrix_result::<Affine8D, [(&[gf8d::Elem], &[u8])]>(
            old(rows)@,
            final(rows)@,
            row_len as int,
            nrows as int,
            terms,
            true,
        ),
{
    proof {
        lemma_slice_terms::<Affine8D>(terms, nrows as int, row_len as int);
    }
    mul_into_matrix_affine_with(_token, rows, row_len, nrows, terms);
}

/// [`mul_into_matrix_affine`] over a generic matrix source.
pub fn mul_into_matrix_affine_with<M: Matrix<gf8d::Elem> + ?Sized>(
    _token: X64V3GfniCryptoToken,
    rows: &mut [u8],
    row_len: usize,
    nrows: usize,
    terms: &M,
)
    requires
        nrows * row_len <= old(rows)@.len(),
        terms_ok::<Affine8D, M>(terms, nrows as int, row_len as int),
    ensures
        matrix_result::<Affine8D, M>(
            old(rows)@,
            final(rows)@,
            row_len as int,
            nrows as int,
            terms,
            true,
        ),
{
    mul_add_matrix_impl::<Affine8D, M>(rows, row_len, nrows, terms, true, false);
}

/// The shape the prepared entries check: one prepared, well-formed
/// coefficient per `(term, row)` and a `row_len`-byte source per term.
pub open spec fn prepared_ok(
    prepared: &[Prepared8D],
    nrows: int,
    srcs: &[&[u8]],
    row_len: int,
) -> bool {
    &&& prepared@.len() == nrows * srcs@.len()
    &&& forall|i: int| 0 <= i < prepared@.len() ==> (#[trigger] prepared@[i]).wf()
    &&& forall|t: int| 0 <= t < srcs@.len() ==> (#[trigger] srcs@[t])@.len() == row_len
}

/// A prepared coefficient block that passes the shape check is usable for
/// every row.
proof fn lemma_prepared_terms(terms: &PreparedMatrix, row_len: int)
    requires
        prepared_ok(terms.prepared, terms.nrows as int, terms.sources, row_len),
    ensures
        terms_ok::<Affine8DPrepared, PreparedMatrix>(terms, terms.nrows as int, row_len),
{
    let n = terms.nrows as int;
    assert forall|t: int, r: int| 0 <= t < terms.spec_len() && 0 <= r < n implies #[trigger] term_ok::<
        Affine8DPrepared,
        PreparedMatrix,
    >(terms, t, r, row_len) by {
        assert(t * n + r < (t + 1) * n) by (nonlinear_arith)
            requires
                r < n,
        ;
        assert((t + 1) * n <= terms.spec_len() * n) by (nonlinear_arith)
            requires
                t + 1 <= terms.spec_len(),
                0 <= n,
        ;
        assert(0 <= t * n) by (nonlinear_arith)
            requires
                0 <= t,
                0 <= n,
        ;
        assert(terms.prepared@[t * n + r].wf());
        assert(terms.sources@[t]@.len() == row_len);
    }
}

/// Byte `k` of `sum_{t < n} prepared[t * nrows + row] * srcs[t]` under
/// `0x11D`, read straight from the term-major prepared slice.
pub open spec fn prepared_sum(
    prepared: Seq<Prepared8D>,
    nrows: int,
    srcs: Seq<&[u8]>,
    row: int,
    k: int,
    n: nat,
) -> u8
    decreases n,
{
    if n == 0 {
        0u8
    } else {
        (prepared_sum(prepared, nrows, srcs, row, k, (n - 1) as nat) ^ gf8d::mul(
            prepared[(n - 1) * nrows + row].table.coeff.0,
            srcs[n - 1]@[k],
        )) as u8
    }
}

/// A prepared block folds term `t`'s entry for row `j` from position
/// `t * nrows + j` of the slice: the matrix sum over a [`PreparedMatrix`]
/// is the sum over the slice it was built from.
pub proof fn law_prepared_matrix_sum(
    prepared: &[Prepared8D],
    nrows: usize,
    srcs: &[&[u8]],
    row: int,
    k: int,
    n: nat,
)
    requires
        n <= srcs@.len(),
    ensures
        term_sum::<Affine8DPrepared, PreparedMatrix>(
            &PreparedMatrix { prepared, nrows, sources: srcs },
            row,
            k,
            n,
        ) == prepared_sum(prepared@, nrows as int, srcs@, row, k, n),
    decreases n,
{
    if n > 0 {
        law_prepared_matrix_sum(prepared, nrows, srcs, row, k, (n - 1) as nat);
    }
}

/// The rows a prepared matrix pass leaves, stated over the slices: byte `k`
/// of row `j` is the old byte (or zero, when `overwrite`) plus
/// `sum_t prepared[t * nrows + j] * srcs[t][k]`.
pub open spec fn prepared_rows(
    before: Seq<u8>,
    after: Seq<u8>,
    row_len: int,
    nrows: int,
    prepared: Seq<Prepared8D>,
    srcs: Seq<&[u8]>,
    overwrite: bool,
) -> bool {
    forall|r: int, k: int|
        0 <= r < nrows && 0 <= k < row_len ==> #[trigger] row_byte(after, row_len, r, k) == (if overwrite {
            0u8
        } else {
            row_byte(before, row_len, r, k)
        }) ^ prepared_sum(prepared, nrows, srcs, r, k, srcs.len())
}

/// [`mul_add_matrix_affine_with`] over already-prepared coefficients:
/// `rows[j] ^= sum_t prepared[t * nrows + j] * srcs[t]`, the affine map read
/// from each prepared coefficient instead of recomputed.
pub fn mul_add_matrix_affine_prepared_with(
    _token: X64V3GfniCryptoToken,
    rows: &mut [u8],
    row_len: usize,
    nrows: usize,
    prepared: &[Prepared8D],
    srcs: &[&[u8]],
)
    requires
        nrows * row_len <= old(rows)@.len(),
        prepared_ok(prepared, nrows as int, srcs, row_len as int),
    ensures
        matrix_result::<Affine8DPrepared, PreparedMatrix>(
            old(rows)@,
            final(rows)@,
            row_len as int,
            nrows as int,
            &PreparedMatrix { prepared, nrows, sources: srcs },
            false,
        ),
        prepared_rows(
            old(rows)@,
            final(rows)@,
            row_len as int,
            nrows as int,
            prepared@,
            srcs@,
            false,
        ),
{
    let terms = PreparedMatrix { prepared, nrows, sources: srcs };
    proof {
        lemma_prepared_terms(&terms, row_len as int);
        assert forall|r: int, k: int| 0 <= r < nrows && 0 <= k < row_len implies
            term_sum::<Affine8DPrepared, PreparedMatrix>(&terms, r, k, terms.spec_len())
            == prepared_sum(prepared@, nrows as int, srcs@, r, k, srcs@.len()) by {
            law_prepared_matrix_sum(prepared, nrows, srcs, r, k, srcs@.len() as nat);
        }
    }
    mul_add_matrix_impl::<Affine8DPrepared, PreparedMatrix>(rows, row_len, nrows, &terms, false, false);
}

/// [`mul_add_matrix_affine_prepared_with`] with overwrite semantics: the
/// erasure-encode shape over prepared coefficients.
pub fn mul_into_matrix_affine_prepared_with(
    _token: X64V3GfniCryptoToken,
    rows: &mut [u8],
    row_len: usize,
    nrows: usize,
    prepared: &[Prepared8D],
    srcs: &[&[u8]],
)
    requires
        nrows * row_len <= old(rows)@.len(),
        prepared_ok(prepared, nrows as int, srcs, row_len as int),
    ensures
        matrix_result::<Affine8DPrepared, PreparedMatrix>(
            old(rows)@,
            final(rows)@,
            row_len as int,
            nrows as int,
            &PreparedMatrix { prepared, nrows, sources: srcs },
            true,
        ),
        prepared_rows(
            old(rows)@,
            final(rows)@,
            row_len as int,
            nrows as int,
            prepared@,
            srcs@,
            true,
        ),
{
    let terms = PreparedMatrix { prepared, nrows, sources: srcs };
    proof {
        lemma_prepared_terms(&terms, row_len as int);
        assert forall|r: int, k: int| 0 <= r < nrows && 0 <= k < row_len implies
            term_sum::<Affine8DPrepared, PreparedMatrix>(&terms, r, k, terms.spec_len())
            == prepared_sum(prepared@, nrows as int, srcs@, r, k, srcs@.len()) by {
            law_prepared_matrix_sum(prepared, nrows, srcs, r, k, srcs@.len() as nat);
        }
    }
    mul_add_matrix_impl::<Affine8DPrepared, PreparedMatrix>(rows, row_len, nrows, &terms, true, false);
}

/// Rows of `row_len` bytes starting at `x` and at `y` do not overlap.
pub open spec fn rows_apart(x: int, y: int, row_len: int) -> bool {
    x + row_len <= y || y + row_len <= x
}

/// Scattered-row geometry: every row lies inside a `dst_len`-byte buffer and
/// every two rows are disjoint.
pub open spec fn scattered_ok(dst_len: int, row_len: int, starts: Seq<usize>) -> bool {
    &&& forall|j: int| 0 <= j < starts.len() ==> #[trigger] starts[j] + row_len <= dst_len
    &&& forall|a: int, b: int|
        0 <= a < b < starts.len() ==> rows_apart(
            #[trigger] starts[a] as int,
            #[trigger] starts[b] as int,
            row_len,
        )
}

/// The scattered-row geometry the `_at` entries demand: every
/// `row_starts[j] + row_len <= dst_len` and the rows pairwise disjoint.
/// Rows that break it are no input of the `_at` entries.
pub fn check_scattered(name: &str, dst_len: usize, row_len: usize, row_starts: &[usize])
    requires
        scattered_ok(dst_len as int, row_len as int, row_starts@),
{
}

/// The destination after a scattered-row pass: byte `k` of row `j` (at
/// `starts[j] + k`) is the old byte plus `sum_t coeff(t, j) * source(t)[k]`;
/// bytes outside every row are unchanged.
pub open spec fn at_result<S: Blocked, M: Matrix<S::Coeff> + ?Sized>(
    before: Seq<u8>,
    after: Seq<u8>,
    row_len: int,
    starts: Seq<usize>,
    terms: &M,
) -> bool {
    &&& after.len() == before.len()
    &&& forall|j: int, k: int|
        0 <= j < starts.len() && 0 <= k < row_len ==> #[trigger] after[starts[j] + k] == before[starts[j]
            + k] ^ term_sum::<S, M>(terms, j, k, terms.spec_len())
    &&& forall|i: int|
        0 <= i < before.len() && (forall|j: int|
            0 <= j < starts.len() ==> !(#[trigger] starts[j] <= i < starts[j] + row_len))
            ==> #[trigger] after[i] == before[i]
}

/// Scattered row walk: each row folded in place at its own offset.
fn mul_add_matrix_at_impl<S: Blocked, M: Matrix<S::Coeff> + ?Sized>(
    dst: &mut [u8],
    row_len: usize,
    row_starts: &[usize],
    terms: &M,
)
    requires
        scattered_ok(old(dst)@.len() as int, row_len as int, row_starts@),
        terms_ok::<S, M>(terms, row_starts@.len() as int, row_len as int),
    ensures
        at_result::<S, M>(old(dst)@, final(dst)@, row_len as int, row_starts@, terms),
{
    let nrows = row_starts.len();
    let mut g: usize = 0;
    while g < nrows
        invariant
            nrows == row_starts@.len(),
            g <= nrows,
            dst@.len() == old(dst)@.len(),
            scattered_ok(old(dst)@.len() as int, row_len as int, row_starts@),
            terms_ok::<S, M>(terms, nrows as int, row_len as int),
            forall|j: int, k: int|
                0 <= j < g && 0 <= k < row_len ==> #[trigger] dst@[row_starts@[j] + k]
                    == old(dst)@[row_starts@[j] + k] ^ term_sum::<S, M>(
                    terms,
                    j,
                    k,
                    terms.spec_len(),
                ),
            forall|i: int|
                0 <= i < old(dst)@.len() && (forall|j: int|
                    0 <= j < g ==> !(#[trigger] row_starts@[j] <= i < row_starts@[j] + row_len))
                    ==> #[trigger] dst@[i] == old(dst)@[i],
        decreases nrows - g,
    {
        let start = row_starts[g];
        assert(row_terms_ok::<S, M>(terms, g as int, row_len as int)) by {
            assert forall|t: int| 0 <= t < terms.spec_len() implies #[trigger] term_ok::<S, M>(
                terms,
                t,
                g as int,
                row_len as int,
            ) by {}
        }
        let ghost before = dst@;
        fold_row::<S, M>(dst, start, g, row_len, terms, false);
        assert forall|j: int, k: int| 0 <= j < g + 1 && 0 <= k < row_len implies #[trigger] dst@[row_starts@[j]
            + k] == old(dst)@[row_starts@[j] + k] ^ term_sum::<S, M>(
            terms,
            j,
            k,
            terms.spec_len(),
        ) by {
            if j < g {
                assert(rows_apart(row_starts@[j] as int, row_starts@[g as int] as int, row_len as int));
                assert(dst@[row_starts@[j] + k] == before[row_starts@[j] + k]);
            } else {
                let i = start + k;
                assert forall|j2: int| 0 <= j2 < g implies !(#[trigger] row_starts@[j2] <= i
                    < row_starts@[j2] + row_len) by {
                    assert(rows_apart(row_starts@[j2] as int, row_starts@[g as int] as int, row_len as int));
                }
                assert(before[i] == old(dst)@[i]);
            }
        }
        assert forall|i: int|
            0 <= i < old(dst)@.len() && (forall|j: int|
                0 <= j < g + 1 ==> !(#[trigger] row_starts@[j] <= i < row_starts@[j] + row_len))
                implies #[trigger] dst@[i] == old(dst)@[i] by {
            assert(!(row_starts@[g as int] <= i < row_starts@[g as int] + row_len));
            assert(dst@[i] == before[i]);
        }
        g += 1;
    }
}

/// [`mul_add_matrix_gfni`] with the destination rows scattered through
/// `dst` at the disjoint byte offsets `row_starts`: row `j` receives
/// `sum_t coeffs[t][j] * src[t]`.
pub fn mul_add_matrix_at_gfni(
    _token: X64V3GfniCryptoToken,
    dst: &mut [u8],
    row_len: usize,
    row_starts: &[usize],
    terms: &[(&[Elem], &[u8])],
)
    requires
        scattered_ok(old(dst)@.len() as int, row_len as int, row_starts@),
        slice_terms_ok(terms, row_starts@.len() as int, row_len as int),
    ensures
        at_result::<Gfni, [(&[Elem], &[u8])]>(
            old(dst)@,
            final(dst)@,
            row_len as int,
            row_starts@,
            terms,
        ),
{
    proof {
        lemma_slice_terms::<Gfni>(terms, row_starts@.len() as int, row_len as int);
    }
    mul_add_matrix_at_gfni_with(_token, dst, row_len, row_starts, terms);
}

/// [`mul_add_matrix_at_gfni`] over a generic matrix source.
pub fn mul_add_matrix_at_gfni_with<M: Matrix<Elem> + ?Sized>(
    _token: X64V3GfniCryptoToken,
    dst: &mut [u8],
    row_len: usize,
    row_starts: &[usize],
    terms: &M,
)
    requires
        scattered_ok(old(dst)@.len() as int, row_len as int, row_starts@),
        terms_ok::<Gfni, M>(terms, row_starts@.len() as int, row_len as int),
    ensures
        at_result::<Gfni, M>(old(dst)@, final(dst)@, row_len as int, row_starts@, terms),
{
    mul_add_matrix_at_impl::<Gfni, M>(dst, row_len, row_starts, terms);
}

/// [`mul_add_matrix_at_gfni`] under `0x11D`, folding terms in with the
/// affine map.
pub fn mul_add_matrix_at_affine(
    _token: X64V3GfniCryptoToken,
    dst: &mut [u8],
    row_len: usize,
    row_starts: &[usize],
    terms: &[(&[gf8d::Elem], &[u8])],
)
    requires
        scattered_ok(old(dst)@.len() as int, row_len as int, row_starts@),
        slice_terms_ok(terms, row_starts@.len() as int, row_len as int),
    ensures
        at_result::<Affine8D, [(&[gf8d::Elem], &[u8])]>(
            old(dst)@,
            final(dst)@,
            row_len as int,
            row_starts@,
            terms,
        ),
{
    proof {
        lemma_slice_terms::<Affine8D>(terms, row_starts@.len() as int, row_len as int);
    }
    mul_add_matrix_at_affine_with(_token, dst, row_len, row_starts, terms);
}

/// [`mul_add_matrix_at_affine`] over a generic matrix source.
pub fn mul_add_matrix_at_affine_with<M: Matrix<gf8d::Elem> + ?Sized>(
    _token: X64V3GfniCryptoToken,
    dst: &mut [u8],
    row_len: usize,
    row_starts: &[usize],
    terms: &M,
)
    requires
        scattered_ok(old(dst)@.len() as int, row_len as int, row_starts@),
        terms_ok::<Affine8D, M>(terms, row_starts@.len() as int, row_len as int),
    ensures
        at_result::<Affine8D, M>(old(dst)@, final(dst)@, row_len as int, row_starts@, terms),
{
    mul_add_matrix_at_impl::<Affine8D, M>(dst, row_len, row_starts, terms);
}

} // verus!
