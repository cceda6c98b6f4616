//! Laws of the coefficient providers: what the kernels read through a
//! strategy, a coefficient type or a matrix of terms is the coefficient the
//! caller handed in, at the place the caller put it.

use crate::field::gf16;
use crate::field::{gf8b, gf8d};
use crate::kernel::x86::gf16::{TableCoefficient, tower_byte};
use crate::kernel::x86::gf16::matrix::{matrix16_result, msum16};
use crate::kernel::x86::gf8::{Affine8B, Affine8BFactor, Affine8D, Affine8DPrepared, Blocked, Gfni};
use crate::kernel::x86::gf8::matrix::matrix_result;
use crate::kernel::x86::gf8::rows::{row_byte, term_sum};
use crate::field::gf8::gf_mul;
use crate::tables::Prepared8D;
use vstd::prelude::*;

verus! {

/// Each byte strategy multiplies in its field by the byte its coefficient
/// holds: `Gfni` and `Affine8B` under `0x11B`, `Affine8D` and
/// `Affine8DPrepared` under `0x11D`.
pub proof fn law_strategy_coefficients(b: gf8b::Elem, d: gf8d::Elem, f: Affine8BFactor, p: Prepared8D)
    ensures
        Gfni::red() == 0x1bu8,
        Gfni::value(b) == b.0,
        Affine8B::red() == 0x1bu8,
        Affine8B::value(f) == f.coeff(),
        Affine8D::red() == 0x1du8,
        Affine8D::value(d) == d.0,
        Affine8DPrepared::red() == 0x1du8,
        Affine8DPrepared::value(p) == p.table.coeff.0,
{
}

/// A plain GF(2^16) coefficient multiplies by its own element.
pub proof fn law_gf16_elem_value(e: gf16::Elem)
    ensures
        e.value() == e.0,
{
}

/// Byte `k` of `sum_{t < n} terms[t].0[row] * terms[t].1[k]` for a slice of
/// `(coefficients, source)` terms, in the strategy's field.
pub open spec fn slice_sum<S: Blocked>(
    terms: Seq<(&[S::Coeff], &[u8])>,
    row: int,
    k: int,
    n: nat,
) -> u8
    decreases n,
{
    if n == 0 {
        0u8
    } else {
        (slice_sum::<S>(terms, row, k, (n - 1) as nat) ^ gf_mul(
            S::red(),
            S::value(terms[n - 1].0@[row]),
            terms[n - 1].1@[k],
        )) as u8
    }
}

proof fn lemma_slice_sum<S: Blocked>(terms: &[(&[S::Coeff], &[u8])], row: int, k: int, n: nat)
    ensures
        term_sum::<S, [(&[S::Coeff], &[u8])]>(terms, row, k, n) == slice_sum::<S>(terms@, row, k, n),
    decreases n,
{
    if n > 0 {
        lemma_slice_sum::<S>(terms, row, k, (n - 1) as nat);
    }
}

/// A byte matrix pass over a slice of `(coefficients, source)` terms adds
/// to byte `k` of row `j` (or writes, when `overwrite`) the sum over the
/// terms of term `t`'s coefficient for row `j` times its source byte `k`.
pub proof fn law_slice_matrix_rows<S: Blocked>(
    before: Seq<u8>,
    after: Seq<u8>,
    row_len: int,
    nrows: int,
    terms: &[(&[S::Coeff], &[u8])],
    overwrite: bool,
)
    requires
        matrix_result::<S, [(&[S::Coeff], &[u8])]>(before, after, row_len, nrows, terms, overwrite),
    ensures
        forall|r: int, k: int|
            0 <= r < nrows && 0 <= k < row_len ==> #[trigger] row_byte(after, row_len, r, k) == (if overwrite {
                0u8
            } else {
                row_byte(before, row_len, r, k)
            }) ^ slice_sum::<S>(terms@, r, k, terms@.len()),
{
    assert forall|r: int, k: int| 0 <= r < nrows && 0 <= k < row_len implies #[trigger] row_byte(
        after,
        row_len,
        r,
        k,
    ) == (if overwrite {
        0u8
    } else {
        row_byte(before, row_len, r, k)
    }) ^ slice_sum::<S>(terms@, r, k, terms@.len()) by {
        lemma_slice_sum::<S>(terms, r, k, terms@.len());
    }
}

/// Byte `k` of `sum_{t < n} terms[t].0[row] * terms[t].1` over GF(2^16)
/// elements.
pub open spec fn slice_sum16<C: TableCoefficient>(
    terms: Seq<(&[C], &[u8])>,
    row: int,
    k: int,
    n: nat,
) -> u8
    decreases n,
{
    if n == 0 {
        0u8
    } else {
        (slice_sum16::<C>(terms, row, k, (n - 1) as nat) ^ tower_byte(
            terms[n - 1].0@[row].value(),
            terms[n - 1].1@,
            k,
        )) as u8
    }
}

proof fn lemma_slice_sum16<C: TableCoefficient>(terms: &[(&[C], &[u8])], row: int, k: int, n: nat)
    ensures
        msum16::<C, [(&[C], &[u8])]>(terms, row, k, n) == slice_sum16::<C>(terms@, row, k, n),
    decreases n,
{
    if n > 0 {
        lemma_slice_sum16::<C>(terms, row, k, (n - 1) as nat);
    }
}

/// A GF(2^16) matrix pass over a slice of `(coefficients, source)` terms
/// adds to each covered byte of row `j` the sum over the terms of term
/// `t`'s coefficient for row `j` times its source.
pub proof fn law_slice_matrix16_rows<C: TableCoefficient>(
    before: Seq<u8>,
    after: Seq<u8>,
    row_len: int,
    nrows: int,
    terms: &[(&[C], &[u8])],
    width: int,
)
    requires
        matrix16_result::<C, [(&[C], &[u8])]>(before, after, row_len, nrows, terms, width),
    ensures
        forall|r: int, k: int|
            0 <= r < nrows && 0 <= k < width ==> #[trigger] row_byte(after, row_len, r, k)
                == row_byte(before, row_len, r, k) ^ slice_sum16::<C>(terms@, r, k, terms@.len()),
{
    assert forall|r: int, k: int| 0 <= r < nrows && 0 <= k < width implies #[trigger] row_byte(
        after,
        row_len,
        r,
        k,
    ) == row_byte(before, row_len, r, k) ^ slice_sum16::<C>(terms@, r, k, terms@.len()) by {
        lemma_slice_sum16::<C>(terms, r, k, terms@.len());
    }
}

} // verus!
