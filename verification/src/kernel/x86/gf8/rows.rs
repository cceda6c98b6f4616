//! The row walks the many-row GF(2^8) kernels share: one destination row
//! folded with every term of a matrix, and the walk over a block of rows.

use super::{Blocked, brem_at, table_at};
use crate::field::gf8::gf_mul;
use crate::kernel::Matrix;
use crate::field::gf8::{lemma_xor_assoc, lemma_xor_zero};
use vstd::prelude::*;

verus! {

/// Terms resolved per destination pass on the resolved matrix path.
pub const RESOLVE_CHUNK: usize = 32;

/// Byte `k` of row `r` in a buffer of `row_len`-byte rows.
pub open spec fn row_byte(s: Seq<u8>, row_len: int, r: int, k: int) -> u8 {
    s[r * row_len + k]
}

/// `sum_{t < n} coeff(t, row) * source(t)[k]` in the strategy's field.
pub open spec fn term_sum<S: Blocked, M: Matrix<S::Coeff> + ?Sized>(
    m: &M,
    row: int,
    k: int,
    n: nat,
) -> u8
    decreases n,
{
    if n == 0 {
        0u8
    } else {
        (term_sum::<S, M>(m, row, k, (n - 1) as nat) ^ gf_mul(
            S::red(),
            S::value(m.spec_coefficient(n - 1, row)),
            m.spec_source(n - 1)[k],
        )) as u8
    }
}

/// Term `t` has a `row_len`-byte source and a prepared coefficient for row
/// `r`.
pub open spec fn term_ok<S: Blocked, M: Matrix<S::Coeff> + ?Sized>(
    m: &M,
    t: int,
    r: int,
    row_len: int,
) -> bool {
    &&& m.spec_source(t).len() == row_len
    &&& m.has_coefficient(t, r)
    &&& S::prepared(m.spec_coefficient(t, r))
}

/// Every term is usable for each of the first `nrows` rows.
pub open spec fn terms_ok<S: Blocked, M: Matrix<S::Coeff> + ?Sized>(
    m: &M,
    nrows: int,
    row_len: int,
) -> bool {
    forall|t: int, r: int|
        0 <= t < m.spec_len() && 0 <= r < nrows ==> #[trigger] term_ok::<S, M>(m, t, r, row_len)
}

/// Every term is usable for row `row`.
pub open spec fn row_terms_ok<S: Blocked, M: Matrix<S::Coeff> + ?Sized>(
    m: &M,
    row: int,
    row_len: int,
) -> bool {
    forall|t: int| 0 <= t < m.spec_len() ==> #[trigger] term_ok::<S, M>(m, t, row, row_len)
}

/// Fold every term into one destination row (by the strategy's multiply,
/// or by its nibble tables when `by_table`):
/// `rows[base + k] ^= sum_t coeff(t, row) * source(t)[k]`; every byte
/// outside the row is left as it was.
pub fn fold_row<S: Blocked, M: Matrix<S::Coeff> + ?Sized>(
    rows: &mut [u8],
    base: usize,
    row: usize,
    row_len: usize,
    terms: &M,
    by_table: bool,
)
    requires
        base + row_len <= old(rows)@.len(),
        row_terms_ok::<S, M>(terms, row as int, row_len as int),
    ensures
        final(rows)@.len() == old(rows)@.len(),
        forall|k: int|
            0 <= k < row_len ==> #[trigger] final(rows)@[base + k] == old(rows)@[base + k]
                ^ term_sum::<S, M>(terms, row as int, k, terms.spec_len()),
        forall|j: int|
            0 <= j < old(rows)@.len() && !(base <= j < base + row_len) ==> #[trigger] final(rows)@[j] == old(rows)@[j],
{
    let n = terms.len();
    let mut t: usize = 0;
    assert forall|k: int| 0 <= k < row_len implies #[trigger] rows@[base + k] == old(rows)@[base
        + k] ^ term_sum::<S, M>(terms, row as int, k, 0) by {
        let x = rows@[base + k];
        lemma_xor_zero(x);
    }
    while t < n
        invariant
            n == terms.spec_len(),
            t <= n,
            base + row_len <= old(rows)@.len(),
            rows@.len() == old(rows)@.len(),
            row_terms_ok::<S, M>(terms, row as int, row_len as int),
            forall|k: int|
                0 <= k < row_len ==> #[trigger] rows@[base + k] == old(rows)@[base + k]
                    ^ term_sum::<S, M>(terms, row as int, k, t as nat),
            forall|j: int|
                0 <= j < old(rows)@.len() && !(base <= j < base + row_len) ==> #[trigger] rows@[j]
                    == old(rows)@[j],
        decreases n - t,
    {
        assert(term_ok::<S, M>(terms, t as int, row as int, row_len as int));
        let coeff = *terms.coefficient(t, row);
        let src = terms.source(t);
        let ghost v = S::value(coeff);
        let ghost prev = rows@;
        if by_table {
            table_at::<S>(rows, base, coeff, src);
        } else {
            brem_at::<S>(rows, base, coeff, src);
        }
        assert forall|k: int| 0 <= k < row_len implies #[trigger] rows@[base + k] == old(rows)@[base + k] ^ term_sum::<S, M>(terms, row as int, k, (t + 1) as nat) by {
            let a = old(rows)@[base + k];
            let s = term_sum::<S, M>(terms, row as int, k, t as nat);
            let p = gf_mul(S::red(), v, src@[k]);
            assert(rows@[base + k] == prev[base + k] ^ p);
            lemma_xor_assoc(a, s, p);
        }
        t += 1;
    }
}

/// Seed one destination row with zeros: `rows[base .. base + row_len] = 0`.
pub fn zero_row(rows: &mut [u8], base: usize, row_len: usize)
    requires
        base + row_len <= old(rows)@.len(),
    ensures
        final(rows)@.len() == old(rows)@.len(),
        forall|k: int| 0 <= k < row_len ==> #[trigger] final(rows)@[base + k] == 0,
        forall|j: int|
            0 <= j < old(rows)@.len() && !(base <= j < base + row_len) ==> #[trigger] final(rows)@[j] == old(rows)@[j],
{
    let total = rows.len();
    let mut k: usize = 0;
    while k < row_len
        invariant
            k <= row_len,
            total == old(rows)@.len(),
            base + row_len <= old(rows)@.len(),
            rows@.len() == old(rows)@.len(),
            forall|t: int| 0 <= t < k ==> #[trigger] rows@[base + t] == 0,
            forall|j: int|
                0 <= j < old(rows)@.len() && !(base <= j < base + k) ==> #[trigger] rows@[j]
                    == old(rows)@[j],
        decreases row_len - k,
    {
        rows[base + k] = 0;
        k += 1;
    }
}

/// Row `r` lies below row `r2 > r`: `r * row_len + k < r2 * row_len`.
pub proof fn lemma_row_before(r: int, r2: int, row_len: int, k: int)
    requires
        0 <= r < r2,
        0 <= k < row_len,
    ensures
        r * row_len + k < r2 * row_len,
        0 <= r * row_len,
{
    assert(r * row_len + row_len <= r2 * row_len) by (nonlinear_arith)
        requires
            r < r2,
            0 <= row_len,
    ;
    assert(0 <= r * row_len) by (nonlinear_arith)
        requires
            0 <= r,
            0 <= row_len,
    ;
}

/// The contiguous row-block walk (each product by the strategy's multiply,
/// or by its nibble tables when `by_table`): for every row `r < nrows` and byte
/// `k < row_len`, `rows[r * row_len + k]` becomes the term sum of row `r`,
/// added to the destination or (when `overwrite`) replacing it; bytes past
/// the block are left as they were.
pub fn mul_add_matrix_impl<S: Blocked, M: Matrix<S::Coeff> + ?Sized>(
    rows: &mut [u8],
    row_len: usize,
    nrows: usize,
    terms: &M,
    overwrite: bool,
    by_table: bool,
)
    requires
        nrows * row_len <= old(rows)@.len(),
        terms_ok::<S, M>(terms, nrows as int, row_len as int),
    ensures
        final(rows)@.len() == old(rows)@.len(),
        forall|r: int, k: int|
            0 <= r < nrows && 0 <= k < row_len ==> #[trigger] row_byte(
                final(rows)@,
                row_len as int,
                r,
                k,
            ) == (if overwrite {
                0u8
            } else {
                row_byte(old(rows)@, row_len as int, r, k)
            }) ^ term_sum::<S, M>(terms, r, k, terms.spec_len()),
        forall|j: int|
            nrows * row_len <= j < old(rows)@.len() ==> #[trigger] final(rows)@[j] == old(rows)@[j],
{
    let total = rows.len();
    let mut r: usize = 0;
    let mut base: usize = 0;
    while r < nrows
        invariant
            r <= nrows,
            total == old(rows)@.len(),
            base == r * row_len,
            nrows * row_len <= old(rows)@.len(),
            rows@.len() == old(rows)@.len(),
            terms_ok::<S, M>(terms, nrows as int, row_len as int),
            forall|r2: int, k: int|
                0 <= r2 < r && 0 <= k < row_len ==> #[trigger] row_byte(
                    rows@,
                    row_len as int,
                    r2,
                    k,
                ) == (if overwrite {
                    0u8
                } else {
                    row_byte(old(rows)@, row_len as int, r2, k)
                }) ^ term_sum::<S, M>(terms, r2, k, terms.spec_len()),
            forall|j: int| base <= j < old(rows)@.len() ==> #[trigger] rows@[j] == old(rows)@[j],
        decreases nrows - r,
    {
        assert(base + row_len <= nrows * row_len) by (nonlinear_arith)
            requires
                base == r * row_len,
                r < nrows,
        ;
        let ghost before = rows@;
        if overwrite {
            zero_row(rows, base, row_len);
        }
        let ghost seeded = rows@;
        assert(row_terms_ok::<S, M>(terms, r as int, row_len as int)) by {
            assert forall|t: int| 0 <= t < terms.spec_len() implies #[trigger] term_ok::<S, M>(
                terms,
                t,
                r as int,
                row_len as int,
            ) by {}
        }
        fold_row::<S, M>(rows, base, r, row_len, terms, by_table);
        assert forall|r2: int, k: int| 0 <= r2 < r + 1 && 0 <= k < row_len implies #[trigger] row_byte(
            rows@,
            row_len as int,
            r2,
            k,
        ) == (if overwrite {
            0u8
        } else {
            row_byte(old(rows)@, row_len as int, r2, k)
        }) ^ term_sum::<S, M>(terms, r2, k, terms.spec_len()) by {
            if r2 < r {
                lemma_row_before(r2, r as int, row_len as int, k);
                let j = r2 * row_len + k;
                assert(rows@[j] == seeded[j]);
                assert(seeded[j] == before[j]);
                assert(row_byte(before, row_len as int, r2, k) == before[j]);
            } else {
                assert(r2 == r);
                assert(r2 * row_len + k == base + k);
                assert(row_byte(rows@, row_len as int, r2, k) == rows@[base + k]);
                if overwrite {
                    assert(seeded[base + k] == 0);
                } else {
                    assert(seeded[base + k] == old(rows)@[base + k]);
                }
            }
        }
        assert(base + row_len == (r + 1) * row_len) by (nonlinear_arith)
            requires
                base == r * row_len,
        ;
        r += 1;
        base += row_len;
    }
}

} // verus!
