//! Laws of the kernels: what holds across calls, stated over the same specs
//! the kernels' contracts use.

use crate::field::gf8::{
    gf_mul, lemma_affine_mul, lemma_mul_associates, lemma_mul_commutes, lemma_mul_distributes_left,
    lemma_mul_distributes_right, lemma_mul_nibbles, lemma_mul_one_left, lemma_mul_one_right,
    lemma_mul_zero_left, lemma_mul_zero_right, lemma_xor_assoc, lemma_xor_zero, mul_matrix,
    mul_steps, xtime,
};
use crate::field::gf8d;
use crate::field::quad_mersenne31 as qm31;
use crate::field::{goldilocks, mersenne31};
use vstd::arithmetic::div_mod::{lemma_fundamental_div_mod, lemma_mod_multiples_vanish, lemma_small_mod};
use crate::kernel::Matrix;
use crate::kernel::x86::bytes::xored;
use crate::kernel::x86::gf16::{tower_added, tower_byte};
use crate::kernel::x86::gf8::Affine8D;
use crate::kernel::x86::gf8::Blocked;
use crate::kernel::x86::gf8::experiments::{group_result, map_sum};
use crate::kernel::x86::gf8::experiments::shuffle::{packed_product, record_kept};
use crate::kernel::x86::gf8::gather::{gather_sum, gathered, span_sum, gather_term};
use crate::kernel::x86::gf8::matrix::matrix_result;
use crate::kernel::x86::gf8::rows::{row_byte, term_sum};
use crate::kernel::x86::gf8::scatter::scatter_result;
pub mod providers;
pub mod towers;

use vstd::prelude::*;

verus! {

/// Adding the same product twice restores the byte: `(a ^ p) ^ p == a`.
proof fn lemma_add_twice(a: u8, p: u8)
    ensures
        (a ^ p) ^ p == a,
{
    lemma_xor_assoc(a, p, p);
    lemma_xor_zero(p);
    lemma_xor_zero(a);
}

/// An AXPY `dst ^= c * src` applied twice with the same coefficient and
/// source restores the destination: addition in characteristic two is its
/// own inverse, so every multiply-add kernel undoes itself.
pub proof fn law_axpy_twice_cancels(
    red: u8,
    c: u8,
    src: Seq<u8>,
    d0: Seq<u8>,
    d1: Seq<u8>,
    d2: Seq<u8>,
)
    requires
        d0.len() == src.len(),
        d1.len() == d0.len(),
        d2.len() == d1.len(),
        forall|i: int| 0 <= i < d0.len() ==> #[trigger] d1[i] == d0[i] ^ gf_mul(red, c, src[i]),
        forall|i: int| 0 <= i < d1.len() ==> #[trigger] d2[i] == d1[i] ^ gf_mul(red, c, src[i]),
    ensures
        d2 == d0,
{
    assert forall|i: int| 0 <= i < d0.len() implies #[trigger] d2[i] == d0[i] by {
        lemma_add_twice(d0[i], gf_mul(red, c, src[i]));
    }
    assert(d2 =~= d0);
}

/// The byte product is a commutative ring product with unit one: it
/// commutes, one is neutral on either side, zero absorbs on either side,
/// and it distributes over addition on either side.
pub proof fn law_gf_mul_ring(red: u8, a: u8, b: u8, c: u8)
    ensures
        gf_mul(red, a, b) == gf_mul(red, b, a),
        gf_mul(red, a, 1) == a,
        gf_mul(red, 1, a) == a,
        gf_mul(red, a, 0) == 0,
        gf_mul(red, 0, a) == 0,
        gf_mul(red, a, b ^ c) == gf_mul(red, a, b) ^ gf_mul(red, a, c),
        gf_mul(red, a ^ b, c) == gf_mul(red, a, c) ^ gf_mul(red, b, c),
{
    lemma_mul_commutes(red, a, b);
    lemma_mul_one_right(red, a);
    lemma_mul_one_left(red, a);
    lemma_mul_zero_right(red, a);
    lemma_mul_zero_left(red, a);
    lemma_mul_distributes_right(red, a, b, c);
    lemma_mul_distributes_left(red, a, b, c);
}

/// The byte product is associative: `(a * b) * c = a * (b * c)`.
pub proof fn law_gf_mul_associates(red: u8, a: u8, b: u8, c: u8)
    ensures
        gf_mul(red, gf_mul(red, a, b), c) == gf_mul(red, a, gf_mul(red, b, c)),
{
    lemma_mul_associates(red, a, b, c);
}

/// Scaling a buffer by `c` and then by an inverse `d` of `c` (`d * c = 1`)
/// restores it: an in-place scale is undone by the inverse scale.
pub proof fn law_scale_then_unscale_restores(
    red: u8,
    c: u8,
    d: u8,
    d0: Seq<u8>,
    d1: Seq<u8>,
    d2: Seq<u8>,
)
    requires
        gf_mul(red, d, c) == 1,
        d1.len() == d0.len(),
        d2.len() == d1.len(),
        forall|i: int| 0 <= i < d0.len() ==> #[trigger] d1[i] == gf_mul(red, c, d0[i]),
        forall|i: int| 0 <= i < d1.len() ==> #[trigger] d2[i] == gf_mul(red, d, d1[i]),
    ensures
        d2 == d0,
{
    assert forall|i: int| 0 <= i < d0.len() implies #[trigger] d2[i] == d0[i] by {
        lemma_mul_associates(red, d, c, d0[i]);
        lemma_mul_one_left(red, d0[i]);
    }
    assert(d2 =~= d0);
}

/// Two AXPYs of one source under coefficients `c1` and `c2` add up to one
/// AXPY under `c1 + c2`: the kernels are linear in the coefficient.
pub proof fn law_axpy_combine(
    red: u8,
    c1: u8,
    c2: u8,
    src: Seq<u8>,
    d0: Seq<u8>,
    d1: Seq<u8>,
    d2: Seq<u8>,
)
    requires
        d0.len() == src.len(),
        d1.len() == d0.len(),
        d2.len() == d1.len(),
        forall|i: int| 0 <= i < d0.len() ==> #[trigger] d1[i] == d0[i] ^ gf_mul(red, c1, src[i]),
        forall|i: int| 0 <= i < d1.len() ==> #[trigger] d2[i] == d1[i] ^ gf_mul(red, c2, src[i]),
    ensures
        forall|i: int| 0 <= i < d0.len() ==> #[trigger] d2[i] == d0[i] ^ gf_mul(red, c1 ^ c2, src[i]),
{
    assert forall|i: int| 0 <= i < d0.len() implies #[trigger] d2[i] == d0[i] ^ gf_mul(
        red,
        c1 ^ c2,
        src[i],
    ) by {
        lemma_mul_distributes_left(red, c1, c2, src[i]);
        lemma_xor_assoc(d0[i], gf_mul(red, c1, src[i]), gf_mul(red, c2, src[i]));
    }
}

/// XOR-ing the same source in twice restores the destination.
pub proof fn law_xor_twice_cancels(src: Seq<u8>, d0: Seq<u8>, d1: Seq<u8>, d2: Seq<u8>)
    requires
        src.len() == d0.len(),
        xored(d0, d1, src),
        xored(d1, d2, src),
    ensures
        d2 == d0,
{
    assert forall|i: int| 0 <= i < d0.len() implies #[trigger] d2[i] == d0[i] by {
        lemma_add_twice(d0[i], src[i]);
    }
    assert(d2 =~= d0);
}

/// A GF(2^16) multiply-add applied twice with the same coefficient and
/// source restores the destination.
pub proof fn law_tower_axpy_twice_cancels(c: u16, src: Seq<u8>, d0: Seq<u8>, d1: Seq<u8>, d2: Seq<u8>)
    requires
        tower_added(d0, d1, c, src),
        tower_added(d1, d2, c, src),
    ensures
        d2 == d0,
{
    assert forall|i: int| 0 <= i < d0.len() implies #[trigger] d2[i] == d0[i] by {
        lemma_add_twice(d0[i], tower_byte(c, src, i));
    }
    assert(d2 =~= d0);
}

/// A scatter row whose coefficient is zero is left as it was: skipping zero
/// coefficients, as the scatter kernels do, is invisible in the result.
pub proof fn law_scatter_zero_row_unchanged<S: Blocked>(
    before: Seq<u8>,
    after: Seq<u8>,
    row_len: int,
    coeffs: Seq<S::Coeff>,
    src: Seq<u8>,
    j: int,
)
    requires
        scatter_result::<S>(before, after, row_len, coeffs, src),
        0 <= j < coeffs.len(),
        S::value(coeffs[j]) == 0,
    ensures
        forall|k: int| 0 <= k < row_len ==> #[trigger] row_byte(after, row_len, j, k) == row_byte(
            before,
            row_len,
            j,
            k,
        ),
{
    assert forall|k: int| 0 <= k < row_len implies #[trigger] row_byte(after, row_len, j, k)
        == row_byte(before, row_len, j, k) by {
        lemma_mul_zero_left(S::red(), src[k]);
        lemma_xor_zero(row_byte(before, row_len, j, k));
    }
}

/// The first `n` terms of a gather do not see what follows them.
proof fn lemma_span_prefix<S: Blocked>(
    coeffs: Seq<S::Coeff>,
    srcs: Seq<&[u8]>,
    c: S::Coeff,
    s: &[u8],
    i: int,
    n: nat,
)
    requires
        n <= coeffs.len(),
        coeffs.len() == srcs.len(),
    ensures
        span_sum::<S>(coeffs.push(c), srcs.push(s), i, 0, n) == span_sum::<S>(coeffs, srcs, i, 0, n),
    decreases n,
{
    if n > 0 {
        lemma_span_prefix::<S>(coeffs, srcs, c, s, i, (n - 1) as nat);
        assert(gather_term::<S>(coeffs.push(c), srcs.push(s), n - 1, i) == gather_term::<S>(
            coeffs,
            srcs,
            n - 1,
            i,
        ));
    }
}

/// A gather over one more source is the gather over the others plus that
/// source's AXPY: a gather is the sum of its per-source multiply-adds.
pub proof fn law_gather_adds_one_source<S: Blocked>(
    coeffs: Seq<S::Coeff>,
    srcs: Seq<&[u8]>,
    c: S::Coeff,
    s: &[u8],
    i: int,
)
    requires
        coeffs.len() == srcs.len(),
    ensures
        gather_sum::<S>(coeffs.push(c), srcs.push(s), i) == gather_sum::<S>(coeffs, srcs, i)
            ^ gf_mul(S::red(), S::value(c), s@[i]),
{
    lemma_span_prefix::<S>(coeffs, srcs, c, s, i, coeffs.len());
    let n = coeffs.len();
    assert(gather_term::<S>(coeffs.push(c), srcs.push(s), n as int, i) == gf_mul(
        S::red(),
        S::value(c),
        s@[i],
    ));
}

/// Two destinations that both carry the full gather of the same sources over
/// the same buffer are equal: every gather variant (tile width, source-chain
/// split, remainder composition) leaves what the production gather leaves.
pub proof fn law_gather_variants_agree<S: Blocked>(
    before: Seq<u8>,
    a1: Seq<u8>,
    a2: Seq<u8>,
    coeffs: Seq<S::Coeff>,
    srcs: Seq<&[u8]>,
)
    requires
        gathered::<S>(before, a1, coeffs, srcs, before.len() as int),
        gathered::<S>(before, a2, coeffs, srcs, before.len() as int),
    ensures
        a1 == a2,
{
    assert forall|i: int| 0 <= i < a1.len() implies #[trigger] a1[i] == a2[i] by {}
    assert(a1 =~= a2);
}

/// Two destinations that both carry a matrix pass of the same terms over the
/// same buffer are equal: the chunk, tile and grouping variants leave what
/// the production matrix kernels leave.
pub proof fn law_matrix_variants_agree<S: Blocked, M: Matrix<S::Coeff> + ?Sized>(
    before: Seq<u8>,
    a1: Seq<u8>,
    a2: Seq<u8>,
    row_len: int,
    nrows: int,
    terms: &M,
    overwrite: bool,
)
    requires
        0 <= nrows,
        0 <= row_len,
        nrows * row_len <= before.len(),
        matrix_result::<S, M>(before, a1, row_len, nrows, terms, overwrite),
        matrix_result::<S, M>(before, a2, row_len, nrows, terms, overwrite),
    ensures
        a1 == a2,
{
    assert forall|p: int| 0 <= p < a1.len() implies #[trigger] a1[p] == a2[p] by {
        if p < nrows * row_len {
            let r = p / row_len;
            let k = p % row_len;
            assert(p == r * row_len + k && 0 <= r < nrows && 0 <= k < row_len) by (nonlinear_arith)
                requires
                    0 <= p < nrows * row_len,
                    r == p / row_len,
                    k == p % row_len,
                    0 <= row_len,
            ;
            assert(row_byte(a1, row_len, r, k) == row_byte(a2, row_len, r, k));
        }
    }
    assert(a1 =~= a2);
}

/// Two resolved row-group runs of the same terms over the same buffer leave
/// the same bytes: the chunk width, the lane count and the product form
/// (multiply or nibble tables) of a run change nothing in its result.
pub proof fn law_group_runs_agree<S: Blocked, M: Matrix<S::Coeff> + ?Sized>(
    before: Seq<u8>,
    a1: Seq<u8>,
    a2: Seq<u8>,
    row_len: int,
    g: int,
    width: int,
    terms: &M,
    overwrite: bool,
)
    requires
        0 <= g,
        0 <= width,
        0 <= row_len,
        group_result::<S, M>(before, a1, row_len, g, width, terms, overwrite),
        group_result::<S, M>(before, a2, row_len, g, width, terms, overwrite),
    ensures
        a1 == a2,
{
    assert forall|p: int| 0 <= p < a1.len() implies #[trigger] a1[p] == a2[p] by {
        if g * row_len <= p < (g + width) * row_len {
            let q = p - g * row_len;
            let j = q / row_len;
            let k = q % row_len;
            assert(p == (g + j) * row_len + k && 0 <= j < width && 0 <= k < row_len)
                by (nonlinear_arith)
                requires
                    g * row_len <= p < (g + width) * row_len,
                    q == p - g * row_len,
                    j == q / row_len,
                    k == q % row_len,
                    0 <= row_len,
            ;
            assert(row_byte(a1, row_len, g + j, k) == row_byte(a2, row_len, g + j, k));
        }
    }
    assert(a1 =~= a2);
}

/// An overwriting matrix pass is an accumulating pass over a cleared block:
/// the erasure-encode shape is the multiply-add shape seeded with zeros.
pub proof fn law_overwrite_is_cleared_accumulate<S: Blocked, M: Matrix<S::Coeff> + ?Sized>(
    before: Seq<u8>,
    cleared: Seq<u8>,
    after: Seq<u8>,
    row_len: int,
    nrows: int,
    terms: &M,
)
    requires
        0 <= nrows,
        0 <= row_len,
        cleared.len() == before.len(),
        forall|p: int| 0 <= p < nrows * row_len ==> #[trigger] cleared[p] == 0,
        forall|p: int| nrows * row_len <= p < before.len() ==> #[trigger] cleared[p] == before[p],
        matrix_result::<S, M>(before, after, row_len, nrows, terms, true),
    ensures
        matrix_result::<S, M>(cleared, after, row_len, nrows, terms, false),
{
    assert forall|r: int, k: int| 0 <= r < nrows && 0 <= k < row_len implies #[trigger] row_byte(
        cleared,
        row_len,
        r,
        k,
    ) == 0u8 by {
        assert(r * row_len + k < nrows * row_len && 0 <= r * row_len) by (nonlinear_arith)
            requires
                0 <= r < nrows,
                0 <= k < row_len,
        ;
    }
}

/// `maps[t]` is the `VGF2P8AFFINEQB` map of term `t`'s first coefficient
/// under `0x11D`, and `srcs[t]` is term `t`'s source.
pub open spec fn maps_resolved(
    terms: Seq<(&[gf8d::Elem], &[u8])>,
    maps: Seq<u64>,
    srcs: Seq<&[u8]>,
) -> bool {
    &&& maps.len() == terms.len()
    &&& srcs.len() == terms.len()
    &&& forall|t: int|
        0 <= t < terms.len() ==> (#[trigger] terms[t]).0@.len() >= 1 && maps[t] == mul_matrix(
            gf8d::RED,
            terms[t].0@[0].0,
        ) && srcs[t]@ == terms[t].1@
}

/// The externally resolved one-row path over the maps resolved from the
/// coefficients computes what the resolved path computes: with
/// `maps[t] = mul_matrix(0x1D, coeff_t)`, the mapped sum is the field sum.
pub proof fn law_external_matches_resolved(
    terms: &[(&[gf8d::Elem], &[u8])],
    maps: Seq<u64>,
    srcs: Seq<&[u8]>,
    k: int,
    n: nat,
)
    requires
        n <= terms@.len(),
        maps_resolved(terms@, maps, srcs),
    ensures
        map_sum(maps, 0, 1, srcs, k, 0, n) == term_sum::<Affine8D, [(&[gf8d::Elem], &[u8])]>(
            terms,
            0,
            k,
            n,
        ),
    decreases n,
{
    if n > 0 {
        law_external_matches_resolved(terms, maps, srcs, k, (n - 1) as nat);
        let t = n - 1;
        assert(terms@[t].0@.len() >= 1);
        assert(maps[t] == mul_matrix(gf8d::RED, terms@[t].0@[0].0));
        lemma_affine_mul(gf8d::RED, terms@[t].0@[0].0, srcs[t]@[k]);
        assert(0 + t * 1 == t);
    }
}

/// `((d + s) mod p - s) mod p == d` for a canonical `d`.
proof fn lemma_sub_after_add(d: int, s: int, p: int)
    requires
        p > 0,
        0 <= d < p,
    ensures
        ((d + s) % p - s) % p == d,
{
    let q = (d + s) / p;
    lemma_fundamental_div_mod(d + s, p);
    assert((d + s) % p - s == p * (-q) + d) by (nonlinear_arith)
        requires
            d + s == p * q + (d + s) % p,
    ;
    lemma_mod_multiples_vanish(-q, d, p);
    lemma_small_mod(d as nat, p as nat);
}

/// Subtracting what was added restores a canonical Mersenne31 lane: the
/// subtract kernels undo the add kernels.
pub proof fn law_m31_sub_undoes_add(d: u32, s: u32)
    requires
        d < mersenne31::MODULUS,
    ensures
        mersenne31::sub(mersenne31::add(d, s), s) == d,
{
    lemma_sub_after_add(d as int, s as int, mersenne31::p());
}

/// Subtracting what was added restores a canonical Goldilocks lane.
pub proof fn law_goldilocks_sub_undoes_add(d: u64, s: u64)
    requires
        d < goldilocks::MODULUS,
    ensures
        goldilocks::sub(goldilocks::add(d, s), s) == d,
{
    lemma_sub_after_add(d as int, s as int, goldilocks::p());
}

/// Subtracting what was added restores a canonical GF((2^31 - 1)^2)
/// element, limb by limb.
pub proof fn law_qm31_sub_undoes_add(d: (u32, u32), s: (u32, u32))
    requires
        d.0 < mersenne31::MODULUS,
        d.1 < mersenne31::MODULUS,
    ensures
        qm31::sub(qm31::add(d, s), s) == d,
{
    law_m31_sub_undoes_add(d.0, s.0);
    law_m31_sub_undoes_add(d.1, s.1);
}

/// The bit facts of the constants zero and one that the rounds read.
proof fn lemma_round_constants()
    by (bit_vector)
    ensures
        0u8 & 1u8 == 0u8,
        (0u8 >> 1u8) as u8 == 0u8,
        1u8 & 1u8 == 1u8,
        (1u8 >> 1u8) as u8 == 0u8,
        (0u8 << 4u8) as u8 == 0u8,
{
}

/// The Russian-peasant rounds of a product by zero add nothing.
proof fn lemma_steps_by_zero(red: u8, a: u8, n: nat)
    ensures
        mul_steps(red, a, 0, n) == 0,
    decreases n,
{
    if n > 0 {
        lemma_round_constants();
        lemma_steps_by_zero(red, xtime(red, a), (n - 1) as nat);
        lemma_xor_zero(0u8);
    }
}

/// A packed record built from the coefficient `c` multiplies by `c`, and
/// the sub-lane tail keeps it exactly when `c` is nonzero: the packed
/// shuffle kernels over records of the coefficients compute the field
/// products, and their tail skip drops only zero terms.
pub proof fn law_packed_record_multiplies(red: u8, c: u8, rec: [u8; 32], x: u8, probe_high: bool)
    requires
        forall|i: int|
            0 <= i < 16 ==> #[trigger] rec@[i] == gf_mul(red, c, i as u8) && rec@[16 + i] == gf_mul(
                red,
                c,
                ((i as u8) << 4u8) as u8,
            ),
    ensures
        packed_product(rec, x) == gf_mul(red, c, x),
        record_kept(rec, probe_high) <==> c != 0,
{
    let lo_n: u8 = x & 0xfu8;
    let hi_n: u8 = (x >> 4u8) as u8;
    assert(lo_n == x % 16 && hi_n == x / 16) by (bit_vector)
        requires
            lo_n == x & 0xfu8,
            hi_n == (x >> 4u8) as u8,
    ;
    assert(rec@[lo_n as int] == gf_mul(red, c, lo_n));
    assert(rec@[hi_n as int] == gf_mul(red, c, hi_n));
    assert(rec@[16 + hi_n as int] == gf_mul(red, c, ((hi_n as u8) << 4u8) as u8));
    lemma_mul_nibbles(red, c, x);
    lemma_round_constants();
    lemma_steps_by_zero(red, xtime(red, c), 7);
    lemma_xor_zero(c);
    assert(rec@[1] == gf_mul(red, c, 1u8));
    assert(gf_mul(red, c, 1u8) == c);
    assert(rec@[0] == gf_mul(red, c, 0u8));
    assert(rec@[16 + 0int] == gf_mul(red, c, ((0u8) << 4u8) as u8));
    lemma_steps_by_zero(red, c, 8);
}

} // verus!
