//! Laws of the binary tower products: each level is the quadratic extension
//! its constant names, stated over the level below.

use crate::field::gf8::{
    gf_mul, lemma_mul_one_left, lemma_mul_one_right, lemma_mul_zero_left, lemma_mul_zero_right,
    lemma_xor_zero,
};
use crate::field::gf16::{self, mul_hi, mul_lo};
use crate::field::gf32::{self, m16, mul_byte};
use crate::field::gf64;
use crate::kernel::Matrix;
use crate::kernel::x86::gf16::{TableCoefficient, tower_byte};
use crate::kernel::x86::gf16::gather::{gather16_sum, gathered16};
use crate::kernel::x86::gf16::matrix::{matrix16_result, msum16};
use crate::kernel::x86::gf16::scatter::scattered16;
use crate::kernel::x86::gf8::rows::row_byte;
use crate::tables::TowerTables;
use vstd::prelude::*;

verus! {

/// The bit facts of the constants the tower laws name.
proof fn lemma_tower_constants(y: u16)
    by (bit_vector)
    ensures
        gf16::lo(0u16) == 0u8,
        gf16::hi(0u16) == 0u8,
        gf16::lo(1u16) == 1u8,
        gf16::hi(1u16) == 0u8,
        gf16::lo(0x2000u16) == 0u8,
        gf16::hi(0x2000u16) == 0x20u8,
        gf32::lo(0x0001_0000u32) == 0u16,
        gf32::hi(0x0001_0000u32) == 1u16,
        gf32::pack(0x2000u16, 1u16) == 0x0001_2000u32,
        gf16::pack(0u8, 0u8) == 0u16,
        gf16::pack(0x20u8, 1u8) == 0x0120u16,
        gf16::lo(0x0100u16) == 0u8,
        gf16::hi(0x0100u16) == 1u8,
        gf32::lo(0u32) == 0u16,
        gf32::hi(0u32) == 0u16,
        gf32::lo(1u32) == 1u16,
        gf32::hi(1u32) == 0u16,
        gf32::lo(0x2000_0000u32) == 0u16,
        gf32::hi(0x2000_0000u32) == 0x2000u16,
        gf32::pack(0u16, 0u16) == 0u32,
        gf32::pack(0u16, 0x2000u16) == 0x2000_0000u32,
        gf64::lo(0x1_0000_0000u64) == 0u32,
        gf64::hi(0x1_0000_0000u64) == 1u32,
        0u16 ^ y == y,
        y ^ 0u16 == y,
{
}

/// A GF(2^16) product read back by its bytes: the byte product of the
/// coefficient with the halves of `y` is the matching half of `c * y`.
proof fn lemma_m16_is_product(c: u16, y: u16)
    ensures
        m16(c, gf16::lo(y), gf16::hi(y), 0) == gf16::lo(gf16::mul(c, y)),
        m16(c, gf16::lo(y), gf16::hi(y), 1) == gf16::hi(gf16::mul(c, y)),
{
    let (c0, c1, y0, y1) = (gf16::lo(c), gf16::hi(c), gf16::lo(y), gf16::hi(y));
    gf16::lemma_pack(mul_lo(c0, c1, y0, y1), mul_hi(c0, c1, y0, y1), 0, 0);
}

/// `p * 1 = p` in GF(2^16).
proof fn lemma_gf16_one_right(p: u16)
    ensures
        gf16::mul(p, 1) == p,
{
    lemma_tower_constants(0);
    let (p0, p1) = (gf16::lo(p), gf16::hi(p));
    lemma_mul_one_right(0x1b, p0);
    lemma_mul_one_right(0x1b, p1);
    lemma_mul_zero_right(0x1b, p0);
    lemma_mul_zero_right(0x1b, p1);
    lemma_mul_zero_right(0x1b, 0x20);
    lemma_xor_zero(p0);
    lemma_xor_zero(p1);
    lemma_xor_zero(0u8);
    gf16::lemma_pack(0, 0, p, 0);
}

/// `1 * q = q` and `0 * q = 0` in GF(2^16).
proof fn lemma_gf16_unit_left(q: u16)
    ensures
        gf16::mul(1, q) == q,
        gf16::mul(0, q) == 0,
{
    lemma_tower_constants(0);
    let (q0, q1) = (gf16::lo(q), gf16::hi(q));
    lemma_mul_one_left(0x1b, q0);
    lemma_mul_one_left(0x1b, q1);
    lemma_mul_zero_left(0x1b, q0);
    lemma_mul_zero_left(0x1b, q1);
    lemma_mul_zero_right(0x1b, 0x20);
    lemma_mul_zero_left(0x1b, gf_mul(0x1b, 0, q1));
    lemma_xor_zero(q0);
    lemma_xor_zero(q1);
    lemma_xor_zero(0u8);
    gf16::lemma_pack(0, 0, q, 0);
    gf16::lemma_pack(0, 0, 0, 0);
}

/// The GF(2^32) product is the product of the quadratic tower
/// `GF(2^16)[v] / (v^2 + v + 0x2000)`: for `c = c0 + c1·v` and
/// `x = x0 + x1·v`,
/// `c * x = (c0·x0 + (0x2000·c1)·x1) + (c0·x1 + c1·x0 + c1·x1)·v`.
pub proof fn law_gf32_tower_product(c: u32, x: u32)
    ensures
        gf32::mul(c, x) == gf32::pack(
            gf16::mul(gf32::lo(c), gf32::lo(x)) ^ gf16::mul(
                gf16::mul(0x2000u16, gf32::hi(c)),
                gf32::hi(x),
            ),
            gf16::mul(gf32::lo(c), gf32::hi(x)) ^ gf16::mul(gf32::hi(c), gf32::lo(x))
                ^ gf16::mul(gf32::hi(c), gf32::hi(x)),
        ),
{
    reveal(mul_byte);
    let (c0, c1) = (gf32::lo(c), gf32::hi(c));
    let (l, h) = (gf32::lo(x), gf32::hi(x));
    gf32::lemma_pack(l, h, x, 0);
    let x0 = gf32::byte(x, 0);
    let x1 = gf32::byte(x, 1);
    let x2 = gf32::byte(x, 2);
    let x3 = gf32::byte(x, 3);
    assert(x0 == gf16::lo(l) && x1 == gf16::hi(l) && x2 == gf16::lo(h) && x3 == gf16::hi(h));
    let d = gf16::mul(gf32::DELTA, c1);
    let p = gf16::mul(c0, l);
    let q = gf16::mul(d, h);
    let r = gf16::mul(c0, h);
    let s = gf16::mul(c1, l);
    let t = gf16::mul(c1, h);
    lemma_m16_is_product(c0, l);
    lemma_m16_is_product(d, h);
    lemma_m16_is_product(c0, h);
    lemma_m16_is_product(c1, l);
    lemma_m16_is_product(c1, h);
    gf16::lemma_pack(0, 0, p, q);
    gf16::lemma_pack(0, 0, r, s);
    gf16::lemma_pack(0, 0, r ^ s, t);
    let lo_sum = p ^ q;
    let hi_sum = r ^ s ^ t;
    gf16::lemma_pack(0, 0, lo_sum, hi_sum);
    gf16::lemma_pack(0, 0, hi_sum, lo_sum);
    assert(mul_byte(c, x0, x1, x2, x3, 0) == gf16::lo(lo_sum));
    assert(mul_byte(c, x0, x1, x2, x3, 1) == gf16::hi(lo_sum));
    assert(mul_byte(c, x0, x1, x2, x3, 2) == gf16::lo(hi_sum));
    assert(mul_byte(c, x0, x1, x2, x3, 3) == gf16::hi(hi_sum));
}

/// Multiplying by the generator `v = 0x0001_0000` follows
/// `v^2 = v + 0x2000`: `v * (x0 + x1·v) = 0x2000·x1 + (x0 + x1)·v`; in
/// particular `v * v = v + 0x2000`.
pub proof fn law_gf32_generator(x: u32)
    ensures
        gf32::mul(0x0001_0000u32, x) == gf32::pack(
            gf16::mul(0x2000u16, gf32::hi(x)),
            gf32::lo(x) ^ gf32::hi(x),
        ),
        gf32::mul(0x0001_0000u32, 0x0001_0000u32) == 0x0001_2000u32,
{
    law_gf32_tower_product(0x0001_0000u32, x);
    law_gf32_tower_product(0x0001_0000u32, 0x0001_0000u32);
    lemma_tower_constants(gf16::mul(0x2000u16, gf32::hi(x)));
    lemma_tower_constants(gf32::lo(x) ^ gf32::hi(x));
    lemma_tower_constants(gf32::hi(x));
    lemma_tower_constants(gf32::lo(x));
    lemma_gf16_one_right(0x2000u16);
    lemma_gf16_unit_left(gf32::lo(x));
    lemma_gf16_unit_left(gf32::hi(x));
    lemma_gf16_unit_left(1u16);
    lemma_gf16_unit_left(0u16);
    lemma_tower_constants(gf16::mul(0x2000u16, 1u16));
    lemma_tower_constants(1u16);
    lemma_tower_constants(0u16);
    lemma_gf16_unit_left(0x2000u16);
}

/// Prepared GF(2^16) tables multiply by the coefficient they were
/// prepared from: the coefficient a table set hands the kernels is its
/// `coeff`, for every table set, so one built by `TowerTables::new(c)`
/// multiplies by `c`.
pub proof fn law_tables_multiply_by_their_coefficient(t: TowerTables)
    ensures
        t.value() == t.coeff.0,
        t.value() == t.coeff.value(),
{
}

/// The prepared coefficients' sources as their plain elements.
pub open spec fn plain_coeffs(coeffs: Seq<TowerTables>) -> Seq<gf16::Elem> {
    coeffs.map_values(|t: TowerTables| t.coeff)
}

/// A sum over prepared tables is the sum over their coefficients.
proof fn lemma_gather_sum_plain(coeffs: Seq<TowerTables>, srcs: Seq<&[u8]>, i: int, n: nat)
    requires
        n <= coeffs.len(),
    ensures
        gather16_sum(coeffs, srcs, i, n) == gather16_sum(plain_coeffs(coeffs), srcs, i, n),
    decreases n,
{
    if n > 0 {
        lemma_gather_sum_plain(coeffs, srcs, i, (n - 1) as nat);
        assert(plain_coeffs(coeffs)[n - 1] == coeffs[n - 1].coeff);
    }
}

/// A gather over prepared GF(2^16) tables adds each source times the
/// coefficient its tables were prepared from: it leaves what a gather over
/// the plain coefficients leaves.
pub proof fn law_prepared_gather_is_plain_gather(
    before: Seq<u8>,
    after: Seq<u8>,
    coeffs: Seq<TowerTables>,
    srcs: Seq<&[u8]>,
)
    requires
        gathered16(before, after, coeffs, srcs),
    ensures
        gathered16(before, after, plain_coeffs(coeffs), srcs),
{
    lemma_gather_sum_plain(coeffs, srcs, 0, 0);
    assert forall|i: int| 0 <= i < before.len() implies #[trigger] after[i] == before[i]
        ^ gather16_sum(plain_coeffs(coeffs), srcs, i, plain_coeffs(coeffs).len()) by {
        lemma_gather_sum_plain(coeffs, srcs, i, coeffs.len());
    }
}

/// A scatter over prepared GF(2^16) tables adds the source times each
/// row's prepared coefficient: it leaves what a scatter over the plain
/// coefficients leaves.
pub proof fn law_prepared_scatter_is_plain_scatter(
    before: Seq<u8>,
    after: Seq<u8>,
    row_len: int,
    coeffs: Seq<TowerTables>,
    src: Seq<u8>,
)
    requires
        scattered16(before, after, row_len, coeffs, src),
    ensures
        scattered16(before, after, row_len, plain_coeffs(coeffs), src),
{
    assert forall|j: int, k: int| 0 <= j < coeffs.len() && 0 <= k < row_len implies #[trigger] row_byte(
        after,
        row_len,
        j,
        k,
    ) == row_byte(before, row_len, j, k) ^ tower_byte(plain_coeffs(coeffs)[j].value(), src, k) by {
        assert(plain_coeffs(coeffs)[j] == coeffs[j].coeff);
        assert(row_byte(after, row_len, j, k) == row_byte(before, row_len, j, k) ^ tower_byte(
            coeffs[j].value(),
            src,
            k,
        ));
    }
}

/// Byte `k` of `sum_{t < n} c(t, row) * source(t)` for a matrix of prepared
/// tables, each term's product taken by the coefficient its tables were
/// prepared from.
pub open spec fn prepared_msum16<M: Matrix<TowerTables> + ?Sized>(
    m: &M,
    row: int,
    k: int,
    n: nat,
) -> u8
    decreases n,
{
    if n == 0 {
        0u8
    } else {
        (prepared_msum16(m, row, k, (n - 1) as nat) ^ tower_byte(
            m.spec_coefficient(n - 1, row).coeff.0,
            m.spec_source(n - 1),
            k,
        )) as u8
    }
}

proof fn lemma_prepared_msum16<M: Matrix<TowerTables> + ?Sized>(m: &M, row: int, k: int, n: nat)
    ensures
        msum16::<TowerTables, M>(m, row, k, n) == prepared_msum16(m, row, k, n),
    decreases n,
{
    if n > 0 {
        lemma_prepared_msum16(m, row, k, (n - 1) as nat);
    }
}

/// A matrix pass over prepared GF(2^16) tables adds to each covered row
/// byte the sum of each source times the coefficient its tables for that
/// row were prepared from.
pub proof fn law_prepared_matrix_multiplies_by_coefficients<M: Matrix<TowerTables> + ?Sized>(
    before: Seq<u8>,
    after: Seq<u8>,
    row_len: int,
    nrows: int,
    terms: &M,
    width: int,
)
    requires
        matrix16_result::<TowerTables, M>(before, after, row_len, nrows, terms, width),
    ensures
        forall|r: int, k: int|
            0 <= r < nrows && 0 <= k < width ==> #[trigger] row_byte(after, row_len, r, k)
                == row_byte(before, row_len, r, k) ^ prepared_msum16(terms, r, k, terms.spec_len()),
{
    assert forall|r: int, k: int| 0 <= r < nrows && 0 <= k < width implies #[trigger] row_byte(
        after,
        row_len,
        r,
        k,
    ) == row_byte(before, row_len, r, k) ^ prepared_msum16(terms, r, k, terms.spec_len()) by {
        lemma_prepared_msum16(terms, r, k, terms.spec_len());
    }
}

/// Multiplying by the GF(2^16) generator `u = 0x0100` follows
/// `u^2 = u + 0x20`: `u * (x0 + x1·u) = 0x20·x1 + (x0 + x1)·u`; in
/// particular `u * u = u + 0x20`.
pub proof fn law_gf16_generator(x: u16)
    ensures
        gf16::mul(0x0100u16, x) == gf16::pack(
            gf_mul(0x1b, 0x20, gf16::hi(x)),
            gf16::lo(x) ^ gf16::hi(x),
        ),
        gf16::mul(0x0100u16, 0x0100u16) == 0x0120u16,
{
    lemma_tower_constants(0);
    let (x0, x1) = (gf16::lo(x), gf16::hi(x));
    lemma_mul_zero_left(0x1b, x0);
    lemma_mul_zero_left(0x1b, x1);
    lemma_mul_one_left(0x1b, x0);
    lemma_mul_one_left(0x1b, x1);
    lemma_mul_one_left(0x1b, 0);
    lemma_mul_zero_left(0x1b, 1);
    lemma_mul_one_right(0x1b, 0x20);
    lemma_mul_zero_left(0x1b, 0);
    lemma_mul_one_left(0x1b, 1);
    lemma_xor_zero(gf_mul(0x1b, 0x20, x1));
    lemma_xor_zero(x0);
    lemma_xor_zero(0u8);
    lemma_xor_zero(1u8);
    lemma_xor_zero(0x20u8);
}

/// `p * 0 = 0` in GF(2^16).
proof fn lemma_gf16_zero_right(p: u16)
    ensures
        gf16::mul(p, 0) == 0,
{
    lemma_tower_constants(0);
    let (p0, p1) = (gf16::lo(p), gf16::hi(p));
    lemma_mul_zero_right(0x1b, p0);
    lemma_mul_zero_right(0x1b, p1);
    lemma_mul_zero_right(0x1b, 0x20);
    lemma_xor_zero(0u8);
}

/// One is neutral and zero absorbing on the left in GF(2^32), and
/// `0x2000_0000 * 1 = 0x2000_0000`.
proof fn lemma_gf32_units(y: u32)
    ensures
        gf32::mul(1, y) == y,
        gf32::mul(0, y) == 0,
        gf32::mul(0x2000_0000u32, 1) == 0x2000_0000u32,
{
    let (l, h) = (gf32::lo(y), gf32::hi(y));
    law_gf32_tower_product(1, y);
    law_gf32_tower_product(0, y);
    law_gf32_tower_product(0x2000_0000u32, 1);
    lemma_tower_constants(l);
    lemma_tower_constants(h);
    lemma_tower_constants(0);
    lemma_tower_constants(0x2000u16);
    lemma_gf16_zero_right(0x2000u16);
    lemma_gf16_zero_right(gf16::mul(0x2000u16, 0x2000u16));
    lemma_gf16_unit_left(l);
    lemma_gf16_unit_left(h);
    lemma_gf16_unit_left(1u16);
    lemma_gf16_unit_left(0u16);
    lemma_gf16_one_right(0x2000u16);
    gf32::lemma_pack(l, h, y, 0);
}

/// The GF(2^32) word with bytes `y0 .. y3`.
pub open spec fn word32(y0: u8, y1: u8, y2: u8, y3: u8) -> u32 {
    gf32::pack(gf16::pack(y0, y1), gf16::pack(y2, y3))
}

/// Byte `t` of a GF(2^32) product is the coefficient byte product.
proof fn lemma_gf32_product_bytes(c: u32, y0: u8, y1: u8, y2: u8, y3: u8, t: int)
    requires
        0 <= t < 4,
    ensures
        gf32::byte(gf32::mul(c, word32(y0, y1, y2, y3)), t) == mul_byte(c, y0, y1, y2, y3, t),
{
    let a = gf16::pack(y0, y1);
    let b = gf16::pack(y2, y3);
    gf32::lemma_pack(a, b, 0, 0);
    gf16::lemma_pack(y0, y1, 0, 0);
    gf16::lemma_pack(y2, y3, 0, 0);
    let x = word32(y0, y1, y2, y3);
    let m0 = mul_byte(c, y0, y1, y2, y3, 0);
    let m1 = mul_byte(c, y0, y1, y2, y3, 1);
    let m2 = mul_byte(c, y0, y1, y2, y3, 2);
    let m3 = mul_byte(c, y0, y1, y2, y3, 3);
    gf16::lemma_pack(m0, m1, 0, 0);
    gf16::lemma_pack(m2, m3, 0, 0);
    gf32::lemma_pack(gf16::pack(m0, m1), gf16::pack(m2, m3), 0, 0);
}

/// Taking a byte of a GF(2^32) word commutes with addition.
proof fn lemma_gf32_byte_xor(p: u32, q: u32, t: int)
    requires
        0 <= t < 4,
    ensures
        gf32::byte(p ^ q, t) == gf32::byte(p, t) ^ gf32::byte(q, t),
{
    gf32::lemma_pack(gf32::lo(p), gf32::hi(p), p, q);
    gf32::lemma_pack(gf32::lo(q), gf32::hi(q), q, p);
    gf32::lemma_pack(gf32::lo(p ^ q), gf32::hi(p ^ q), p ^ q, 0);
    gf16::lemma_pack(0, 0, gf32::lo(p), gf32::lo(q));
    gf16::lemma_pack(0, 0, gf32::hi(p), gf32::hi(q));
}

/// The GF(2^64) product is the product of the quadratic tower over
/// GF(2^32) with `w^2 = w + 0x2000_0000`: for `c = c0 + c1·w` and the
/// element `x = x0 + x1·w` with bytes `x0 .. x7`, byte `k` of `c * x` is
/// byte `k` of
/// `(c0·x0 + (0x2000_0000·c1)·x1) + (c0·x1 + c1·x0 + c1·x1)·w`.
pub proof fn law_gf64_tower_product(
    c: u64,
    x0: u8,
    x1: u8,
    x2: u8,
    x3: u8,
    x4: u8,
    x5: u8,
    x6: u8,
    x7: u8,
    k: int,
)
    requires
        0 <= k < 8,
    ensures
        gf64::mul_byte(c, x0, x1, x2, x3, x4, x5, x6, x7, k) == ({
            let (c0, c1) = (gf64::lo(c), gf64::hi(c));
            let (w0, w1) = (word32(x0, x1, x2, x3), word32(x4, x5, x6, x7));
            if k < 4 {
                gf32::byte(
                    gf32::mul(c0, w0) ^ gf32::mul(gf32::mul(0x2000_0000u32, c1), w1),
                    k,
                )
            } else {
                gf32::byte(gf32::mul(c0, w1) ^ gf32::mul(c1, w0) ^ gf32::mul(c1, w1), k - 4)
            }
        }),
{
    reveal(gf64::mul_byte);
    let (c0, c1) = (gf64::lo(c), gf64::hi(c));
    let (w0, w1) = (word32(x0, x1, x2, x3), word32(x4, x5, x6, x7));
    let d = gf32::mul(gf64::DELTA, c1);
    if k < 4 {
        lemma_gf32_product_bytes(c0, x0, x1, x2, x3, k);
        lemma_gf32_product_bytes(d, x4, x5, x6, x7, k);
        lemma_gf32_byte_xor(gf32::mul(c0, w0), gf32::mul(d, w1), k);
    } else {
        let t = k - 4;
        lemma_gf32_product_bytes(c0, x4, x5, x6, x7, t);
        lemma_gf32_product_bytes(c1, x0, x1, x2, x3, t);
        lemma_gf32_product_bytes(c1, x4, x5, x6, x7, t);
        lemma_gf32_byte_xor(gf32::mul(c0, w1), gf32::mul(c1, w0), t);
        lemma_gf32_byte_xor(gf32::mul(c0, w1) ^ gf32::mul(c1, w0), gf32::mul(c1, w1), t);
    }
}

/// Multiplying by the GF(2^64) generator `w = 1 << 32` follows
/// `w^2 = w + 0x2000_0000`: byte `k` of `w * (x0 + x1·w)` is byte `k` of
/// `0x2000_0000·x1 + (x0 + x1)·w`.
pub proof fn law_gf64_generator(
    x0: u8,
    x1: u8,
    x2: u8,
    x3: u8,
    x4: u8,
    x5: u8,
    x6: u8,
    x7: u8,
    k: int,
)
    requires
        0 <= k < 8,
    ensures
        gf64::mul_byte(0x1_0000_0000u64, x0, x1, x2, x3, x4, x5, x6, x7, k) == ({
            let (w0, w1) = (word32(x0, x1, x2, x3), word32(x4, x5, x6, x7));
            if k < 4 {
                gf32::byte(gf32::mul(0x2000_0000u32, w1), k)
            } else {
                gf32::byte(w0 ^ w1, k - 4)
            }
        }),
{
    let (w0, w1) = (word32(x0, x1, x2, x3), word32(x4, x5, x6, x7));
    law_gf64_tower_product(0x1_0000_0000u64, x0, x1, x2, x3, x4, x5, x6, x7, k);
    lemma_tower_constants(0);
    lemma_gf32_units(w0);
    lemma_gf32_units(w1);
    lemma_gf32_units(1);
    lemma_gf32_xor_zero(gf32::mul(0x2000_0000u32, w1));
    lemma_gf32_xor_zero(w0);
    lemma_gf32_xor_zero(w0 ^ w1);
}

/// Zero is neutral for GF(2^32) addition.
proof fn lemma_gf32_xor_zero(y: u32)
    ensures
        0u32 ^ y == y,
        y ^ 0u32 == y,
{
    lemma_tower_constants(gf32::lo(y));
    lemma_tower_constants(gf32::hi(y));
    gf32::lemma_pack(gf32::lo(y), gf32::hi(y), 0, y);
    gf32::lemma_pack(gf32::lo(y), gf32::hi(y), y, 0);
    gf32::lemma_pack(gf32::lo(0u32 ^ y), gf32::hi(0u32 ^ y), 0u32 ^ y, 0);
    gf32::lemma_pack(gf32::lo(y ^ 0u32), gf32::hi(y ^ 0u32), y ^ 0u32, 0);
}

} // verus!
