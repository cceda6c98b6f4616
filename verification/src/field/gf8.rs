//! GF(2^8) arithmetic shared by the two byte fields.
//!
//! A byte field is `GF(2)[x] / (x^8 + r)` for a reduction byte `r`: `0x1b`
//! gives the AES polynomial `0x11B` (`Gf8B`), `0x1d` the Reed–Solomon
//! polynomial `0x11D` (`Gf8D`). Products are defined by the Russian-peasant
//! rounds the kernels run: each round adds the current multiple of `a` when
//! the low bit of `b` is set, then doubles `a` modulo the polynomial.

use vstd::prelude::*;

verus! {

/// Zero is the additive identity of every byte field, and every byte is its
/// own negative.
pub proof fn lemma_xor_zero(x: u8)
    by (bit_vector)
    ensures
        x ^ 0u8 == x,
        0u8 ^ x == x,
        x ^ x == 0u8,
{
}

/// Byte-field addition is associative.
pub proof fn lemma_xor_assoc(a: u8, b: u8, c: u8)
    by (bit_vector)
    ensures
        (a ^ b) ^ c == a ^ (b ^ c),
{
}

/// Two sums of two may be regrouped pairwise.
pub proof fn lemma_xor_swap(x: u8, y: u8, u: u8, v: u8)
    by (bit_vector)
    ensures
        (x ^ y) ^ (u ^ v) == (x ^ u) ^ (y ^ v),
{
}

/// `a · x` modulo `x^8 + red`: shift left, and fold the carried-out bit
/// back in with the reduction byte.
pub open spec fn xtime(red: u8, a: u8) -> u8 {
    if a & 0x80u8 != 0 {
        ((a << 1u8) ^ red) as u8
    } else {
        (a << 1u8) as u8
    }
}

/// `v` when the low bit of `b` is set, zero otherwise.
pub open spec fn sel(b: u8, v: u8) -> u8 {
    if b & 1u8 == 1u8 {
        v
    } else {
        0u8
    }
}

/// The last `n` Russian-peasant rounds of `a * b`.
pub open spec fn mul_steps(red: u8, a: u8, b: u8, n: nat) -> u8
    decreases n,
{
    if n == 0 {
        0u8
    } else {
        (sel(b, a) ^ mul_steps(red, xtime(red, a), (b >> 1u8) as u8, (n - 1) as nat)) as u8
    }
}

/// `a * b` in `GF(2)[x] / (x^8 + red)`.
pub open spec fn gf_mul(red: u8, a: u8, b: u8) -> u8 {
    mul_steps(red, a, b, 8)
}

/// `a · x^k`: the `k`-th column of multiplication by `a`.
pub open spec fn xpow(red: u8, a: u8, k: nat) -> u8
    decreases k,
{
    if k == 0 {
        a
    } else {
        xtime(red, xpow(red, a, (k - 1) as nat))
    }
}

/// `a * b` written out as the eight selected columns `a · x^k`.
pub open spec fn columns_mul(c0: u8, c1: u8, c2: u8, c3: u8, c4: u8, c5: u8, c6: u8, c7: u8, b: u8) -> u8 {
    (sel(b, c0) ^ sel((b >> 1u8) as u8, c1) ^ sel((b >> 2u8) as u8, c2) ^ sel((b >> 3u8) as u8, c3)
        ^ sel((b >> 4u8) as u8, c4) ^ sel((b >> 5u8) as u8, c5) ^ sel((b >> 6u8) as u8, c6) ^ sel(
        (b >> 7u8) as u8,
        c7,
    )) as u8
}

/// Doubling is additive: `(a1 + a2)·x = a1·x + a2·x`.
pub proof fn lemma_xtime_linear(red: u8, a1: u8, a2: u8)
    ensures
        xtime(red, a1 ^ a2) == xtime(red, a1) ^ xtime(red, a2),
{
    assert(xtime(red, a1 ^ a2) == xtime(red, a1) ^ xtime(red, a2)) by (bit_vector);
}

/// Multiplication distributes over addition in its right operand:
/// `a * (b1 + b2) = a * b1 + a * b2`, round by round.
pub proof fn lemma_mul_steps_linear_right(red: u8, a: u8, b1: u8, b2: u8, n: nat)
    ensures
        mul_steps(red, a, b1 ^ b2, n) == mul_steps(red, a, b1, n) ^ mul_steps(red, a, b2, n),
    decreases n,
{
    if n > 0 {
        lemma_mul_steps_linear_right(
            red,
            xtime(red, a),
            (b1 >> 1u8) as u8,
            (b2 >> 1u8) as u8,
            (n - 1) as nat,
        );
        assert(((b1 ^ b2) >> 1u8) as u8 == ((b1 >> 1u8) as u8) ^ ((b2 >> 1u8) as u8))
            by (bit_vector);
        assert(sel(b1 ^ b2, a) == sel(b1, a) ^ sel(b2, a)) by (bit_vector);
        let x = sel(b1, a);
        let y = sel(b2, a);
        let u = mul_steps(red, xtime(red, a), (b1 >> 1u8) as u8, (n - 1) as nat);
        let v = mul_steps(red, xtime(red, a), (b2 >> 1u8) as u8, (n - 1) as nat);
        lemma_xor_swap(x, y, u, v);
    } else {
        lemma_xor_zero(0u8);
    }
}

/// Multiplication distributes over addition in its left operand:
/// `(a1 + a2) * b = a1 * b + a2 * b`.
pub proof fn lemma_mul_steps_linear_left(red: u8, a1: u8, a2: u8, b: u8, n: nat)
    ensures
        mul_steps(red, a1 ^ a2, b, n) == mul_steps(red, a1, b, n) ^ mul_steps(red, a2, b, n),
    decreases n,
{
    if n > 0 {
        lemma_xtime_linear(red, a1, a2);
        lemma_mul_steps_linear_left(
            red,
            xtime(red, a1),
            xtime(red, a2),
            (b >> 1u8) as u8,
            (n - 1) as nat,
        );
        assert(sel(b, a1 ^ a2) == sel(b, a1) ^ sel(b, a2)) by (bit_vector);
        let x = sel(b, a1);
        let y = sel(b, a2);
        let u = mul_steps(red, xtime(red, a1), (b >> 1u8) as u8, (n - 1) as nat);
        let v = mul_steps(red, xtime(red, a2), (b >> 1u8) as u8, (n - 1) as nat);
        lemma_xor_swap(x, y, u, v);
    } else {
        lemma_xor_zero(0u8);
    }
}

/// `a * (b1 + b2) = a * b1 + a * b2` in any byte field.
pub proof fn lemma_mul_distributes_right(red: u8, a: u8, b1: u8, b2: u8)
    ensures
        gf_mul(red, a, b1 ^ b2) == gf_mul(red, a, b1) ^ gf_mul(red, a, b2),
{
    lemma_mul_steps_linear_right(red, a, b1, b2, 8);
}

/// `(a1 + a2) * b = a1 * b + a2 * b` in any byte field.
pub proof fn lemma_mul_distributes_left(red: u8, a1: u8, a2: u8, b: u8)
    ensures
        gf_mul(red, a1 ^ a2, b) == gf_mul(red, a1, b) ^ gf_mul(red, a2, b),
{
    lemma_mul_steps_linear_left(red, a1, a2, b, 8);
}

/// `0 * b = 0` in any byte field.
pub proof fn lemma_mul_zero_left(red: u8, b: u8)
    ensures
        gf_mul(red, 0, b) == 0,
{
    lemma_mul_distributes_left(red, 0, 0, b);
    let p = gf_mul(red, 0, b);
    lemma_xor_zero(0u8);
    lemma_xor_zero(p);
}

/// The product is the selection of the eight columns `a · x^k` by the bits
/// of `b`.
pub proof fn lemma_mul_columns(red: u8, a: u8, b: u8)
    ensures
        gf_mul(red, a, b) == columns_mul(
            xpow(red, a, 0),
            xpow(red, a, 1),
            xpow(red, a, 2),
            xpow(red, a, 3),
            xpow(red, a, 4),
            xpow(red, a, 5),
            xpow(red, a, 6),
            xpow(red, a, 7),
            b,
        ),
{
    reveal_with_fuel(mul_steps, 9);
    reveal_with_fuel(xpow, 8);
    let b1 = (b >> 1u8) as u8;
    let b2 = (b1 >> 1u8) as u8;
    let b3 = (b2 >> 1u8) as u8;
    let b4 = (b3 >> 1u8) as u8;
    let b5 = (b4 >> 1u8) as u8;
    let b6 = (b5 >> 1u8) as u8;
    let b7 = (b6 >> 1u8) as u8;
    assert(b2 == (b >> 2u8) as u8 && b3 == (b >> 3u8) as u8 && b4 == (b >> 4u8) as u8 && b5 == (b
        >> 5u8) as u8 && b6 == (b >> 6u8) as u8 && b7 == (b >> 7u8) as u8) by (bit_vector)
        requires
            b1 == (b >> 1u8) as u8,
            b2 == (b1 >> 1u8) as u8,
            b3 == (b2 >> 1u8) as u8,
            b4 == (b3 >> 1u8) as u8,
            b5 == (b4 >> 1u8) as u8,
            b6 == (b5 >> 1u8) as u8,
            b7 == (b6 >> 1u8) as u8,
    ;
    let c0 = xpow(red, a, 0);
    let c1 = xpow(red, a, 1);
    let c2 = xpow(red, a, 2);
    let c3 = xpow(red, a, 3);
    let c4 = xpow(red, a, 4);
    let c5 = xpow(red, a, 5);
    let c6 = xpow(red, a, 6);
    let c7 = xpow(red, a, 7);
    let s0 = sel(b, c0);
    let s1 = sel(b1, c1);
    let s2 = sel(b2, c2);
    let s3 = sel(b3, c3);
    let s4 = sel(b4, c4);
    let s5 = sel(b5, c5);
    let s6 = sel(b6, c6);
    let s7 = sel(b7, c7);
    assert(mul_steps(red, c7, b7, 1) == s7 ^ 0u8);
    lemma_xor_zero(s7);
    assert(gf_mul(red, a, b) == s0 ^ (s1 ^ (s2 ^ (s3 ^ (s4 ^ (s5 ^ (s6 ^ s7)))))));
    assert(s0 ^ (s1 ^ (s2 ^ (s3 ^ (s4 ^ (s5 ^ (s6 ^ s7)))))) == s0 ^ s1 ^ s2 ^ s3 ^ s4 ^ s5 ^ s6
        ^ s7) by (bit_vector);
}

/// Exact nibble split: the low nibble and the high nibble of `x`, added,
/// are `x`; so `c * x = c * (x & 0xf) + c * (x & 0xf0)`.
pub proof fn lemma_mul_nibbles(red: u8, c: u8, x: u8)
    ensures
        gf_mul(red, c, x) == gf_mul(red, c, x & 0xfu8) ^ gf_mul(
            red,
            c,
            (((x >> 4u8) as u8) << 4u8) as u8,
        ),
{
    assert((x & 0xfu8) ^ ((((x >> 4u8) as u8) << 4u8) as u8) == x) by (bit_vector);
    lemma_mul_distributes_right(red, c, x & 0xfu8, (((x >> 4u8) as u8) << 4u8) as u8);
}

/// The bit facts of the unit bytes `x^k`: doubling zero is zero, doubling
/// `x^k` below the top bit is `x^(k+1)`, a unit selects its own column, and
/// the units select every byte back.
proof fn lemma_unit_bytes(red: u8, b: u8, c0: u8, c1: u8, c2: u8, c3: u8, c4: u8, c5: u8, c6: u8, c7: u8)
    by (bit_vector)
    ensures
        xtime(red, 0) == 0,
        xtime(red, 1) == 2,
        xtime(red, 2) == 4,
        xtime(red, 4) == 8,
        xtime(red, 8) == 16,
        xtime(red, 16) == 32,
        xtime(red, 32) == 64,
        xtime(red, 64) == 128,
        columns_mul(c0, c1, c2, c3, c4, c5, c6, c7, 1) == c0,
        columns_mul(c0, c1, c2, c3, c4, c5, c6, c7, 2) == c1,
        columns_mul(c0, c1, c2, c3, c4, c5, c6, c7, 4) == c2,
        columns_mul(c0, c1, c2, c3, c4, c5, c6, c7, 8) == c3,
        columns_mul(c0, c1, c2, c3, c4, c5, c6, c7, 16) == c4,
        columns_mul(c0, c1, c2, c3, c4, c5, c6, c7, 32) == c5,
        columns_mul(c0, c1, c2, c3, c4, c5, c6, c7, 64) == c6,
        columns_mul(c0, c1, c2, c3, c4, c5, c6, c7, 128) == c7,
        columns_mul(1, 2, 4, 8, 16, 32, 64, 128, b) == b,
{
}

/// The columns of `1` are the unit bytes: `1 · x^k = x^k`.
proof fn lemma_unit_columns(red: u8)
    ensures
        xpow(red, 1, 0) == 1,
        xpow(red, 1, 1) == 2,
        xpow(red, 1, 2) == 4,
        xpow(red, 1, 3) == 8,
        xpow(red, 1, 4) == 16,
        xpow(red, 1, 5) == 32,
        xpow(red, 1, 6) == 64,
        xpow(red, 1, 7) == 128,
{
    reveal_with_fuel(xpow, 8);
    lemma_unit_bytes(red, 0, 0, 0, 0, 0, 0, 0, 0, 0);
}

/// Doubling commutes with selection: `x · sel(b, c) = sel(b, x · c)`.
proof fn lemma_xtime_sel(red: u8, b: u8, c: u8)
    ensures
        xtime(red, sel(b, c)) == sel(b, xtime(red, c)),
{
    lemma_unit_bytes(red, 0, 0, 0, 0, 0, 0, 0, 0, 0);
}

/// Doubling the left factor doubles every round's sum:
/// `(x · c) * a = x · (c * a)`, round by round.
proof fn lemma_steps_xtime_left(red: u8, c: u8, a: u8, n: nat)
    ensures
        mul_steps(red, xtime(red, c), a, n) == xtime(red, mul_steps(red, c, a, n)),
    decreases n,
{
    lemma_unit_bytes(red, 0, 0, 0, 0, 0, 0, 0, 0, 0);
    if n > 0 {
        let a1 = (a >> 1u8) as u8;
        lemma_steps_xtime_left(red, xtime(red, c), a1, (n - 1) as nat);
        lemma_xtime_sel(red, a, c);
        lemma_xtime_linear(red, sel(a, c), mul_steps(red, xtime(red, c), a1, (n - 1) as nat));
    }
}

/// `(c · x^k) * a = (c * a) · x^k`.
pub proof fn lemma_mul_xpow_left(red: u8, c: u8, a: u8, k: nat)
    ensures
        gf_mul(red, xpow(red, c, k), a) == xpow(red, gf_mul(red, c, a), k),
    decreases k,
{
    if k > 0 {
        lemma_mul_xpow_left(red, c, a, (k - 1) as nat);
        lemma_steps_xtime_left(red, xpow(red, c, (k - 1) as nat), a, 8);
    }
}

/// `1 * a = a` in any byte field.
pub proof fn lemma_mul_one_left(red: u8, a: u8)
    ensures
        gf_mul(red, 1, a) == a,
{
    lemma_mul_columns(red, 1, a);
    lemma_unit_columns(red);
    lemma_unit_bytes(red, a, 0, 0, 0, 0, 0, 0, 0, 0);
}

/// `a * 1 = a` in any byte field.
pub proof fn lemma_mul_one_right(red: u8, a: u8)
    ensures
        gf_mul(red, a, 1) == a,
{
    lemma_mul_columns(red, a, 1);
    reveal_with_fuel(xpow, 1);
    lemma_unit_bytes(
        red,
        0,
        xpow(red, a, 0),
        xpow(red, a, 1),
        xpow(red, a, 2),
        xpow(red, a, 3),
        xpow(red, a, 4),
        xpow(red, a, 5),
        xpow(red, a, 6),
        xpow(red, a, 7),
    );
}

/// `a * 0 = 0` in any byte field.
pub proof fn lemma_mul_zero_right(red: u8, a: u8)
    ensures
        gf_mul(red, a, 0) == 0,
{
    lemma_mul_distributes_right(red, a, 0, 0);
    lemma_xor_zero(0u8);
    lemma_xor_zero(gf_mul(red, a, 0));
}

/// A selected factor on the left selects the product:
/// `sel(b, v) * c = sel(b, v * c)`.
proof fn lemma_mul_sel_left(red: u8, b: u8, v: u8, c: u8)
    ensures
        gf_mul(red, sel(b, v), c) == sel(b, gf_mul(red, v, c)),
{
    lemma_mul_zero_left(red, c);
}

/// Multiplying a column selection on the left multiplies every column:
/// `(Σ sel(b_k, v_k)) * c = Σ sel(b_k, v_k * c)`.
pub proof fn lemma_mul_columns_left(
    red: u8,
    v0: u8,
    v1: u8,
    v2: u8,
    v3: u8,
    v4: u8,
    v5: u8,
    v6: u8,
    v7: u8,
    b: u8,
    c: u8,
)
    ensures
        gf_mul(red, columns_mul(v0, v1, v2, v3, v4, v5, v6, v7, b), c) == columns_mul(
            gf_mul(red, v0, c),
            gf_mul(red, v1, c),
            gf_mul(red, v2, c),
            gf_mul(red, v3, c),
            gf_mul(red, v4, c),
            gf_mul(red, v5, c),
            gf_mul(red, v6, c),
            gf_mul(red, v7, c),
            b,
        ),
{
    let s0 = sel(b, v0);
    let s1 = sel((b >> 1u8) as u8, v1);
    let s2 = sel((b >> 2u8) as u8, v2);
    let s3 = sel((b >> 3u8) as u8, v3);
    let s4 = sel((b >> 4u8) as u8, v4);
    let s5 = sel((b >> 5u8) as u8, v5);
    let s6 = sel((b >> 6u8) as u8, v6);
    let s7 = sel((b >> 7u8) as u8, v7);
    lemma_mul_distributes_left(red, s0, s1, c);
    lemma_mul_distributes_left(red, s0 ^ s1, s2, c);
    lemma_mul_distributes_left(red, s0 ^ s1 ^ s2, s3, c);
    lemma_mul_distributes_left(red, s0 ^ s1 ^ s2 ^ s3, s4, c);
    lemma_mul_distributes_left(red, s0 ^ s1 ^ s2 ^ s3 ^ s4, s5, c);
    lemma_mul_distributes_left(red, s0 ^ s1 ^ s2 ^ s3 ^ s4 ^ s5, s6, c);
    lemma_mul_distributes_left(red, s0 ^ s1 ^ s2 ^ s3 ^ s4 ^ s5 ^ s6, s7, c);
    lemma_mul_sel_left(red, b, v0, c);
    lemma_mul_sel_left(red, (b >> 1u8) as u8, v1, c);
    lemma_mul_sel_left(red, (b >> 2u8) as u8, v2, c);
    lemma_mul_sel_left(red, (b >> 3u8) as u8, v3, c);
    lemma_mul_sel_left(red, (b >> 4u8) as u8, v4, c);
    lemma_mul_sel_left(red, (b >> 5u8) as u8, v5, c);
    lemma_mul_sel_left(red, (b >> 6u8) as u8, v6, c);
    lemma_mul_sel_left(red, (b >> 7u8) as u8, v7, c);
}

/// `a * b = b * a` in any byte field.
pub proof fn lemma_mul_commutes(red: u8, a: u8, b: u8)
    ensures
        gf_mul(red, a, b) == gf_mul(red, b, a),
{
    lemma_mul_columns(red, a, b);
    lemma_unit_bytes(red, b, 0, 0, 0, 0, 0, 0, 0, 0);
    lemma_mul_columns_left(red, 1, 2, 4, 8, 16, 32, 64, 128, b, a);
    lemma_unit_columns(red);
    lemma_mul_one_left(red, a);
    lemma_mul_xpow_left(red, 1, a, 0);
    lemma_mul_xpow_left(red, 1, a, 1);
    lemma_mul_xpow_left(red, 1, a, 2);
    lemma_mul_xpow_left(red, 1, a, 3);
    lemma_mul_xpow_left(red, 1, a, 4);
    lemma_mul_xpow_left(red, 1, a, 5);
    lemma_mul_xpow_left(red, 1, a, 6);
    lemma_mul_xpow_left(red, 1, a, 7);
}

/// The right factors of a double product may be exchanged:
/// `(a * b) * c = (a * c) * b`.
proof fn lemma_mul_exchange(red: u8, a: u8, b: u8, c: u8)
    ensures
        gf_mul(red, gf_mul(red, a, b), c) == gf_mul(red, gf_mul(red, a, c), b),
{
    lemma_mul_columns(red, a, b);
    lemma_mul_columns(red, gf_mul(red, a, c), b);
    lemma_mul_columns_left(
        red,
        xpow(red, a, 0),
        xpow(red, a, 1),
        xpow(red, a, 2),
        xpow(red, a, 3),
        xpow(red, a, 4),
        xpow(red, a, 5),
        xpow(red, a, 6),
        xpow(red, a, 7),
        b,
        c,
    );
    lemma_mul_xpow_left(red, a, c, 0);
    lemma_mul_xpow_left(red, a, c, 1);
    lemma_mul_xpow_left(red, a, c, 2);
    lemma_mul_xpow_left(red, a, c, 3);
    lemma_mul_xpow_left(red, a, c, 4);
    lemma_mul_xpow_left(red, a, c, 5);
    lemma_mul_xpow_left(red, a, c, 6);
    lemma_mul_xpow_left(red, a, c, 7);
}

/// `(a * b) * c = a * (b * c)` in any byte field.
pub proof fn lemma_mul_associates(red: u8, a: u8, b: u8, c: u8)
    ensures
        gf_mul(red, gf_mul(red, a, b), c) == gf_mul(red, a, gf_mul(red, b, c)),
{
    lemma_mul_commutes(red, a, gf_mul(red, b, c));
    lemma_mul_exchange(red, b, c, a);
    lemma_mul_commutes(red, b, a);
}

/// The exec Russian-peasant product under reduction byte `red`.
pub fn gf_mul_exec(red: u8, a0: u8, b0: u8) -> (r: u8)
    ensures
        r == gf_mul(red, a0, b0),
{
    let mut product: u8 = 0;
    let mut a = a0;
    let mut b = b0;
    let mut i: u8 = 0;
    assert(0u8 ^ gf_mul(red, a0, b0) == gf_mul(red, a0, b0)) by (bit_vector);
    while i < 8
        invariant
            i <= 8,
            product ^ mul_steps(red, a, b, (8 - i) as nat) == gf_mul(red, a0, b0),
        decreases 8 - i,
    {
        let ghost prev_product = product;
        let ghost prev_a = a;
        let ghost prev_b = b;
        if b & 1 != 0 {
            product ^= a;
        }
        let carry = a & 0x80 != 0;
        a = a << 1u8;
        if carry {
            a ^= red;
        }
        b = b >> 1u8;
        proof {
            assert(product == prev_product ^ sel(prev_b, prev_a)) by (bit_vector)
                requires
                    (prev_b & 1u8 != 0u8) ==> product == prev_product ^ prev_a,
                    !(prev_b & 1u8 != 0u8) ==> product == prev_product,
            ;
            assert(a == xtime(red, prev_a)) by (bit_vector)
                requires
                    (prev_a & 0x80u8 != 0u8) ==> a == ((prev_a << 1u8) ^ red) as u8,
                    !(prev_a & 0x80u8 != 0u8) ==> a == (prev_a << 1u8) as u8,
            ;
            let rest = mul_steps(red, a, b, (8 - i - 1) as nat);
            assert(mul_steps(red, prev_a, prev_b, (8 - i) as nat) == sel(prev_b, prev_a) ^ rest);
            let s = sel(prev_b, prev_a);
            lemma_xor_assoc(prev_product, s, rest);
        }
        i += 1;
    }
    proof {
        lemma_xor_zero(product);
    }
    product
}

/// Parity of the set bits of `v`, as `0` or `1`.
pub open spec fn parity(v: u8) -> u8 {
    let a = (v ^ (v >> 4u8)) as u8;
    let b = (a ^ (a >> 2u8)) as u8;
    ((b ^ (b >> 1u8)) & 1u8) as u8
}

/// Byte `7 - i` of the matrix qword: the row that produces output bit `i`.
pub open spec fn matrix_row(m: u64, i: u64) -> u8 {
    ((m >> (8 * (7 - i)) as u64) & 0xffu64) as u8
}

/// The `GF2P8AFFINEQB` byte transform with a zero constant: output bit `i`
/// is the parity of `x` masked by byte `7 - i` of the matrix.
pub open spec fn affine_apply(m: u64, x: u8) -> u8 {
    (parity(matrix_row(m, 0) & x) | (parity(matrix_row(m, 1) & x) << 1u8) | (parity(
        matrix_row(m, 2) & x,
    ) << 2u8) | (parity(matrix_row(m, 3) & x) << 3u8) | (parity(matrix_row(m, 4) & x) << 4u8)
        | (parity(matrix_row(m, 5) & x) << 5u8) | (parity(matrix_row(m, 6) & x) << 6u8) | (
    parity(matrix_row(m, 7) & x) << 7u8)) as u8
}

/// Bit `i` of each column, gathered into one row byte (column `k` to bit
/// `k`).
pub open spec fn column_row(c0: u8, c1: u8, c2: u8, c3: u8, c4: u8, c5: u8, c6: u8, c7: u8, i: u8) -> u8 {
    (((c0 >> i) & 1u8) | (((c1 >> i) & 1u8) << 1u8) | (((c2 >> i) & 1u8) << 2u8) | (((c3 >> i)
        & 1u8) << 3u8) | (((c4 >> i) & 1u8) << 4u8) | (((c5 >> i) & 1u8) << 5u8) | (((c6 >> i)
        & 1u8) << 6u8) | (((c7 >> i) & 1u8) << 7u8)) as u8
}

/// The matrix qword whose columns are `c0..c7`: the row of output bit `i`
/// stored at byte `7 - i`.
pub open spec fn columns_matrix(c0: u8, c1: u8, c2: u8, c3: u8, c4: u8, c5: u8, c6: u8, c7: u8) -> u64 {
    (((column_row(c0, c1, c2, c3, c4, c5, c6, c7, 0) as u64) << 56u64) | ((column_row(
        c0,
        c1,
        c2,
        c3,
        c4,
        c5,
        c6,
        c7,
        1,
    ) as u64) << 48u64) | ((column_row(c0, c1, c2, c3, c4, c5, c6, c7, 2) as u64) << 40u64) | ((
    column_row(c0, c1, c2, c3, c4, c5, c6, c7, 3) as u64) << 32u64) | ((column_row(
        c0,
        c1,
        c2,
        c3,
        c4,
        c5,
        c6,
        c7,
        4,
    ) as u64) << 24u64) | ((column_row(c0, c1, c2, c3, c4, c5, c6, c7, 5) as u64) << 16u64) | ((
    column_row(c0, c1, c2, c3, c4, c5, c6, c7, 6) as u64) << 8u64) | (column_row(
        c0,
        c1,
        c2,
        c3,
        c4,
        c5,
        c6,
        c7,
        7,
    ) as u64)) as u64
}

/// The affine matrix of multiplication by `a`: its columns are `a · x^k`.
pub open spec fn mul_matrix(red: u8, a: u8) -> u64 {
    columns_matrix(
        xpow(red, a, 0),
        xpow(red, a, 1),
        xpow(red, a, 2),
        xpow(red, a, 3),
        xpow(red, a, 4),
        xpow(red, a, 5),
        xpow(red, a, 6),
        xpow(red, a, 7),
    )
}

/// Applying the matrix built from columns `c0..c7` selects the columns by
/// the bits of `x`.
pub proof fn lemma_affine_columns(
    c0: u8,
    c1: u8,
    c2: u8,
    c3: u8,
    c4: u8,
    c5: u8,
    c6: u8,
    c7: u8,
    x: u8,
)
    ensures
        affine_apply(columns_matrix(c0, c1, c2, c3, c4, c5, c6, c7), x) == columns_mul(
            c0,
            c1,
            c2,
            c3,
            c4,
            c5,
            c6,
            c7,
            x,
        ),
{
    assert(affine_apply(columns_matrix(c0, c1, c2, c3, c4, c5, c6, c7), x) == columns_mul(
        c0,
        c1,
        c2,
        c3,
        c4,
        c5,
        c6,
        c7,
        x,
    )) by (bit_vector);
}

/// The affine transform by the multiplication matrix of `a` is the product
/// by `a`: what lets `VGF2P8AFFINEQB` multiply in any byte field.
pub proof fn lemma_affine_mul(red: u8, a: u8, x: u8)
    ensures
        affine_apply(mul_matrix(red, a), x) == gf_mul(red, a, x),
{
    lemma_mul_columns(red, a, x);
    lemma_affine_columns(
        xpow(red, a, 0),
        xpow(red, a, 1),
        xpow(red, a, 2),
        xpow(red, a, 3),
        xpow(red, a, 4),
        xpow(red, a, 5),
        xpow(red, a, 6),
        xpow(red, a, 7),
        x,
    );
}

} // verus!
