//! GF(2^32) tower kernels for x86 / `x86_64`.
//!
//! A GF(2^32) multiply is two GF(2^16) lane multiplies under a period-2
//! coefficient — one of the source and one of the source with its two
//! GF(2^16) halves exchanged — just as a GF(2^16) multiply is two byte
//! multiplies under a period-2 byte coefficient. Unrolled, byte `k` of
//! `c * x` is `sum_j tile_j[k] * x[k ^ j]` over four 4-byte tiles: the
//! source, its adjacent-byte swap, its half swap and its reversal, each
//! under one tile.

use crate::field::gf16::{self, lemma_mul_linear, lemma_tower_scale, mul_hi, mul_lo};
use crate::field::gf32::{self, byte, m16, mul_byte, mul_bytes};
use crate::field::gf8::{gf_mul, gf_mul_exec, lemma_xor_assoc, lemma_xor_swap, lemma_xor_zero};
use crate::field::gf8b;
use crate::tables::{TowerCoeff, cross_word, same_word};
use vstd::prelude::*;

verus! {

/// Pack two GF(2^16) broadcast words into one 4-byte tile: the low word for
/// the even GF(2^16) lane, the high word for the odd one.
pub fn pack32(lo: u16, hi: u16) -> (r: u32)
    ensures
        r == gf32::pack(lo, hi),
{
    (lo as u32) | ((hi as u32) << 16u32)
}

/// The four broadcast tiles of a GF(2^32) coefficient `c = c0 + c1*v`:
/// `same_a`/`cross_a` scale the source's two GF(2^16) lanes by
/// `[c0, c0 + c1]`, `same_b`/`cross_b` the half-swapped source's by
/// `[DELTA*c1, c1]`, each lane as its [`TowerCoeff`] words.
pub open spec fn tiles32(c: u32) -> Seq<u32> {
    let s0 = gf32::lo(c);
    let s1 = gf32::lo(c) ^ gf32::hi(c);
    let x0 = gf16::mul(gf32::DELTA, gf32::hi(c));
    let x1 = gf32::hi(c);
    seq![
        gf32::pack(same_word(s0), same_word(s1)),
        gf32::pack(cross_word(s0), cross_word(s1)),
        gf32::pack(same_word(x0), same_word(x1)),
        gf32::pack(cross_word(x0), cross_word(x1)),
    ]
}

/// The four 4-byte broadcast tiles for one GF(2^32) coefficient, built once
/// and reused across a whole buffer.
pub fn gf32_tiles(coeff: gf32::Elem) -> (r: [u32; 4])
    ensures
        r@ == tiles32(coeff.0),
{
    let (c0, c1) = coeff.components();
    let s0 = c0;
    let s1 = gf16::Elem(c0.0 ^ c1.0);
    let x0 = gf16::Elem(gf32::DELTA).mul(c1);
    let x1 = c1;
    let t0 = TowerCoeff::new(s0);
    let t1 = TowerCoeff::new(s1);
    let u0 = TowerCoeff::new(x0);
    let u1 = TowerCoeff::new(x1);
    let r = [
        pack32(t0.same, t1.same),
        pack32(t0.cross, t1.cross),
        pack32(u0.same, u1.same),
        pack32(u0.cross, u1.cross),
    ];
    assert(r@ == tiles32(coeff.0));
    r
}

/// The bytes a 32-bit broadcast of `tile` repeats, least significant first.
pub fn set1_tile(tile: u32) -> (r: [u8; 4])
    ensures
        r@ == seq![byte(tile, 0), byte(tile, 1), byte(tile, 2), byte(tile, 3)],
{
    let r = [
        (tile & 0xff) as u8,
        ((tile >> 8u32) & 0xff) as u8,
        ((tile >> 16u32) & 0xff) as u8,
        ((tile >> 24u32) & 0xff) as u8,
    ];
    assert(r@ == seq![byte(tile, 0), byte(tile, 1), byte(tile, 2), byte(tile, 3)]);
    r
}

/// The broadcast tiles of one coefficient, as the byte patterns the lane
/// multiply reads.
pub struct Lane32 {
    /// Scales the source.
    pub same_a: [u8; 4],
    /// Scales the source with adjacent bytes exchanged.
    pub cross_a: [u8; 4],
    /// Scales the source with its halves exchanged.
    pub same_b: [u8; 4],
    /// Scales the reversed source.
    pub cross_b: [u8; 4],
}

/// `lane` holds the byte patterns of `tiles`.
pub open spec fn lane_of(lane: Lane32, tiles: Seq<u32>) -> bool {
    &&& forall|k: int| 0 <= k < 4 ==> #[trigger] lane.same_a@[k] == byte(tiles[0], k)
    &&& forall|k: int| 0 <= k < 4 ==> #[trigger] lane.cross_a@[k] == byte(tiles[1], k)
    &&& forall|k: int| 0 <= k < 4 ==> #[trigger] lane.same_b@[k] == byte(tiles[2], k)
    &&& forall|k: int| 0 <= k < 4 ==> #[trigger] lane.cross_b@[k] == byte(tiles[3], k)
}

/// The byte patterns of four tiles.
pub fn lane32(tiles: [u32; 4]) -> (r: Lane32)
    ensures
        lane_of(r, tiles@),
{
    Lane32 {
        same_a: set1_tile(tiles[0]),
        cross_a: set1_tile(tiles[1]),
        same_b: set1_tile(tiles[2]),
        cross_b: set1_tile(tiles[3]),
    }
}

/// Byte `k` of the lane multiply: `sum_j tile_j[k] * x[k ^ j]`.
pub open spec fn conv32(lane: Lane32, x: Seq<u8>, k: int) -> u8 {
    let j1 = if k % 2 == 0 { k + 1 } else { k - 1 };
    let j2 = if k < 2 { k + 2 } else { k - 2 };
    let j3 = 3 - k;
    (gf_mul(0x1b, lane.same_a@[k], x[k]) ^ gf_mul(0x1b, lane.cross_a@[k], x[j1]) ^ gf_mul(
        0x1b,
        lane.same_b@[k],
        x[j2],
    ) ^ gf_mul(0x1b, lane.cross_b@[k], x[j3])) as u8
}

/// `coeff * x` for one element: four byte multiplies of the source under
/// its four shuffles.
pub fn scale32(x: [u8; 4], lane: &Lane32) -> (r: [u8; 4])
    ensures
        forall|k: int| 0 <= k < 4 ==> #[trigger] r@[k] == conv32(*lane, x@, k),
{
    let r = [
        gf_mul_exec(gf8b::RED, lane.same_a[0], x[0]) ^ gf_mul_exec(gf8b::RED, lane.cross_a[0], x[1])
            ^ gf_mul_exec(gf8b::RED, lane.same_b[0], x[2]) ^ gf_mul_exec(
            gf8b::RED,
            lane.cross_b[0],
            x[3],
        ),
        gf_mul_exec(gf8b::RED, lane.same_a[1], x[1]) ^ gf_mul_exec(gf8b::RED, lane.cross_a[1], x[0])
            ^ gf_mul_exec(gf8b::RED, lane.same_b[1], x[3]) ^ gf_mul_exec(
            gf8b::RED,
            lane.cross_b[1],
            x[2],
        ),
        gf_mul_exec(gf8b::RED, lane.same_a[2], x[2]) ^ gf_mul_exec(gf8b::RED, lane.cross_a[2], x[3])
            ^ gf_mul_exec(gf8b::RED, lane.same_b[2], x[0]) ^ gf_mul_exec(
            gf8b::RED,
            lane.cross_b[2],
            x[1],
        ),
        gf_mul_exec(gf8b::RED, lane.same_a[3], x[3]) ^ gf_mul_exec(gf8b::RED, lane.cross_a[3], x[2])
            ^ gf_mul_exec(gf8b::RED, lane.same_b[3], x[1]) ^ gf_mul_exec(
            gf8b::RED,
            lane.cross_b[3],
            x[0],
        ),
    ];
    assert forall|k: int| 0 <= k < 4 implies #[trigger] r@[k] == conv32(*lane, x@, k) by {
        if k == 0 {
        } else if k == 1 {
        } else if k == 2 {
        } else {
        }
    }
    r
}

/// The bytes of a tower word: `same_word(c) = [c0, c0 + c1]` and
/// `cross_word(c) = [DELTA*c1, c1]`.
proof fn lemma_words(c: u16)
    ensures
        gf16::lo(same_word(c)) == gf16::lo(c),
        gf16::hi(same_word(c)) == gf16::lo(c) ^ gf16::hi(c),
        gf16::lo(cross_word(c)) == gf_mul(0x1b, 0x20, gf16::hi(c)),
        gf16::hi(cross_word(c)) == gf16::hi(c),
{
    gf16::lemma_pack(gf16::lo(c), gf16::lo(c) ^ gf16::hi(c), 0, 0);
    gf16::lemma_pack(gf_mul(0x1b, 0x20, gf16::hi(c)), gf16::hi(c), 0, 0);
}

/// The two tower-word products of one GF(2^16) lane give `c * [a, b]`.
proof fn lemma_lane16(c: u16, a: u8, b: u8)
    ensures
        gf_mul(0x1b, gf16::lo(same_word(c)), a) ^ gf_mul(0x1b, gf16::lo(cross_word(c)), b) == m16(
            c,
            a,
            b,
            0,
        ),
        gf_mul(0x1b, gf16::hi(same_word(c)), b) ^ gf_mul(0x1b, gf16::hi(cross_word(c)), a) == m16(
            c,
            a,
            b,
            1,
        ),
{
    lemma_words(c);
    lemma_tower_scale(gf16::lo(c), gf16::hi(c), a, b);
}

/// A GF(2^16) coefficient product is additive in the coefficient.
proof fn lemma_m16_linear(c: u16, e: u16, a: u8, b: u8, t: int)
    ensures
        m16(c ^ e, a, b, t) == m16(c, a, b, t) ^ m16(e, a, b, t),
{
    gf16::lemma_pack(0, 0, c, e);
    lemma_mul_linear(gf16::lo(c), gf16::hi(c), gf16::lo(e), gf16::hi(e), a, b);
}

/// The lane multiply under the tiles of `c` is the GF(2^32) product.
pub proof fn lemma_scale32(c: u32, lane: Lane32, x: Seq<u8>, k: int)
    requires
        lane_of(lane, tiles32(c)),
        x.len() == 4,
        0 <= k < 4,
    ensures
        conv32(lane, x, k) == mul_byte(c, x[0], x[1], x[2], x[3], k),
{
    reveal(mul_byte);
    let c0 = gf32::lo(c);
    let c1 = gf32::hi(c);
    let s1 = c0 ^ c1;
    let d = gf16::mul(gf32::DELTA, c1);
    let t = tiles32(c);
    gf32::lemma_pack(same_word(c0), same_word(s1), 0, 0);
    gf32::lemma_pack(cross_word(c0), cross_word(s1), 0, 0);
    gf32::lemma_pack(same_word(d), same_word(c1), 0, 0);
    gf32::lemma_pack(cross_word(d), cross_word(c1), 0, 0);
    assert(lane.same_a@[k] == byte(t[0], k));
    assert(lane.cross_a@[k] == byte(t[1], k));
    assert(lane.same_b@[k] == byte(t[2], k));
    assert(lane.cross_b@[k] == byte(t[3], k));
    if k == 0 {
        lemma_lane16(c0, x[0], x[1]);
        lemma_lane16(d, x[2], x[3]);
        lemma_xor_assoc(
            gf_mul(0x1b, lane.same_a@[0], x[0]) ^ gf_mul(0x1b, lane.cross_a@[0], x[1]),
            gf_mul(0x1b, lane.same_b@[0], x[2]),
            gf_mul(0x1b, lane.cross_b@[0], x[3]),
        );
    } else if k == 1 {
        lemma_lane16(c0, x[0], x[1]);
        lemma_lane16(d, x[2], x[3]);
        lemma_xor_assoc(
            gf_mul(0x1b, lane.same_a@[1], x[1]) ^ gf_mul(0x1b, lane.cross_a@[1], x[0]),
            gf_mul(0x1b, lane.same_b@[1], x[3]),
            gf_mul(0x1b, lane.cross_b@[1], x[2]),
        );
    } else if k == 2 {
        lemma_lane16(s1, x[2], x[3]);
        lemma_lane16(c1, x[0], x[1]);
        lemma_m16_linear(c0, c1, x[2], x[3], 0);
        lemma_xor_assoc(
            gf_mul(0x1b, lane.same_a@[2], x[2]) ^ gf_mul(0x1b, lane.cross_a@[2], x[3]),
            gf_mul(0x1b, lane.same_b@[2], x[0]),
            gf_mul(0x1b, lane.cross_b@[2], x[1]),
        );
        lemma_xor_swap(m16(c0, x[2], x[3], 0), m16(c1, x[2], x[3], 0), m16(c1, x[0], x[1], 0), 0);
        lemma_xor_zero(m16(c1, x[2], x[3], 0));
        lemma_xor_zero(m16(c1, x[0], x[1], 0));
    } else {
        lemma_lane16(s1, x[2], x[3]);
        lemma_lane16(c1, x[0], x[1]);
        lemma_m16_linear(c0, c1, x[2], x[3], 1);
        lemma_xor_assoc(
            gf_mul(0x1b, lane.same_a@[3], x[3]) ^ gf_mul(0x1b, lane.cross_a@[3], x[2]),
            gf_mul(0x1b, lane.same_b@[3], x[1]),
            gf_mul(0x1b, lane.cross_b@[3], x[0]),
        );
        lemma_xor_swap(m16(c0, x[2], x[3], 1), m16(c1, x[2], x[3], 1), m16(c1, x[0], x[1], 1), 0);
        lemma_xor_zero(m16(c1, x[2], x[3], 1));
        lemma_xor_zero(m16(c1, x[0], x[1], 1));
    }
}

/// Byte `i` of `c * x` over a buffer of 4-byte elements.
pub open spec fn gf32_byte(c: u32, s: Seq<u8>, i: int) -> u8 {
    let b = i - i % 4;
    mul_byte(c, s[b], s[b + 1], s[b + 2], s[b + 3], i % 4)
}

/// `f` multiplies an element `[x0, x1, x2, x3]` by `c`.
pub open spec fn quad_scales<F: Fn(u8, u8, u8, u8) -> (u8, u8, u8, u8)>(f: F, c: u32) -> bool {
    &&& forall|x0: u8, x1: u8, x2: u8, x3: u8| f.requires((x0, x1, x2, x3))
    &&& forall|x0: u8, x1: u8, x2: u8, x3: u8, r: (u8, u8, u8, u8)|
        f.ensures((x0, x1, x2, x3), r) ==> r.0 == mul_byte(c, x0, x1, x2, x3, 0) && r.1 == mul_byte(
            c,
            x0,
            x1,
            x2,
            x3,
            1,
        ) && r.2 == mul_byte(c, x0, x1, x2, x3, 2) && r.3 == mul_byte(c, x0, x1, x2, x3, 3)
}

/// Multiply the elements of a window by `c`: `dst[dbase + k]` becomes byte
/// `sbase + k` of `c * src`, added to the old byte when `accumulate`.
fn quads_span<F: Fn(u8, u8, u8, u8) -> (u8, u8, u8, u8)>(
    dst: &mut [u8],
    dbase: usize,
    src: &[u8],
    sbase: usize,
    nbytes: usize,
    f: F,
    Ghost(c): Ghost<u32>,
    accumulate: bool,
)
    requires
        dbase + nbytes <= old(dst)@.len(),
        sbase + nbytes <= src@.len(),
        sbase % 4 == 0,
        nbytes % 4 == 0,
        quad_scales(f, c),
    ensures
        final(dst)@.len() == old(dst)@.len(),
        forall|k: int|
            0 <= k < nbytes ==> #[trigger] final(dst)@[dbase + k] == (if accumulate {
                old(dst)@[dbase + k]
            } else {
                0u8
            }) ^ gf32_byte(c, src@, sbase + k),
        forall|j: int|
            0 <= j < old(dst)@.len() && !(dbase <= j < dbase + nbytes)
                ==> #[trigger] final(dst)@[j] == old(dst)@[j],
{
    let total = dst.len();
    let slen = src.len();
    let mut k: usize = 0;
    while k < nbytes
        invariant
            total == old(dst)@.len(),
            slen == src@.len(),
            dbase + nbytes <= total,
            sbase + nbytes <= slen,
            sbase % 4 == 0,
            nbytes % 4 == 0,
            k % 4 == 0,
            k <= nbytes,
            quad_scales(f, c),
            dst@.len() == total,
            forall|t: int|
                0 <= t < k ==> #[trigger] dst@[dbase + t] == (if accumulate {
                    old(dst)@[dbase + t]
                } else {
                    0u8
                }) ^ gf32_byte(c, src@, sbase + t),
            forall|j: int|
                0 <= j < total && !(dbase <= j < dbase + k) ==> #[trigger] dst@[j] == old(dst)@[j],
        decreases nbytes - k,
    {
        let (r0, r1, r2, r3) = f(src[sbase + k], src[sbase + k + 1], src[sbase + k + 2], src[sbase
            + k + 3]);
        if accumulate {
            dst[dbase + k] = dst[dbase + k] ^ r0;
            dst[dbase + k + 1] = dst[dbase + k + 1] ^ r1;
            dst[dbase + k + 2] = dst[dbase + k + 2] ^ r2;
            dst[dbase + k + 3] = dst[dbase + k + 3] ^ r3;
        } else {
            dst[dbase + k] = r0;
            dst[dbase + k + 1] = r1;
            dst[dbase + k + 2] = r2;
            dst[dbase + k + 3] = r3;
            proof {
                lemma_xor_zero(r0);
                lemma_xor_zero(r1);
                lemma_xor_zero(r2);
                lemma_xor_zero(r3);
            }
        }
        let ghost i0 = sbase + k;
        assert(i0 % 4 == 0 && (i0 + 1) % 4 == 1 && (i0 + 2) % 4 == 2 && (i0 + 3) % 4 == 3);
        assert(gf32_byte(c, src@, sbase + k) == r0);
        assert(gf32_byte(c, src@, sbase + k + 1) == r1);
        assert(gf32_byte(c, src@, sbase + k + 2) == r2);
        assert(gf32_byte(c, src@, sbase + k + 3) == r3);
        k += 4;
    }
}

/// Multiply the elements of a window in place by `c`.
fn quads_assign_span<F: Fn(u8, u8, u8, u8) -> (u8, u8, u8, u8)>(
    dst: &mut [u8],
    base: usize,
    nbytes: usize,
    f: F,
    Ghost(c): Ghost<u32>,
)
    requires
        base + nbytes <= old(dst)@.len(),
        base % 4 == 0,
        nbytes % 4 == 0,
        quad_scales(f, c),
    ensures
        final(dst)@.len() == old(dst)@.len(),
        forall|k: int|
            0 <= k < nbytes ==> #[trigger] final(dst)@[base + k] == gf32_byte(
                c,
                old(dst)@,
                base + k,
            ),
        forall|j: int|
            0 <= j < old(dst)@.len() && !(base <= j < base + nbytes)
                ==> #[trigger] final(dst)@[j] == old(dst)@[j],
{
    let total = dst.len();
    let mut k: usize = 0;
    while k < nbytes
        invariant
            total == old(dst)@.len(),
            base + nbytes <= total,
            base % 4 == 0,
            nbytes % 4 == 0,
            k % 4 == 0,
            k <= nbytes,
            quad_scales(f, c),
            dst@.len() == total,
            forall|t: int| 0 <= t < k ==> #[trigger] dst@[base + t] == gf32_byte(c, old(dst)@, base + t),
            forall|j: int|
                0 <= j < total && !(base <= j < base + k) ==> #[trigger] dst@[j] == old(dst)@[j],
        decreases nbytes - k,
    {
        let (r0, r1, r2, r3) = f(dst[base + k], dst[base + k + 1], dst[base + k + 2], dst[base + k
            + 3]);
        dst[base + k] = r0;
        dst[base + k + 1] = r1;
        dst[base + k + 2] = r2;
        dst[base + k + 3] = r3;
        let ghost i0 = base + k;
        assert(i0 % 4 == 0 && (i0 + 1) % 4 == 1 && (i0 + 2) % 4 == 2 && (i0 + 3) % 4 == 3);
        assert(gf32_byte(c, old(dst)@, base + k) == r0);
        assert(gf32_byte(c, old(dst)@, base + k + 1) == r1);
        assert(gf32_byte(c, old(dst)@, base + k + 2) == r2);
        assert(gf32_byte(c, old(dst)@, base + k + 3) == r3);
        k += 4;
    }
}

/// One element through the lane multiply.
fn lane_product(lane: &Lane32, x0: u8, x1: u8, x2: u8, x3: u8, Ghost(c): Ghost<u32>) -> (r: (
    u8,
    u8,
    u8,
    u8,
))
    requires
        lane_of(*lane, tiles32(c)),
    ensures
        r.0 == mul_byte(c, x0, x1, x2, x3, 0),
        r.1 == mul_byte(c, x0, x1, x2, x3, 1),
        r.2 == mul_byte(c, x0, x1, x2, x3, 2),
        r.3 == mul_byte(c, x0, x1, x2, x3, 3),
{
    let x = [x0, x1, x2, x3];
    let r = scale32(x, lane);
    proof {
        lemma_scale32(c, *lane, x@, 0);
        lemma_scale32(c, *lane, x@, 1);
        lemma_scale32(c, *lane, x@, 2);
        lemma_scale32(c, *lane, x@, 3);
    }
    (r[0], r[1], r[2], r[3])
}

/// `after` is `before` plus `c * src`, element by element.
pub open spec fn gf32_added(before: Seq<u8>, after: Seq<u8>, c: u32, src: Seq<u8>) -> bool {
    &&& after.len() == before.len()
    &&& forall|i: int| 0 <= i < before.len() ==> #[trigger] after[i] == before[i] ^ gf32_byte(c, src, i)
}

/// `after` is `c * src`, element by element.
pub open spec fn gf32_scaled(after: Seq<u8>, c: u32, src: Seq<u8>) -> bool {
    forall|i: int| 0 <= i < after.len() ==> #[trigger] after[i] == gf32_byte(c, src, i)
}

/// `dst ^= coeff * src` with `GF2P8MULB` over 32-byte lanes, the tail by
/// the portable scalar multiply, for a caller whose dispatch already
/// established AVX2 and GFNI. `tiles` are the coefficient's
/// [`gf32_tiles`].
pub fn mul_add_gfni(dst: &mut [u8], coeff: gf32::Elem, tiles: [u32; 4], src: &[u8])
    requires
        old(dst)@.len() == src@.len(),
        old(dst)@.len() % 4 == 0,
        tiles@ == tiles32(coeff.0),
    ensures
        gf32_added(old(dst)@, final(dst)@, coeff.0, src@),
{
    let ghost c = coeff.0;
    let lane = lane32(tiles);
    let f = |x0: u8, x1: u8, x2: u8, x3: u8| -> (r: (u8, u8, u8, u8))
        ensures
            r.0 == mul_byte(c, x0, x1, x2, x3, 0),
            r.1 == mul_byte(c, x0, x1, x2, x3, 1),
            r.2 == mul_byte(c, x0, x1, x2, x3, 2),
            r.3 == mul_byte(c, x0, x1, x2, x3, 3),
        { lane_product(&lane, x0, x1, x2, x3, Ghost(c)) };
    let g = |x0: u8, x1: u8, x2: u8, x3: u8| -> (r: (u8, u8, u8, u8))
        ensures
            r.0 == mul_byte(c, x0, x1, x2, x3, 0),
            r.1 == mul_byte(c, x0, x1, x2, x3, 1),
            r.2 == mul_byte(c, x0, x1, x2, x3, 2),
            r.3 == mul_byte(c, x0, x1, x2, x3, 3),
        { mul_bytes(coeff.0, x0, x1, x2, x3) };
    let n = dst.len();
    let body = n - n % 32;
    quads_span(dst, 0, src, 0, body, f, Ghost(c), true);
    let ghost mid = dst@;
    quads_span(dst, body, src, body, n - body, g, Ghost(c), true);
    assert forall|i: int| 0 <= i < n implies #[trigger] dst@[i] == old(dst)@[i] ^ gf32_byte(
        c,
        src@,
        i,
    ) by {
        if i < body {
            assert(mid[0 + i] == old(dst)@[0 + i] ^ gf32_byte(c, src@, 0 + i));
        } else {
            assert(dst@[body + (i - body)] == mid[body + (i - body)] ^ gf32_byte(
                c,
                src@,
                body + (i - body),
            ));
        }
    }
}

/// `dst = coeff * dst` with `GF2P8MULB` over 32-byte lanes.
pub fn mul_assign_gfni(dst: &mut [u8], coeff: gf32::Elem, tiles: [u32; 4])
    requires
        old(dst)@.len() % 4 == 0,
        tiles@ == tiles32(coeff.0),
    ensures
        final(dst)@.len() == old(dst)@.len(),
        gf32_scaled(final(dst)@, coeff.0, old(dst)@),
{
    let ghost c = coeff.0;
    let lane = lane32(tiles);
    let f = |x0: u8, x1: u8, x2: u8, x3: u8| -> (r: (u8, u8, u8, u8))
        ensures
            r.0 == mul_byte(c, x0, x1, x2, x3, 0),
            r.1 == mul_byte(c, x0, x1, x2, x3, 1),
            r.2 == mul_byte(c, x0, x1, x2, x3, 2),
            r.3 == mul_byte(c, x0, x1, x2, x3, 3),
        { lane_product(&lane, x0, x1, x2, x3, Ghost(c)) };
    let n = dst.len();
    quads_assign_span(dst, 0, n, f, Ghost(c));
    assert forall|i: int| 0 <= i < n implies #[trigger] dst@[i] == gf32_byte(c, old(dst)@, i) by {
        assert(dst@[0 + i] == gf32_byte(c, old(dst)@, 0 + i));
    }
}

/// `dst = coeff * src` with `GF2P8MULB` over 32-byte lanes, out of place.
pub fn mul_into_gfni(dst: &mut [u8], coeff: gf32::Elem, tiles: [u32; 4], src: &[u8])
    requires
        old(dst)@.len() == src@.len(),
        old(dst)@.len() % 4 == 0,
        tiles@ == tiles32(coeff.0),
    ensures
        final(dst)@.len() == old(dst)@.len(),
        gf32_scaled(final(dst)@, coeff.0, src@),
{
    let ghost c = coeff.0;
    let lane = lane32(tiles);
    let f = |x0: u8, x1: u8, x2: u8, x3: u8| -> (r: (u8, u8, u8, u8))
        ensures
            r.0 == mul_byte(c, x0, x1, x2, x3, 0),
            r.1 == mul_byte(c, x0, x1, x2, x3, 1),
            r.2 == mul_byte(c, x0, x1, x2, x3, 2),
            r.3 == mul_byte(c, x0, x1, x2, x3, 3),
        { lane_product(&lane, x0, x1, x2, x3, Ghost(c)) };
    let g = |x0: u8, x1: u8, x2: u8, x3: u8| -> (r: (u8, u8, u8, u8))
        ensures
            r.0 == mul_byte(c, x0, x1, x2, x3, 0),
            r.1 == mul_byte(c, x0, x1, x2, x3, 1),
            r.2 == mul_byte(c, x0, x1, x2, x3, 2),
            r.3 == mul_byte(c, x0, x1, x2, x3, 3),
        { mul_bytes(coeff.0, x0, x1, x2, x3) };
    let n = dst.len();
    let body = n - n % 32;
    quads_span(dst, 0, src, 0, body, f, Ghost(c), false);
    let ghost mid = dst@;
    quads_span(dst, body, src, body, n - body, g, Ghost(c), false);
    assert forall|i: int| 0 <= i < n implies #[trigger] dst@[i] == gf32_byte(c, src@, i) by {
        if i < body {
            assert(mid[0 + i] == 0u8 ^ gf32_byte(c, src@, 0 + i));
        } else {
            assert(dst@[body + (i - body)] == 0u8 ^ gf32_byte(c, src@, body + (i - body)));
        }
        lemma_xor_zero(gf32_byte(c, src@, i));
    }
}

} // verus!
