//! GF(2^64) tower kernels for x86 / `x86_64`.
//!
//! One level up from GF(2^32): two GF(2^32) lane multiplies under a
//! period-2 coefficient, one of the source and one of the source with its
//! GF(2^32) halves exchanged. Unrolled, byte `k` of `c * x` is
//! `sum_j tile_j[k] * x[k ^ j]` over eight 8-byte tiles, the source under
//! its eight byte shuffles.

use super::gf32::{Lane32, conv32, gf32_tiles, lane_of as lane32_of, lemma_scale32, tiles32};
use crate::field::gf32;
use crate::field::gf64::{self, byte, m32, mul_byte, mul_bytes};
use crate::field::gf8::{gf_mul, gf_mul_exec, lemma_xor_assoc, lemma_xor_swap, lemma_xor_zero};
use crate::field::gf8b;
use vstd::prelude::*;

verus! {

/// Pack two GF(2^32) tiles into one 8-byte tile: the low tile for the even
/// GF(2^32) lane, the high tile for the odd one.
pub fn pack64(lo: u32, hi: u32) -> (r: u64)
    ensures
        r == gf64::pack(lo, hi),
{
    (lo as u64) | ((hi as u64) << 32u64)
}

/// The eight broadcast tiles of a GF(2^64) coefficient `c = c0 + c1*w`:
/// the first four scale the source's two GF(2^32) lanes by
/// `[c0, c0 + c1]`, the last four the half-swapped source's by
/// `[DELTA*c1, c1]`, each lane as its GF(2^32) tiles.
pub open spec fn tiles64(c: u64) -> Seq<u64> {
    let s0 = tiles32(gf64::lo(c));
    let s1 = tiles32(gf64::lo(c) ^ gf64::hi(c));
    let x0 = tiles32(gf32::mul(gf64::DELTA, gf64::hi(c)));
    let x1 = tiles32(gf64::hi(c));
    seq![
        gf64::pack(s0[0], s1[0]),
        gf64::pack(s0[1], s1[1]),
        gf64::pack(s0[2], s1[2]),
        gf64::pack(s0[3], s1[3]),
        gf64::pack(x0[0], x1[0]),
        gf64::pack(x0[1], x1[1]),
        gf64::pack(x0[2], x1[2]),
        gf64::pack(x0[3], x1[3]),
    ]
}

/// The eight 8-byte broadcast tiles for one GF(2^64) coefficient.
pub fn gf64_tiles(coeff: gf64::Elem) -> (r: [u64; 8])
    ensures
        r@ == tiles64(coeff.0),
{
    let (c0, c1) = coeff.components();
    let s1 = gf32::Elem(c0.0 ^ c1.0);
    let x0 = gf32::Elem(gf64::DELTA).mul(c1);
    let same0 = gf32_tiles(c0);
    let same1 = gf32_tiles(s1);
    let cross0 = gf32_tiles(x0);
    let cross1 = gf32_tiles(c1);
    let r = [
        pack64(same0[0], same1[0]),
        pack64(same0[1], same1[1]),
        pack64(same0[2], same1[2]),
        pack64(same0[3], same1[3]),
        pack64(cross0[0], cross1[0]),
        pack64(cross0[1], cross1[1]),
        pack64(cross0[2], cross1[2]),
        pack64(cross0[3], cross1[3]),
    ];
    assert(r@ == tiles64(coeff.0));
    r
}

/// The bytes a 64-bit broadcast of `tile` repeats, least significant first.
pub fn set1_tile(tile: u64) -> (r: [u8; 8])
    ensures
        forall|k: int| 0 <= k < 8 ==> #[trigger] r@[k] == byte(tile, k),
{
    let lo = (tile & 0xffff_ffff) as u32;
    let hi = (tile >> 32u64) as u32;
    let r = [
        (lo & 0xff) as u8,
        ((lo >> 8u32) & 0xff) as u8,
        ((lo >> 16u32) & 0xff) as u8,
        ((lo >> 24u32) & 0xff) as u8,
        (hi & 0xff) as u8,
        ((hi >> 8u32) & 0xff) as u8,
        ((hi >> 16u32) & 0xff) as u8,
        ((hi >> 24u32) & 0xff) as u8,
    ];
    assert forall|k: int| 0 <= k < 8 implies #[trigger] r@[k] == byte(tile, k) by {
        if k == 0 {
        } else if k == 1 {
        } else if k == 2 {
        } else if k == 3 {
        } else if k == 4 {
        } else if k == 5 {
        } else if k == 6 {
        } else {
        }
    }
    r
}

/// The broadcast tiles of one coefficient, as the byte patterns the lane
/// multiply reads.
pub struct Lane64 {
    /// Scales the source.
    pub same_a: [u8; 8],
    /// Scales the source with adjacent bytes exchanged.
    pub cross_a: [u8; 8],
    /// Scales the source with its 2-byte halves exchanged.
    pub same_b: [u8; 8],
    /// Scales the source with each 4-byte group reversed.
    pub cross_b: [u8; 8],
    /// Scales the source with its 4-byte halves exchanged.
    pub same_c: [u8; 8],
    /// Scales the 4-byte-swapped source with adjacent bytes exchanged.
    pub cross_c: [u8; 8],
    /// Scales the 4-byte-swapped source with its 2-byte halves exchanged.
    pub same_d: [u8; 8],
    /// Scales the reversed source.
    pub cross_d: [u8; 8],
}

/// `lane` holds the byte patterns of `tiles`.
pub open spec fn lane_of(lane: Lane64, tiles: Seq<u64>) -> bool {
    &&& forall|k: int| 0 <= k < 8 ==> #[trigger] lane.same_a@[k] == byte(tiles[0], k)
    &&& forall|k: int| 0 <= k < 8 ==> #[trigger] lane.cross_a@[k] == byte(tiles[1], k)
    &&& forall|k: int| 0 <= k < 8 ==> #[trigger] lane.same_b@[k] == byte(tiles[2], k)
    &&& forall|k: int| 0 <= k < 8 ==> #[trigger] lane.cross_b@[k] == byte(tiles[3], k)
    &&& forall|k: int| 0 <= k < 8 ==> #[trigger] lane.same_c@[k] == byte(tiles[4], k)
    &&& forall|k: int| 0 <= k < 8 ==> #[trigger] lane.cross_c@[k] == byte(tiles[5], k)
    &&& forall|k: int| 0 <= k < 8 ==> #[trigger] lane.same_d@[k] == byte(tiles[6], k)
    &&& forall|k: int| 0 <= k < 8 ==> #[trigger] lane.cross_d@[k] == byte(tiles[7], k)
}

/// The byte patterns of eight tiles.
pub fn lane64(tiles: [u64; 8]) -> (r: Lane64)
    ensures
        lane_of(r, tiles@),
{
    Lane64 {
        same_a: set1_tile(tiles[0]),
        cross_a: set1_tile(tiles[1]),
        same_b: set1_tile(tiles[2]),
        cross_b: set1_tile(tiles[3]),
        same_c: set1_tile(tiles[4]),
        cross_c: set1_tile(tiles[5]),
        same_d: set1_tile(tiles[6]),
        cross_d: set1_tile(tiles[7]),
    }
}

/// `k ^ 1` for `0 <= k < 8`.
pub open spec fn flip1(k: int) -> int {
    if k % 2 == 0 {
        k + 1
    } else {
        k - 1
    }
}

/// `k ^ 2` for `0 <= k < 8`.
pub open spec fn flip2(k: int) -> int {
    if k % 4 < 2 {
        k + 2
    } else {
        k - 2
    }
}

/// `k ^ 4` for `0 <= k < 8`.
pub open spec fn flip4(k: int) -> int {
    if k < 4 {
        k + 4
    } else {
        k - 4
    }
}

/// The first four products of byte `k`: the tiles of the source and its
/// shuffles within each 4-byte group.
pub open spec fn conv_near(lane: Lane64, x: Seq<u8>, k: int) -> u8 {
    (gf_mul(0x1b, lane.same_a@[k], x[k]) ^ gf_mul(0x1b, lane.cross_a@[k], x[flip1(k)]) ^ gf_mul(
        0x1b,
        lane.same_b@[k],
        x[flip2(k)],
    ) ^ gf_mul(0x1b, lane.cross_b@[k], x[flip2(flip1(k))])) as u8
}

/// The last four products of byte `k`: the tiles of the 4-byte-swapped
/// source and its shuffles.
pub open spec fn conv_far(lane: Lane64, x: Seq<u8>, k: int) -> u8 {
    (gf_mul(0x1b, lane.same_c@[k], x[flip4(k)]) ^ gf_mul(0x1b, lane.cross_c@[k], x[flip4(flip1(k))])
        ^ gf_mul(0x1b, lane.same_d@[k], x[flip4(flip2(k))]) ^ gf_mul(
        0x1b,
        lane.cross_d@[k],
        x[flip4(flip2(flip1(k)))],
    )) as u8
}

/// Byte `k` of the lane multiply: `sum_j tile_j[k] * x[k ^ j]`.
pub open spec fn conv64(lane: Lane64, x: Seq<u8>, k: int) -> u8 {
    (conv_near(lane, x, k) ^ conv_far(lane, x, k)) as u8
}

/// One byte of the lane multiply.
fn conv_byte(lane: &Lane64, x: &[u8; 8], k: usize) -> (r: u8)
    requires
        k < 8,
    ensures
        r == conv64(*lane, x@, k as int),
{
    let j1 = if k % 2 == 0 {
        k + 1
    } else {
        k - 1
    };
    let j2 = if k % 4 < 2 {
        k + 2
    } else {
        k - 2
    };
    let j3 = if j1 % 4 < 2 {
        j1 + 2
    } else {
        j1 - 2
    };
    let j4 = if k < 4 {
        k + 4
    } else {
        k - 4
    };
    let j5 = if j1 < 4 {
        j1 + 4
    } else {
        j1 - 4
    };
    let j6 = if j2 < 4 {
        j2 + 4
    } else {
        j2 - 4
    };
    let j7 = if j3 < 4 {
        j3 + 4
    } else {
        j3 - 4
    };
    let near = gf_mul_exec(gf8b::RED, lane.same_a[k], x[k]) ^ gf_mul_exec(
        gf8b::RED,
        lane.cross_a[k],
        x[j1],
    ) ^ gf_mul_exec(gf8b::RED, lane.same_b[k], x[j2]) ^ gf_mul_exec(
        gf8b::RED,
        lane.cross_b[k],
        x[j3],
    );
    let far = gf_mul_exec(gf8b::RED, lane.same_c[k], x[j4]) ^ gf_mul_exec(
        gf8b::RED,
        lane.cross_c[k],
        x[j5],
    ) ^ gf_mul_exec(gf8b::RED, lane.same_d[k], x[j6]) ^ gf_mul_exec(
        gf8b::RED,
        lane.cross_d[k],
        x[j7],
    );
    near ^ far
}

/// `coeff * x` for one element: eight byte multiplies of the source under
/// its eight shuffles.
pub fn scale64(x: [u8; 8], lane: &Lane64) -> (r: [u8; 8])
    ensures
        forall|k: int| 0 <= k < 8 ==> #[trigger] r@[k] == conv64(*lane, x@, k),
{
    let r = [
        conv_byte(lane, &x, 0),
        conv_byte(lane, &x, 1),
        conv_byte(lane, &x, 2),
        conv_byte(lane, &x, 3),
        conv_byte(lane, &x, 4),
        conv_byte(lane, &x, 5),
        conv_byte(lane, &x, 6),
        conv_byte(lane, &x, 7),
    ];
    assert forall|k: int| 0 <= k < 8 implies #[trigger] r@[k] == conv64(*lane, x@, k) by {
        if k == 0 {
        } else if k == 1 {
        } else if k == 2 {
        } else if k == 3 {
        } else if k == 4 {
        } else if k == 5 {
        } else if k == 6 {
        } else {
        }
    }
    r
}

/// The GF(2^32) lane of a 64-bit lane: tiles `j0 .. j0 + 3` read at byte
/// offset `off` (0 or 4).
pub open spec fn half_lane(t: Seq<u64>, j0: int, off: int) -> Lane32 {
    Lane32 {
        same_a: [
            byte(t[j0], off),
            byte(t[j0], off + 1),
            byte(t[j0], off + 2),
            byte(t[j0], off + 3),
        ],
        cross_a: [
            byte(t[j0 + 1], off),
            byte(t[j0 + 1], off + 1),
            byte(t[j0 + 1], off + 2),
            byte(t[j0 + 1], off + 3),
        ],
        same_b: [
            byte(t[j0 + 2], off),
            byte(t[j0 + 2], off + 1),
            byte(t[j0 + 2], off + 2),
            byte(t[j0 + 2], off + 3),
        ],
        cross_b: [
            byte(t[j0 + 3], off),
            byte(t[j0 + 3], off + 1),
            byte(t[j0 + 3], off + 2),
            byte(t[j0 + 3], off + 3),
        ],
    }
}

/// The half lanes of the GF(2^64) tiles are the GF(2^32) tiles of the
/// lane coefficients.
proof fn lemma_half_lanes(c: u64)
    ensures
        lane32_of(half_lane(tiles64(c), 0, 0), tiles32(gf64::lo(c))),
        lane32_of(half_lane(tiles64(c), 0, 4), tiles32(gf64::lo(c) ^ gf64::hi(c))),
        lane32_of(half_lane(tiles64(c), 4, 0), tiles32(gf32::mul(gf64::DELTA, gf64::hi(c)))),
        lane32_of(half_lane(tiles64(c), 4, 4), tiles32(gf64::hi(c))),
{
    let t = tiles64(c);
    let s0 = tiles32(gf64::lo(c));
    let s1 = tiles32(gf64::lo(c) ^ gf64::hi(c));
    let x0 = tiles32(gf32::mul(gf64::DELTA, gf64::hi(c)));
    let x1 = tiles32(gf64::hi(c));
    gf64::lemma_pack(s0[0], s1[0], 0, 0);
    gf64::lemma_pack(s0[1], s1[1], 0, 0);
    gf64::lemma_pack(s0[2], s1[2], 0, 0);
    gf64::lemma_pack(s0[3], s1[3], 0, 0);
    gf64::lemma_pack(x0[0], x1[0], 0, 0);
    gf64::lemma_pack(x0[1], x1[1], 0, 0);
    gf64::lemma_pack(x0[2], x1[2], 0, 0);
    gf64::lemma_pack(x0[3], x1[3], 0, 0);
}

/// The near half of byte `k < 4` is the low lane's GF(2^32) multiply of
/// the low source half.
proof fn lemma_near_low(lane: Lane64, x: Seq<u8>, k: int, half: Lane32)
    requires
        x.len() == 8,
        0 <= k < 4,
        half.same_a@[k] == lane.same_a@[k],
        half.cross_a@[k] == lane.cross_a@[k],
        half.same_b@[k] == lane.same_b@[k],
        half.cross_b@[k] == lane.cross_b@[k],
    ensures
        conv_near(lane, x, k) == conv32(half, x.subrange(0, 4), k),
{
}

/// The far half of byte `k < 4` is the crossed lane's GF(2^32) multiply of
/// the high source half.
proof fn lemma_far_low(lane: Lane64, x: Seq<u8>, k: int, half: Lane32)
    requires
        x.len() == 8,
        0 <= k < 4,
        half.same_a@[k] == lane.same_c@[k],
        half.cross_a@[k] == lane.cross_c@[k],
        half.same_b@[k] == lane.same_d@[k],
        half.cross_b@[k] == lane.cross_d@[k],
    ensures
        conv_far(lane, x, k) == conv32(half, x.subrange(4, 8), k),
{
}

/// The near half of byte `k >= 4` is the high lane's GF(2^32) multiply of
/// the high source half.
proof fn lemma_near_high(lane: Lane64, x: Seq<u8>, k: int, half: Lane32)
    requires
        x.len() == 8,
        4 <= k < 8,
        half.same_a@[k - 4] == lane.same_a@[k],
        half.cross_a@[k - 4] == lane.cross_a@[k],
        half.same_b@[k - 4] == lane.same_b@[k],
        half.cross_b@[k - 4] == lane.cross_b@[k],
    ensures
        conv_near(lane, x, k) == conv32(half, x.subrange(4, 8), k - 4),
{
}

/// The far half of byte `k >= 4` is the crossed lane's GF(2^32) multiply
/// of the low source half.
proof fn lemma_far_high(lane: Lane64, x: Seq<u8>, k: int, half: Lane32)
    requires
        x.len() == 8,
        4 <= k < 8,
        half.same_a@[k - 4] == lane.same_c@[k],
        half.cross_a@[k - 4] == lane.cross_c@[k],
        half.same_b@[k - 4] == lane.same_d@[k],
        half.cross_b@[k - 4] == lane.cross_d@[k],
    ensures
        conv_far(lane, x, k) == conv32(half, x.subrange(0, 4), k - 4),
{
}

/// The lane multiply under the tiles of `c` is the GF(2^64) product.
pub proof fn lemma_scale64(c: u64, lane: Lane64, x: Seq<u8>, k: int)
    requires
        lane_of(lane, tiles64(c)),
        x.len() == 8,
        0 <= k < 8,
    ensures
        conv64(lane, x, k) == mul_byte(c, x[0], x[1], x[2], x[3], x[4], x[5], x[6], x[7], k),
{
    reveal(mul_byte);
    let t = tiles64(c);
    let c0 = gf64::lo(c);
    let c1 = gf64::hi(c);
    let d = gf32::mul(gf64::DELTA, c1);
    let lo_x = x.subrange(0, 4);
    let hi_x = x.subrange(4, 8);
    lemma_half_lanes(c);
    if k < 4 {
        let near = half_lane(t, 0, 0);
        let far = half_lane(t, 4, 0);
        lemma_near_low(lane, x, k, near);
        lemma_far_low(lane, x, k, far);
        lemma_scale32(c0, near, lo_x, k);
        lemma_scale32(d, far, hi_x, k);
    } else {
        let near = half_lane(t, 0, 4);
        let far = half_lane(t, 4, 4);
        lemma_near_high(lane, x, k, near);
        lemma_far_high(lane, x, k, far);
        lemma_scale32(c0 ^ c1, near, hi_x, k - 4);
        lemma_scale32(c1, far, lo_x, k - 4);
        gf32::lemma_mul_byte_linear(c0, c1, x[4], x[5], x[6], x[7], k - 4);
        let a = m32(c0, x[4], x[5], x[6], x[7], k - 4);
        let b = m32(c1, x[4], x[5], x[6], x[7], k - 4);
        let p = m32(c1, x[0], x[1], x[2], x[3], k - 4);
        lemma_xor_swap(a, b, p, 0);
        lemma_xor_zero(b);
        lemma_xor_zero(p);
    }
}

/// Byte `i` of `c * x` over a buffer of 8-byte elements.
#[verifier::opaque]
pub open spec fn gf64_byte(c: u64, s: Seq<u8>, i: int) -> u8 {
    let b = i - i % 8;
    mul_byte(c, s[b], s[b + 1], s[b + 2], s[b + 3], s[b + 4], s[b + 5], s[b + 6], s[b + 7], i % 8)
}

/// `r` is `c * x` for the element with bytes `x`.
pub open spec fn oct_product(c: u64, x: Seq<u8>, r: Seq<u8>) -> bool {
    forall|k: int|
        0 <= k < 8 ==> #[trigger] r[k] == mul_byte(
            c,
            x[0],
            x[1],
            x[2],
            x[3],
            x[4],
            x[5],
            x[6],
            x[7],
            k,
        )
}

/// `f` multiplies an element by `c`.
pub open spec fn oct_scales<F: Fn([u8; 8]) -> [u8; 8]>(f: F, c: u64) -> bool {
    &&& forall|x: [u8; 8]| f.requires((x,))
    &&& forall|x: [u8; 8], r: [u8; 8]| f.ensures((x,), r) ==> oct_product(c, x@, r@)
}

/// The element of `s` whose bytes start at `b`.
fn load8(s: &[u8], b: usize) -> (r: [u8; 8])
    requires
        b + 8 <= s@.len(),
    ensures
        forall|k: int| 0 <= k < 8 ==> #[trigger] r@[k] == s@[b + k],
{
    let r = [s[b], s[b + 1], s[b + 2], s[b + 3], s[b + 4], s[b + 5], s[b + 6], s[b + 7]];
    assert forall|k: int| 0 <= k < 8 implies #[trigger] r@[k] == s@[b + k] by {
        if k == 0 {
        } else if k == 1 {
        } else if k == 2 {
        } else if k == 3 {
        } else if k == 4 {
        } else if k == 5 {
        } else if k == 6 {
        } else {
        }
    }
    r
}

/// Multiply the elements of a window by `c`: `dst[dbase + k]` becomes byte
/// `sbase + k` of `c * src`, added to the old byte when `accumulate`.
fn octs_span<F: Fn([u8; 8]) -> [u8; 8]>(
    dst: &mut [u8],
    dbase: usize,
    src: &[u8],
    sbase: usize,
    nbytes: usize,
    f: F,
    Ghost(c): Ghost<u64>,
    accumulate: bool,
)
    requires
        dbase + nbytes <= old(dst)@.len(),
        sbase + nbytes <= src@.len(),
        sbase % 8 == 0,
        nbytes % 8 == 0,
        oct_scales(f, c),
    ensures
        final(dst)@.len() == old(dst)@.len(),
        forall|k: int|
            0 <= k < nbytes ==> #[trigger] final(dst)@[dbase + k] == (if accumulate {
                old(dst)@[dbase + k] ^ gf64_byte(c, src@, sbase + k)
            } else {
                gf64_byte(c, src@, sbase + k)
            }),
        forall|j: int|
            0 <= j < old(dst)@.len() && !(dbase <= j < dbase + nbytes)
                ==> #[trigger] final(dst)@[j] == old(dst)@[j],
{
    let total = dst.len();
    let slen = src.len();
    let mut k: usize = 0;
    while k < nbytes
        invariant
            total == old(dst)@.len(),
            slen == src@.len(),
            dbase + nbytes <= total,
            sbase + nbytes <= slen,
            sbase % 8 == 0,
            nbytes % 8 == 0,
            k % 8 == 0,
            k <= nbytes,
            oct_scales(f, c),
            dst@.len() == total,
            forall|t: int|
                0 <= t < k ==> #[trigger] dst@[dbase + t] == (if accumulate {
                    old(dst)@[dbase + t] ^ gf64_byte(c, src@, sbase + t)
                } else {
                    gf64_byte(c, src@, sbase + t)
                }),
            forall|j: int|
                0 <= j < total && !(dbase <= j < dbase + k) ==> #[trigger] dst@[j] == old(dst)@[j],
        decreases nbytes - k,
    {
        proof {
            reveal(gf64_byte);
        }
        let x = load8(src, sbase + k);
        let r = f(x);
        assert(oct_product(c, x@, r@));
        let ghost prev = dst@;
        let mut m: usize = 0;
        while m < 8
            invariant
                m <= 8,
                k + 8 <= nbytes,
                dbase + nbytes <= total,
                dst@.len() == total,
                prev.len() == total,
                forall|t: int|
                    0 <= t < m ==> #[trigger] dst@[dbase + k + t] == (if accumulate {
                        prev[dbase + k + t] ^ r@[t]
                    } else {
                        r@[t]
                    }),
                forall|j: int|
                    0 <= j < total && !(dbase + k <= j < dbase + k + m) ==> #[trigger] dst@[j]
                        == prev[j],
            decreases 8 - m,
        {
            if accumulate {
                dst[dbase + k + m] = dst[dbase + k + m] ^ r[m];
            } else {
                dst[dbase + k + m] = r[m];
            }
            m += 1;
        }
        assert forall|t: int| k <= t < k + 8 implies #[trigger] dst@[dbase + t] == (if accumulate {
            old(dst)@[dbase + t] ^ gf64_byte(c, src@, sbase + t)
        } else {
            gf64_byte(c, src@, sbase + t)
        }) by {
            let i = sbase + t;
            let b = sbase + k;
            assert(i % 8 == t - k && i - i % 8 == b);
            assert(dst@[dbase + k + (t - k)] == (if accumulate {
                prev[dbase + k + (t - k)] ^ r@[t - k]
            } else {
                r@[t - k]
            }));
            assert(r@[t - k] == mul_byte(
                c,
                x@[0],
                x@[1],
                x@[2],
                x@[3],
                x@[4],
                x@[5],
                x@[6],
                x@[7],
                t - k,
            ));
            assert(x@[0] == src@[b + 0] && x@[1] == src@[b + 1] && x@[2] == src@[b + 2] && x@[3]
                == src@[b + 3] && x@[4] == src@[b + 4] && x@[5] == src@[b + 5] && x@[6] == src@[b
                + 6] && x@[7] == src@[b + 7]);
        }
        k += 8;
    }
}

/// Multiply the elements of a window in place by `c`.
fn octs_assign_span<F: Fn([u8; 8]) -> [u8; 8]>(
    dst: &mut [u8],
    base: usize,
    nbytes: usize,
    f: F,
    Ghost(c): Ghost<u64>,
)
    requires
        base + nbytes <= old(dst)@.len(),
        base % 8 == 0,
        nbytes % 8 == 0,
        oct_scales(f, c),
    ensures
        final(dst)@.len() == old(dst)@.len(),
        forall|k: int|
            0 <= k < nbytes ==> #[trigger] final(dst)@[base + k] == gf64_byte(
                c,
                old(dst)@,
                base + k,
            ),
        forall|j: int|
            0 <= j < old(dst)@.len() && !(base <= j < base + nbytes)
                ==> #[trigger] final(dst)@[j] == old(dst)@[j],
{
    let total = dst.len();
    let mut k: usize = 0;
    while k < nbytes
        invariant
            total == old(dst)@.len(),
            base + nbytes <= total,
            base % 8 == 0,
            nbytes % 8 == 0,
            k % 8 == 0,
            k <= nbytes,
            oct_scales(f, c),
            dst@.len() == total,
            forall|t: int| 0 <= t < k ==> #[trigger] dst@[base + t] == gf64_byte(c, old(dst)@, base + t),
            forall|j: int|
                0 <= j < total && !(base <= j < base + k) ==> #[trigger] dst@[j] == old(dst)@[j],
        decreases nbytes - k,
    {
        proof {
            reveal(gf64_byte);
        }
        let x = load8(dst, base + k);
        let r = f(x);
        assert(oct_product(c, x@, r@));
        assert forall|t: int| 0 <= t < 8 implies #[trigger] x@[t] == old(dst)@[base + k + t] by {
            assert(dst@[base + k + t] == old(dst)@[base + k + t]);
        }
        let ghost prev = dst@;
        let mut m: usize = 0;
        while m < 8
            invariant
                m <= 8,
                k + 8 <= nbytes,
                base + nbytes <= total,
                dst@.len() == total,
                prev.len() == total,
                forall|t: int| 0 <= t < m ==> #[trigger] dst@[base + k + t] == r@[t],
                forall|j: int|
                    0 <= j < total && !(base + k <= j < base + k + m) ==> #[trigger] dst@[j]
                        == prev[j],
            decreases 8 - m,
        {
            dst[base + k + m] = r[m];
            m += 1;
        }
        assert forall|t: int| k <= t < k + 8 implies #[trigger] dst@[base + t] == gf64_byte(
            c,
            old(dst)@,
            base + t,
        ) by {
            let i = base + t;
            let b = base + k;
            assert(i % 8 == t - k && i - i % 8 == b);
            assert(dst@[base + k + (t - k)] == r@[t - k]);
            assert(r@[t - k] == mul_byte(
                c,
                x@[0],
                x@[1],
                x@[2],
                x@[3],
                x@[4],
                x@[5],
                x@[6],
                x@[7],
                t - k,
            ));
            assert(x@[0] == old(dst)@[b + 0] && x@[1] == old(dst)@[b + 1] && x@[2] == old(dst)@[b
                + 2] && x@[3] == old(dst)@[b + 3] && x@[4] == old(dst)@[b + 4] && x@[5] == old(
            dst)@[b + 5] && x@[6] == old(dst)@[b + 6] && x@[7] == old(dst)@[b + 7]);
        }
        k += 8;
    }
}

/// One element through the lane multiply.
fn lane_product(lane: &Lane64, x: [u8; 8], Ghost(c): Ghost<u64>) -> (r: [u8; 8])
    requires
        lane_of(*lane, tiles64(c)),
    ensures
        oct_product(c, x@, r@),
{
    let r = scale64(x, lane);
    assert forall|k: int| 0 <= k < 8 implies #[trigger] r@[k] == mul_byte(
        c,
        x@[0],
        x@[1],
        x@[2],
        x@[3],
        x@[4],
        x@[5],
        x@[6],
        x@[7],
        k,
    ) by {
        lemma_scale64(c, *lane, x@, k);
    }
    r
}

/// `after` is `before` plus `c * src`, element by element.
pub open spec fn gf64_added(before: Seq<u8>, after: Seq<u8>, c: u64, src: Seq<u8>) -> bool {
    &&& after.len() == before.len()
    &&& forall|i: int| 0 <= i < before.len() ==> #[trigger] after[i] == before[i] ^ gf64_byte(c, src, i)
}

/// `after` is `c * src`, element by element.
pub open spec fn gf64_scaled(after: Seq<u8>, c: u64, src: Seq<u8>) -> bool {
    forall|i: int| 0 <= i < after.len() ==> #[trigger] after[i] == gf64_byte(c, src, i)
}

/// `dst ^= coeff * src` with `GF2P8MULB` over 32-byte lanes, the tail by
/// the portable scalar multiply, for a caller whose dispatch already
/// established AVX2 and GFNI. `tiles` are the coefficient's
/// [`gf64_tiles`].
pub fn mul_add_gfni(dst: &mut [u8], coeff: gf64::Elem, tiles: [u64; 8], src: &[u8])
    requires
        old(dst)@.len() == src@.len(),
        old(dst)@.len() % 8 == 0,
        tiles@ == tiles64(coeff.0),
    ensures
        gf64_added(old(dst)@, final(dst)@, coeff.0, src@),
{
    let ghost c = coeff.0;
    let lane = lane64(tiles);
    let f = |x: [u8; 8]| -> (r: [u8; 8])
        ensures
            oct_product(c, x@, r@),
        { lane_product(&lane, x, Ghost(c)) };
    let g = |x: [u8; 8]| -> (r: [u8; 8])
        ensures
            oct_product(c, x@, r@),
        { mul_bytes(coeff.0, x) };
    let n = dst.len();
    let body = n - n % 32;
    octs_span(dst, 0, src, 0, body, f, Ghost(c), true);
    let ghost mid = dst@;
    octs_span(dst, body, src, body, n - body, g, Ghost(c), true);
    assert forall|i: int| 0 <= i < n implies #[trigger] dst@[i] == old(dst)@[i] ^ gf64_byte(
        c,
        src@,
        i,
    ) by {
        if i < body {
            assert(mid[0 + i] == old(dst)@[0 + i] ^ gf64_byte(c, src@, 0 + i));
        } else {
            assert(dst@[body + (i - body)] == mid[body + (i - body)] ^ gf64_byte(
                c,
                src@,
                body + (i - body),
            ));
        }
    }
}

/// `dst = coeff * dst` with `GF2P8MULB` over 32-byte lanes.
pub fn mul_assign_gfni(dst: &mut [u8], coeff: gf64::Elem, tiles: [u64; 8])
    requires
        old(dst)@.len() % 8 == 0,
        tiles@ == tiles64(coeff.0),
    ensures
        final(dst)@.len() == old(dst)@.len(),
        gf64_scaled(final(dst)@, coeff.0, old(dst)@),
{
    let ghost c = coeff.0;
    let ghost orig = dst@;
    let lane = lane64(tiles);
    let f = |x: [u8; 8]| -> (r: [u8; 8])
        ensures
            oct_product(c, x@, r@),
        { lane_product(&lane, x, Ghost(c)) };
    let n = dst.len();
    octs_assign_span(dst, 0, n, f, Ghost(c));
    assert forall|i: int| 0 <= i < n implies #[trigger] dst@[i] == gf64_byte(c, orig, i) by {
        assert(dst@[0 + i] == gf64_byte(c, orig, 0 + i));
    }
}

/// `dst = coeff * src` with `GF2P8MULB` over 32-byte lanes, out of place.
#[verifier::rlimit(80)]
pub fn mul_into_gfni(dst: &mut [u8], coeff: gf64::Elem, tiles: [u64; 8], src: &[u8])
    requires
        old(dst)@.len() == src@.len(),
        old(dst)@.len() % 8 == 0,
        tiles@ == tiles64(coeff.0),
    ensures
        final(dst)@.len() == old(dst)@.len(),
        gf64_scaled(final(dst)@, coeff.0, src@),
{
    let ghost c = coeff.0;
    let lane = lane64(tiles);
    let f = |x: [u8; 8]| -> (r: [u8; 8])
        ensures
            oct_product(c, x@, r@),
        { lane_product(&lane, x, Ghost(c)) };
    let g = |x: [u8; 8]| -> (r: [u8; 8])
        ensures
            oct_product(c, x@, r@),
        { mul_bytes(coeff.0, x) };
    let n = dst.len();
    let body = n - n % 32;
    octs_span(dst, 0, src, 0, body, f, Ghost(c), false);
    let ghost mid = dst@;
    octs_span(dst, body, src, body, n - body, g, Ghost(c), false);
    assert forall|i: int| 0 <= i < n implies #[trigger] dst@[i] == gf64_byte(c, src@, i) by {
        if i < body {
            assert(mid[0 + i] == gf64_byte(c, src@, 0 + i));
            assert(dst@[i] == mid[i]);
        } else {
            assert(dst@[body + (i - body)] == gf64_byte(c, src@, body + (i - body)));
        }
    }
}

} // verus!
