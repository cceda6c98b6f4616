//! Many sources into one destination: the gather family.
//!
//! `dst[i] ^= sum_t coeffs[t] * srcs[t][i]`. The GFNI forms walk the
//! destination in 128-byte tiles, every source folded into a tile before the
//! next tile starts, with source-fused 64/32-byte blocks on short multi-source
//! rows and a per-source remainder; the nibble forms take the sources four
//! at a time and reuse each group's tables across 64-byte tiles.

use super::nibble::{lookup_span, mul_add_avx2, mul_add_ssse3};
use super::{Affine8D, Blocked, Gfni, brem_span};
use crate::field::gf8::gf_mul;
use crate::field::gf8b::{self, Elem};
use crate::field::gf8d;
use crate::tables::{ScaleTable, lemma_lookup, scale_table};
use archmage::{X64V2Token, X64V3GfniCryptoToken, X64V3Token};
use crate::field::gf8::{lemma_xor_assoc, lemma_xor_zero};
use vstd::prelude::*;

verus! {

/// Term `t` of the gather at byte `i`: `coeffs[t] * srcs[t][i]`.
pub open spec fn gather_term<S: Blocked>(
    coeffs: Seq<S::Coeff>,
    srcs: Seq<&[u8]>,
    t: int,
    i: int,
) -> u8 {
    gf_mul(S::red(), S::value(coeffs[t]), srcs[t]@[i])
}

/// The sum of the `n` terms starting at term `first`, at byte `i`.
pub open spec fn span_sum<S: Blocked>(
    coeffs: Seq<S::Coeff>,
    srcs: Seq<&[u8]>,
    i: int,
    first: int,
    n: nat,
) -> u8
    decreases n,
{
    if n == 0 {
        0u8
    } else {
        (span_sum::<S>(coeffs, srcs, i, first, (n - 1) as nat) ^ gather_term::<S>(
            coeffs,
            srcs,
            first + n - 1,
            i,
        )) as u8
    }
}

/// `sum_t coeffs[t] * srcs[t][i]` over every term.
pub open spec fn gather_sum<S: Blocked>(coeffs: Seq<S::Coeff>, srcs: Seq<&[u8]>, i: int) -> u8 {
    span_sum::<S>(coeffs, srcs, i, 0, coeffs.len())
}

/// The first `a + b` terms are the first `a` plus the next `b`.
pub proof fn lemma_span_split<S: Blocked>(
    coeffs: Seq<S::Coeff>,
    srcs: Seq<&[u8]>,
    i: int,
    a: nat,
    b: nat,
)
    ensures
        span_sum::<S>(coeffs, srcs, i, 0, a + b) == span_sum::<S>(coeffs, srcs, i, 0, a)
            ^ span_sum::<S>(coeffs, srcs, i, a as int, b),
    decreases b,
{
    let x = span_sum::<S>(coeffs, srcs, i, 0, a);
    if b == 0 {
        lemma_xor_zero(x);
    } else {
        lemma_span_split::<S>(coeffs, srcs, i, a, (b - 1) as nat);
        let y = span_sum::<S>(coeffs, srcs, i, a as int, (b - 1) as nat);
        let z = gather_term::<S>(coeffs, srcs, a + b - 1, i);
        lemma_xor_assoc(x, y, z);
        assert(span_sum::<S>(coeffs, srcs, i, 0, a + b) == span_sum::<S>(
            coeffs,
            srcs,
            i,
            0,
            (a + b - 1) as nat,
        ) ^ z);
    }
}

/// Gather geometry: one coefficient per source, every source exactly as
/// long as the destination.
pub open spec fn gather_ok(dst_len: int, ncoeffs: int, srcs: Seq<&[u8]>) -> bool {
    &&& ncoeffs == srcs.len()
    &&& forall|t: int| 0 <= t < srcs.len() ==> (#[trigger] srcs[t])@.len() == dst_len
}

/// The gather geometry every gather entry demands: one coefficient per
/// source, every source exactly as long as the destination. Geometry that
/// breaks it is no input of the gather entries.
pub fn check_gather(name: &str, dst: &[u8], coeffs: usize, srcs: &[&[u8]])
    requires
        gather_ok(dst@.len() as int, coeffs as int, srcs@),
{
}

/// The first `upto` bytes of `after` carry the full gather over `before`;
/// the rest are still as in `before`.
pub open spec fn gathered<S: Blocked>(
    before: Seq<u8>,
    after: Seq<u8>,
    coeffs: Seq<S::Coeff>,
    srcs: Seq<&[u8]>,
    upto: int,
) -> bool {
    &&& after.len() == before.len()
    &&& forall|i: int|
        0 <= i < upto ==> #[trigger] after[i] == before[i] ^ gather_sum::<S>(coeffs, srcs, i)
    &&& forall|i: int| upto <= i < before.len() ==> #[trigger] after[i] == before[i]
}

/// Fold the `count` sources from `first` into the window `off .. off + width`,
/// one source at a time across the whole window.
fn gather_span<S: Blocked>(
    dst: &mut [u8],
    off: usize,
    width: usize,
    coeffs: &[S::Coeff],
    srcs: &[&[u8]],
    first: usize,
    count: usize,
)
    requires
        gather_ok(old(dst)@.len() as int, coeffs@.len() as int, srcs@),
        off + width <= old(dst)@.len(),
        first + count <= coeffs@.len(),
        forall|t: int| 0 <= t < coeffs@.len() ==> S::prepared(#[trigger] coeffs@[t]),
    ensures
        final(dst)@.len() == old(dst)@.len(),
        forall|k: int|
            0 <= k < width ==> #[trigger] final(dst)@[off + k] == old(dst)@[off + k] ^ span_sum::<S>(
                coeffs@,
                srcs@,
                off + k,
                first as int,
                count as nat,
            ),
        forall|j: int|
            0 <= j < old(dst)@.len() && !(off <= j < off + width) ==> #[trigger] final(dst)@[j]
                == old(dst)@[j],
{
    let nco = coeffs.len();
    let mut s: usize = 0;
    assert forall|k: int| 0 <= k < width implies #[trigger] dst@[off + k] == old(dst)@[off + k]
        ^ span_sum::<S>(coeffs@, srcs@, off + k, first as int, 0) by {
        let x = dst@[off + k];
        lemma_xor_zero(x);
    }
    while s < count
        invariant
            nco == coeffs@.len(),
            gather_ok(old(dst)@.len() as int, coeffs@.len() as int, srcs@),
            off + width <= old(dst)@.len(),
            first + count <= coeffs@.len(),
            forall|t: int| 0 <= t < coeffs@.len() ==> S::prepared(#[trigger] coeffs@[t]),
            s <= count,
            dst@.len() == old(dst)@.len(),
            forall|k: int|
                0 <= k < width ==> #[trigger] dst@[off + k] == old(dst)@[off + k] ^ span_sum::<S>(
                    coeffs@,
                    srcs@,
                    off + k,
                    first as int,
                    s as nat,
                ),
            forall|j: int|
                0 <= j < old(dst)@.len() && !(off <= j < off + width) ==> #[trigger] dst@[j]
                    == old(dst)@[j],
        decreases count - s,
    {
        let t = first + s;
        let src = srcs[t];
        assert(src@.len() == old(dst)@.len());
        let ghost prev = dst@;
        brem_span::<S>(dst, off, coeffs[t], src, off, width);
        assert forall|k: int| 0 <= k < width implies #[trigger] dst@[off + k] == old(dst)@[off + k]
            ^ span_sum::<S>(coeffs@, srcs@, off + k, first as int, (s + 1) as nat) by {
            let a = old(dst)@[off + k];
            let y = span_sum::<S>(coeffs@, srcs@, off + k, first as int, s as nat);
            let z = gather_term::<S>(coeffs@, srcs@, t as int, off + k);
            assert(dst@[off + k] == prev[off + k] ^ z);
            lemma_xor_assoc(a, y, z);
        }
        s += 1;
    }
}

/// Advance a gather over the window `off .. off + width`: every source folded
/// in, so the gathered prefix grows from `off` to `off + width`.
pub(crate) fn gather_step<S: Blocked>(
    dst: &mut [u8],
    off: usize,
    width: usize,
    coeffs: &[S::Coeff],
    srcs: &[&[u8]],
    Ghost(orig): Ghost<Seq<u8>>,
)
    requires
        gather_ok(old(dst)@.len() as int, coeffs@.len() as int, srcs@),
        off + width <= old(dst)@.len(),
        forall|t: int| 0 <= t < coeffs@.len() ==> S::prepared(#[trigger] coeffs@[t]),
        gathered::<S>(orig, old(dst)@, coeffs@, srcs@, off as int),
    ensures
        gathered::<S>(orig, final(dst)@, coeffs@, srcs@, off + width),
{
    gather_span::<S>(dst, off, width, coeffs, srcs, 0, coeffs.len());
    assert forall|i: int| 0 <= i < off + width implies #[trigger] dst@[i] == orig[i] ^ gather_sum::<
        S,
    >(coeffs@, srcs@, i) by {
        if i >= off {
            assert(dst@[off + (i - off)] == old(dst)@[off + (i - off)] ^ gather_sum::<S>(
                coeffs@,
                srcs@,
                i,
            ));
        }
    }
}

/// The register-blocked gather walk: whole tiles of `lanes` 32-byte lanes,
/// then (when `fused`) at most one 64-byte and one 32-byte block, then the
/// per-source remainder.
pub fn mul_add_gather_impl<S: Blocked>(
    dst: &mut [u8],
    coeffs: &[S::Coeff],
    srcs: &[&[u8]],
    fused: bool,
    lanes: usize,
)
    requires
        1 <= lanes <= 4,
        gather_ok(old(dst)@.len() as int, coeffs@.len() as int, srcs@),
        forall|t: int| 0 <= t < coeffs@.len() ==> S::prepared(#[trigger] coeffs@[t]),
    ensures
        gathered::<S>(old(dst)@, final(dst)@, coeffs@, srcs@, old(dst)@.len() as int),
{
    let tile: usize = 32 * lanes;
    let total = dst.len();
    let count = total / tile;
    assert(count * tile <= total) by (nonlinear_arith)
        requires
            count == total / tile,
            tile > 0,
    ;
    let len = count * tile;
    let mut off: usize = 0;
    let ghost mut q: int = 0;
    while off < len
        invariant
            tile == 32 * lanes,
            1 <= lanes <= 4,
            total == old(dst)@.len(),
            len == count * tile,
            len <= total,
            0 <= q <= count,
            off == q * tile,
            off <= len,
            gather_ok(dst@.len() as int, coeffs@.len() as int, srcs@),
            forall|t: int| 0 <= t < coeffs@.len() ==> S::prepared(#[trigger] coeffs@[t]),
            gathered::<S>(old(dst)@, dst@, coeffs@, srcs@, off as int),
        decreases len - off,
    {
        assert(off + tile <= len && q < count) by (nonlinear_arith)
            requires
                off < len,
                off == q * tile,
                len == count * tile,
                tile > 0,
                q <= count,
        ;
        gather_step::<S>(dst, off, tile, coeffs, srcs, Ghost(old(dst)@));
        off += tile;
        proof {
            q = q + 1;
            assert(off == q * tile) by (nonlinear_arith)
                requires
                    off == (q - 1) * tile + tile,
            ;
        }
    }
    let mut consumed: usize = 0;
    if fused {
        if total - len >= 64 {
            gather_step::<S>(dst, len, 64, coeffs, srcs, Ghost(old(dst)@));
            consumed = 64;
        }
        if total - len - consumed >= 32 {
            gather_step::<S>(dst, len + consumed, 32, coeffs, srcs, Ghost(old(dst)@));
            consumed = consumed + 32;
        }
    }
    let tail = len + consumed;
    gather_step::<S>(dst, tail, total - tail, coeffs, srcs, Ghost(old(dst)@));
}

/// Whether a gather takes the source-fused 64/32-byte blocks: short rows
/// of whole 32-byte lanes below one 128-byte tile, with at least three
/// sources.
pub fn gather_fused(len: usize, sources: usize) -> (r: bool)
    ensures
        r == (len < 128 && sources > 2 && len % 128 != 0 && (len % 128) % 32 == 0),
{
    let remainder = len % 128;
    len < 128 && sources > 2 && remainder != 0 && remainder % 32 == 0
}

/// Many sources into one destination under `0x11B`:
/// `dst[i] ^= sum_t coeffs[t] * srcs[t][i]`.
pub fn mul_add_gather_gfni(
    _token: X64V3GfniCryptoToken,
    dst: &mut [u8],
    coeffs: &[Elem],
    srcs: &[&[u8]],
)
    requires
        gather_ok(old(dst)@.len() as int, coeffs@.len() as int, srcs@),
    ensures
        gathered::<Gfni>(old(dst)@, final(dst)@, coeffs@, srcs@, old(dst)@.len() as int),
{
    let fused = gather_fused(dst.len(), coeffs.len());
    mul_add_gather_impl::<Gfni>(dst, coeffs, srcs, fused, 4);
}

/// [`mul_add_gather_gfni`] under `0x11D`, each source folded in with its
/// `VGF2P8AFFINEQB` map; the same blocking rule decides the fused blocks.
pub fn mul_add_gather_affine(
    _token: X64V3GfniCryptoToken,
    dst: &mut [u8],
    coeffs: &[gf8d::Elem],
    srcs: &[&[u8]],
)
    requires
        gather_ok(old(dst)@.len() as int, coeffs@.len() as int, srcs@),
    ensures
        gathered::<Affine8D>(old(dst)@, final(dst)@, coeffs@, srcs@, old(dst)@.len() as int),
{
    let fused = gather_fused(dst.len(), coeffs.len());
    mul_add_gather_impl::<Affine8D>(dst, coeffs, srcs, fused, 4);
}

/// The tables of one group of sources: slot `s` multiplies by
/// `coeffs[group + s]`.
pub open spec fn group_tables(tables: Seq<ScaleTable>, coeffs: Seq<Elem>, group: int) -> bool {
    forall|s: int|
        0 <= s < tables.len() ==> (#[trigger] tables[s]).wf(gf8b::RED) && tables[s].coeff.0
            == coeffs[group + s].0
}

/// Fold a group of sources into the window `off .. off + width` by table
/// lookup.
fn nibble_gather_span(
    dst: &mut [u8],
    off: usize,
    width: usize,
    tables: &Vec<ScaleTable>,
    coeffs: &[Elem],
    srcs: &[&[u8]],
    group: usize,
)
    requires
        gather_ok(old(dst)@.len() as int, coeffs@.len() as int, srcs@),
        off + width <= old(dst)@.len(),
        group + tables@.len() <= coeffs@.len(),
        group_tables(tables@, coeffs@, group as int),
    ensures
        final(dst)@.len() == old(dst)@.len(),
        forall|k: int|
            0 <= k < width ==> #[trigger] final(dst)@[off + k] == old(dst)@[off + k] ^ span_sum::<
                Gfni,
            >(coeffs@, srcs@, off + k, group as int, tables@.len()),
        forall|j: int|
            0 <= j < old(dst)@.len() && !(off <= j < off + width) ==> #[trigger] final(dst)@[j]
                == old(dst)@[j],
{
    let count = tables.len();
    let nco = coeffs.len();
    let mut s: usize = 0;
    assert forall|k: int| 0 <= k < width implies #[trigger] dst@[off + k] == old(dst)@[off + k]
        ^ span_sum::<Gfni>(coeffs@, srcs@, off + k, group as int, 0) by {
        let x = dst@[off + k];
        lemma_xor_zero(x);
    }
    while s < count
        invariant
            nco == coeffs@.len(),
            count == tables@.len(),
            gather_ok(old(dst)@.len() as int, coeffs@.len() as int, srcs@),
            off + width <= old(dst)@.len(),
            group + count <= coeffs@.len(),
            group_tables(tables@, coeffs@, group as int),
            s <= count,
            dst@.len() == old(dst)@.len(),
            forall|k: int|
                0 <= k < width ==> #[trigger] dst@[off + k] == old(dst)@[off + k] ^ span_sum::<
                    Gfni,
                >(coeffs@, srcs@, off + k, group as int, s as nat),
            forall|j: int|
                0 <= j < old(dst)@.len() && !(off <= j < off + width) ==> #[trigger] dst@[j]
                    == old(dst)@[j],
        decreases count - s,
    {
        let t = group + s;
        let src = srcs[t];
        assert(src@.len() == old(dst)@.len());
        let ghost prev = dst@;
        assert(tables@[s as int].wf(gf8b::RED));
        lookup_span(dst, off, &tables[s], src, off, width);
        assert forall|k: int| 0 <= k < width implies #[trigger] dst@[off + k] == old(dst)@[off + k]
            ^ span_sum::<Gfni>(coeffs@, srcs@, off + k, group as int, (s + 1) as nat) by {
            let a = old(dst)@[off + k];
            let y = span_sum::<Gfni>(coeffs@, srcs@, off + k, group as int, s as nat);
            let z = gather_term::<Gfni>(coeffs@, srcs@, t as int, off + k);
            lemma_lookup(tables@[s as int], gf8b::RED, src@[off + k]);
            assert(dst@[off + k] == prev[off + k] ^ z);
            lemma_xor_assoc(a, y, z);
        }
        s += 1;
    }
}

/// The tables of the sources `group .. group + count`.
fn build_group(coeffs: &[Elem], group: usize, count: usize) -> (tables: Vec<ScaleTable>)
    requires
        group + count <= coeffs@.len(),
    ensures
        tables@.len() == count,
        group_tables(tables@, coeffs@, group as int),
{
    let mut tables: Vec<ScaleTable> = Vec::new();
    let nco = coeffs.len();
    let mut s: usize = 0;
    while s < count
        invariant
            nco == coeffs@.len(),
            group + count <= coeffs@.len(),
            s <= count,
            tables@.len() == s,
            group_tables(tables@, coeffs@, group as int),
        decreases count - s,
    {
        tables.push(scale_table(coeffs[group + s]));
        s += 1;
    }
    tables
}

/// The state of a nibble gather between groups: bytes below `tiled` carry
/// the first `hi` sources, the rest the first `lo`.
pub open spec fn nibble_state(
    before: Seq<u8>,
    after: Seq<u8>,
    coeffs: Seq<Elem>,
    srcs: Seq<&[u8]>,
    tiled: int,
    hi: nat,
    lo: nat,
) -> bool {
    &&& after.len() == before.len()
    &&& forall|i: int|
        0 <= i < tiled ==> #[trigger] after[i] == before[i] ^ span_sum::<Gfni>(coeffs, srcs, i, 0, hi)
    &&& forall|i: int|
        tiled <= i < before.len() ==> #[trigger] after[i] == before[i] ^ span_sum::<Gfni>(
            coeffs,
            srcs,
            i,
            0,
            lo,
        )
}

/// Fold one group's tables over every 64-byte tile below `len`.
fn nibble_group_tiles(
    dst: &mut [u8],
    len: usize,
    tables: &Vec<ScaleTable>,
    coeffs: &[Elem],
    srcs: &[&[u8]],
    group: usize,
    Ghost(orig): Ghost<Seq<u8>>,
)
    requires
        gather_ok(old(dst)@.len() as int, coeffs@.len() as int, srcs@),
        len <= old(dst)@.len(),
        len % 64 == 0,
        group + tables@.len() <= coeffs@.len(),
        group_tables(tables@, coeffs@, group as int),
        nibble_state(orig, old(dst)@, coeffs@, srcs@, 0, group as nat, group as nat),
    ensures
        nibble_state(
            orig,
            final(dst)@,
            coeffs@,
            srcs@,
            len as int,
            (group + tables@.len()) as nat,
            group as nat,
        ),
{
    let mut off: usize = 0;
    while off < len
        invariant
            gather_ok(dst@.len() as int, coeffs@.len() as int, srcs@),
            len <= dst@.len(),
            len % 64 == 0,
            off % 64 == 0,
            off <= len,
            group + tables@.len() <= coeffs@.len(),
            group_tables(tables@, coeffs@, group as int),
            nibble_state(
                orig,
                dst@,
                coeffs@,
                srcs@,
                off as int,
                (group + tables@.len()) as nat,
                group as nat,
            ),
        decreases len - off,
    {
        let ghost prev = dst@;
        nibble_gather_span(dst, off, 64, tables, coeffs, srcs, group);
        assert forall|i: int| 0 <= i < off + 64 implies #[trigger] dst@[i] == orig[i] ^ span_sum::<
            Gfni,
        >(coeffs@, srcs@, i, 0, (group + tables@.len()) as nat) by {
            if i >= off {
                let k = i - off;
                assert(dst@[off + k] == prev[off + k] ^ span_sum::<Gfni>(
                    coeffs@,
                    srcs@,
                    off + k,
                    group as int,
                    tables@.len(),
                ));
                let a = orig[i];
                let x = span_sum::<Gfni>(coeffs@, srcs@, i, 0, group as nat);
                let y = span_sum::<Gfni>(coeffs@, srcs@, i, group as int, tables@.len());
                lemma_span_split::<Gfni>(coeffs@, srcs@, i, group as nat, tables@.len());
                lemma_xor_assoc(a, x, y);
            }
        }
        off += 64;
    }
}

/// Fold one group's tables over the remainder past `len` with the AVX2
/// single-source kernel.
fn nibble_group_rest_avx2(
    token: X64V3Token,
    dst: &mut [u8],
    len: usize,
    tables: &Vec<ScaleTable>,
    coeffs: &[Elem],
    srcs: &[&[u8]],
    group: usize,
    Ghost(orig): Ghost<Seq<u8>>,
)
    requires
        gather_ok(old(dst)@.len() as int, coeffs@.len() as int, srcs@),
        len <= old(dst)@.len(),
        group + tables@.len() <= coeffs@.len(),
        group_tables(tables@, coeffs@, group as int),
        nibble_state(
            orig,
            old(dst)@,
            coeffs@,
            srcs@,
            len as int,
            (group + tables@.len()) as nat,
            group as nat,
        ),
    ensures
        nibble_state(
            orig,
            final(dst)@,
            coeffs@,
            srcs@,
            len as int,
            (group + tables@.len()) as nat,
            (group + tables@.len()) as nat,
        ),
{
    let count = tables.len();
    let nco = coeffs.len();
    let mut s: usize = 0;
    while s < count
        invariant
            nco == coeffs@.len(),
            count == tables@.len(),
            gather_ok(dst@.len() as int, coeffs@.len() as int, srcs@),
            len <= dst@.len(),
            group + count <= coeffs@.len(),
            group_tables(tables@, coeffs@, group as int),
            s <= count,
            nibble_state(
                orig,
                dst@,
                coeffs@,
                srcs@,
                len as int,
                (group + count) as nat,
                (group + s) as nat,
            ),
        decreases count - s,
    {
        let t = group + s;
        let src = srcs[t];
        let ghost prev = dst@;
        let (_, src_rest) = src.split_at(len);
        let (head, rest) = dst.split_at_mut(len);
        mul_add_avx2(token, rest, &tables[s], src_rest);
        assert forall|i: int| len <= i < dst@.len() implies #[trigger] dst@[i] == orig[i]
            ^ span_sum::<Gfni>(coeffs@, srcs@, i, 0, (group + s + 1) as nat) by {
            assert(dst@[i] == rest@[i - len]);
            lemma_lookup(tables@[s as int], gf8b::RED, src@[i]);
            let a = orig[i];
            let y = span_sum::<Gfni>(coeffs@, srcs@, i, 0, (group + s) as nat);
            let z = gather_term::<Gfni>(coeffs@, srcs@, t as int, i);
            assert(prev[i] == a ^ y);
            lemma_xor_assoc(a, y, z);
        }
        assert forall|i: int| 0 <= i < len implies #[trigger] dst@[i] == orig[i] ^ span_sum::<
            Gfni,
        >(coeffs@, srcs@, i, 0, (group + count) as nat) by {
            assert(dst@[i] == head@[i]);
            assert(prev[i] == head@[i]);
        }
        s += 1;
    }
}

/// Fold one group's tables over the remainder past `len` with the SSSE3
/// single-source kernel.
fn nibble_group_rest_ssse3(
    token: X64V2Token,
    dst: &mut [u8],
    len: usize,
    tables: &Vec<ScaleTable>,
    coeffs: &[Elem],
    srcs: &[&[u8]],
    group: usize,
    Ghost(orig): Ghost<Seq<u8>>,
)
    requires
        gather_ok(old(dst)@.len() as int, coeffs@.len() as int, srcs@),
        len <= old(dst)@.len(),
        group + tables@.len() <= coeffs@.len(),
        group_tables(tables@, coeffs@, group as int),
        nibble_state(
            orig,
            old(dst)@,
            coeffs@,
            srcs@,
            len as int,
            (group + tables@.len()) as nat,
            group as nat,
        ),
    ensures
        nibble_state(
            orig,
            final(dst)@,
            coeffs@,
            srcs@,
            len as int,
            (group + tables@.len()) as nat,
            (group + tables@.len()) as nat,
        ),
{
    let count = tables.len();
    let nco = coeffs.len();
    let mut s: usize = 0;
    while s < count
        invariant
            nco == coeffs@.len(),
            count == tables@.len(),
            gather_ok(dst@.len() as int, coeffs@.len() as int, srcs@),
            len <= dst@.len(),
            group + count <= coeffs@.len(),
            group_tables(tables@, coeffs@, group as int),
            s <= count,
            nibble_state(
                orig,
                dst@,
                coeffs@,
                srcs@,
                len as int,
                (group + count) as nat,
                (group + s) as nat,
            ),
        decreases count - s,
    {
        let t = group + s;
        let src = srcs[t];
        let ghost prev = dst@;
        let (_, src_rest) = src.split_at(len);
        let (head, rest) = dst.split_at_mut(len);
        mul_add_ssse3(token, rest, &tables[s], src_rest);
        assert forall|i: int| len <= i < dst@.len() implies #[trigger] dst@[i] == orig[i]
            ^ span_sum::<Gfni>(coeffs@, srcs@, i, 0, (group + s + 1) as nat) by {
            assert(dst@[i] == rest@[i - len]);
            lemma_lookup(tables@[s as int], gf8b::RED, src@[i]);
            let a = orig[i];
            let y = span_sum::<Gfni>(coeffs@, srcs@, i, 0, (group + s) as nat);
            let z = gather_term::<Gfni>(coeffs@, srcs@, t as int, i);
            assert(prev[i] == a ^ y);
            lemma_xor_assoc(a, y, z);
        }
        assert forall|i: int| 0 <= i < len implies #[trigger] dst@[i] == orig[i] ^ span_sum::<
            Gfni,
        >(coeffs@, srcs@, i, 0, (group + count) as nat) by {
            assert(dst@[i] == head@[i]);
            assert(prev[i] == head@[i]);
        }
        s += 1;
    }
}

/// Many sources into one destination using AVX2 nibble shuffles: sources
/// four at a time, each group's tables reused across the 64-byte tiles,
/// the sub-tile remainder through the single-source kernel.
pub fn mul_add_gather_avx2(token: X64V3Token, dst: &mut [u8], coeffs: &[Elem], srcs: &[&[u8]])
    requires
        gather_ok(old(dst)@.len() as int, coeffs@.len() as int, srcs@),
    ensures
        gathered::<Gfni>(old(dst)@, final(dst)@, coeffs@, srcs@, old(dst)@.len() as int),
{
    let total = dst.len();
    let len = total - total % 64;
    let n = coeffs.len();
    let mut group: usize = 0;
    assert forall|i: int| 0 <= i < total implies #[trigger] dst@[i] == old(dst)@[i] ^ span_sum::<
        Gfni,
    >(coeffs@, srcs@, i, 0, 0) by {
        let x = dst@[i];
        lemma_xor_zero(x);
    }
    while group < n
        invariant
            total == old(dst)@.len(),
            len == total - total % 64,
            n == coeffs@.len(),
            group <= n,
            gather_ok(dst@.len() as int, n as int, srcs@),
            nibble_state(old(dst)@, dst@, coeffs@, srcs@, 0, group as nat, group as nat),
        decreases n - group,
    {
        let count = if n - group < 4 {
            n - group
        } else {
            4
        };
        let tables = build_group(coeffs, group, count);
        nibble_group_tiles(dst, len, &tables, coeffs, srcs, group, Ghost(old(dst)@));
        nibble_group_rest_avx2(token, dst, len, &tables, coeffs, srcs, group, Ghost(old(dst)@));
        group += count;
    }
}

/// Many sources into one destination using SSSE3 nibble shuffles, with the
/// same grouping and tiling as [`mul_add_gather_avx2`].
pub fn mul_add_gather_ssse3(token: X64V2Token, dst: &mut [u8], coeffs: &[Elem], srcs: &[&[u8]])
    requires
        gather_ok(old(dst)@.len() as int, coeffs@.len() as int, srcs@),
    ensures
        gathered::<Gfni>(old(dst)@, final(dst)@, coeffs@, srcs@, old(dst)@.len() as int),
{
    let total = dst.len();
    let len = total - total % 64;
    let n = coeffs.len();
    let mut group: usize = 0;
    assert forall|i: int| 0 <= i < total implies #[trigger] dst@[i] == old(dst)@[i] ^ span_sum::<
        Gfni,
    >(coeffs@, srcs@, i, 0, 0) by {
        let x = dst@[i];
        lemma_xor_zero(x);
    }
    while group < n
        invariant
            total == old(dst)@.len(),
            len == total - total % 64,
            n == coeffs@.len(),
            group <= n,
            gather_ok(dst@.len() as int, n as int, srcs@),
            nibble_state(old(dst)@, dst@, coeffs@, srcs@, 0, group as nat, group as nat),
        decreases n - group,
    {
        let count = if n - group < 4 {
            n - group
        } else {
            4
        };
        let tables = build_group(coeffs, group, count);
        nibble_group_tiles(dst, len, &tables, coeffs, srcs, group, Ghost(old(dst)@));
        nibble_group_rest_ssse3(token, dst, len, &tables, coeffs, srcs, group, Ghost(old(dst)@));
        group += count;
    }
}

} // verus!
