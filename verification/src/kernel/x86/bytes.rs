//! Field-independent byte kernels.
//!
//! XOR is the additive operation of every binary field in the crate, so it
//! reads no field layout and needs no coefficient.

use crate::lanes::zip_bytes_span;
use archmage::{X64V1Token, X64V2Token, X64V3Token};
use vstd::arithmetic::div_mod::{lemma_mod_mod, lemma_mod_multiples_vanish};
use crate::field::gf8::{lemma_xor_assoc, lemma_xor_zero};
use vstd::prelude::*;

verus! {

/// `after` is `before` with `src` added byte by byte.
pub open spec fn xored(before: Seq<u8>, after: Seq<u8>, src: Seq<u8>) -> bool {
    &&& after.len() == before.len()
    &&& forall|i: int| 0 <= i < before.len() ==> #[trigger] after[i] == before[i] ^ src[i]
}

/// `dst[dbase + k] ^= src[sbase + k]` for `k < width`.
pub fn xor_span(dst: &mut [u8], dbase: usize, src: &[u8], sbase: usize, width: usize)
    requires
        dbase + width <= old(dst)@.len(),
        sbase + width <= src@.len(),
    ensures
        final(dst)@.len() == old(dst)@.len(),
        forall|k: int|
            0 <= k < width ==> #[trigger] final(dst)@[dbase + k] == old(dst)@[dbase + k]
                ^ src@[sbase + k],
        forall|j: int|
            0 <= j < old(dst)@.len() && !(dbase <= j < dbase + width)
                ==> #[trigger] final(dst)@[j] == old(dst)@[j],
{
    let f = |d: u8, x: u8| -> (r: u8)
        ensures
            r == d ^ x,
        { d ^ x };
    zip_bytes_span(dst, dbase, src, sbase, width, f);
}

/// `dst ^= src` over equal-length slices.
pub fn xor_bytes(dst: &mut [u8], src: &[u8])
    requires
        old(dst)@.len() == src@.len(),
    ensures
        xored(old(dst)@, final(dst)@, src@),
{
    let n = dst.len();
    xor_span(dst, 0, src, 0, n);
    assert forall|i: int| 0 <= i < n implies #[trigger] dst@[i] == old(dst)@[i] ^ src@[i] by {
        assert(dst@[0 + i] == old(dst)@[0 + i] ^ src@[0 + i]);
    }
}

/// `dst ^= src` using 32-byte AVX2 lanes.
pub fn xor_avx2(_token: X64V3Token, dst: &mut [u8], src: &[u8])
    requires
        old(dst)@.len() == src@.len(),
    ensures
        xored(old(dst)@, final(dst)@, src@),
{
    xor_bytes(dst, src);
}

/// `dst ^= src` using 16-byte SSE2 lanes.
pub fn xor_sse2(_token: X64V1Token, dst: &mut [u8], src: &[u8])
    requires
        old(dst)@.len() == src@.len(),
    ensures
        xored(old(dst)@, final(dst)@, src@),
{
    xor_bytes(dst, src);
}

/// `sum_{j < n} region[offsets[j] + k]`: the `n` first gathered rows of a
/// region at byte `k`.
pub open spec fn gather_xor(region: Seq<u8>, offsets: Seq<u32>, k: int, n: nat) -> u8
    decreases n,
{
    if n == 0 {
        0u8
    } else {
        (gather_xor(region, offsets, k, (n - 1) as nat) ^ region[offsets[n - 1] + k]) as u8
    }
}

/// Every gathered row of `width` bytes lies inside the region.
pub open spec fn gather_rows_ok(region_len: int, offsets: Seq<u32>, width: int) -> bool {
    forall|j: int| 0 <= j < offsets.len() ==> #[trigger] offsets[j] + width <= region_len
}

/// Fold every gathered row into the window `off .. off + width` of `dst`.
fn xor_gather_span(dst: &mut [u8], off: usize, width: usize, region: &[u8], offsets: &[u32])
    requires
        off + width <= old(dst)@.len(),
        gather_rows_ok(region@.len() as int, offsets@, old(dst)@.len() as int),
    ensures
        final(dst)@.len() == old(dst)@.len(),
        forall|k: int|
            0 <= k < width ==> #[trigger] final(dst)@[off + k] == old(dst)@[off + k] ^ gather_xor(
                region@,
                offsets@,
                off + k,
                offsets@.len(),
            ),
        forall|j: int|
            0 <= j < old(dst)@.len() && !(off <= j < off + width) ==> #[trigger] final(dst)@[j]
                == old(dst)@[j],
{
    let n = offsets.len();
    let rlen = region.len();
    let mut t: usize = 0;
    assert forall|k: int| 0 <= k < width implies #[trigger] dst@[off + k] == old(dst)@[off + k]
        ^ gather_xor(region@, offsets@, off + k, 0) by {
        let x = dst@[off + k];
        lemma_xor_zero(x);
    }
    while t < n
        invariant
            n == offsets@.len(),
            rlen == region@.len(),
            t <= n,
            off + width <= old(dst)@.len(),
            dst@.len() == old(dst)@.len(),
            gather_rows_ok(region@.len() as int, offsets@, old(dst)@.len() as int),
            forall|k: int|
                0 <= k < width ==> #[trigger] dst@[off + k] == old(dst)@[off + k] ^ gather_xor(
                    region@,
                    offsets@,
                    off + k,
                    t as nat,
                ),
            forall|j: int|
                0 <= j < old(dst)@.len() && !(off <= j < off + width) ==> #[trigger] dst@[j]
                    == old(dst)@[j],
        decreases n - t,
    {
        let start = offsets[t] as usize;
        assert(offsets@[t as int] + old(dst)@.len() <= region@.len());
        let ghost prev = dst@;
        xor_span(dst, off, region, start + off, width);
        assert forall|k: int| 0 <= k < width implies #[trigger] dst@[off + k] == old(dst)@[off + k]
            ^ gather_xor(region@, offsets@, off + k, (t + 1) as nat) by {
            let a = old(dst)@[off + k];
            let y = gather_xor(region@, offsets@, off + k, t as nat);
            let z = region@[start + off + k];
            assert(dst@[off + k] == prev[off + k] ^ z);
            lemma_xor_assoc(a, y, z);
        }
        t += 1;
    }
}

/// `dst ^= sum_j region[offsets[j] ..][.. dst.len()]`, the destination held
/// in 32-byte lanes across the whole source list when it is a short row of
/// whole lanes (at most eight), source by source otherwise.
pub fn xor_gather_avx2(token: X64V3Token, region: &[u8], dst: &mut [u8], offsets: &[u32])
    requires
        gather_rows_ok(region@.len() as int, offsets@, old(dst)@.len() as int),
    ensures
        final(dst)@.len() == old(dst)@.len(),
        forall|k: int|
            0 <= k < old(dst)@.len() ==> #[trigger] final(dst)@[k] == old(dst)@[k] ^ gather_xor(
                region@,
                offsets@,
                k,
                offsets@.len(),
            ),
{
    let len = dst.len();
    let whole = len - len % 32;
    let tail = len - whole;
    if whole == 0 || whole > 8 * 32 || tail != 0 {
        xor_gather_span(dst, 0, len, region, offsets);
        assert forall|k: int| 0 <= k < len implies #[trigger] dst@[k] == old(dst)@[k] ^ gather_xor(
            region@,
            offsets@,
            k,
            offsets@.len(),
        ) by {
            assert(dst@[0 + k] == old(dst)@[0 + k] ^ gather_xor(
                region@,
                offsets@,
                0 + k,
                offsets@.len(),
            ));
        }
        return;
    }
    let mut lane: usize = 0;
    while lane < whole
        invariant
            len == old(dst)@.len(),
            whole == len,
            len % 32 == 0,
            lane <= whole,
            lane % 32 == 0,
            dst@.len() == len,
            gather_rows_ok(region@.len() as int, offsets@, len as int),
            forall|k: int|
                0 <= k < lane ==> #[trigger] dst@[k] == old(dst)@[k] ^ gather_xor(
                    region@,
                    offsets@,
                    k,
                    offsets@.len(),
                ),
            forall|k: int| lane <= k < len ==> #[trigger] dst@[k] == old(dst)@[k],
        decreases whole - lane,
    {
        let ghost prev = dst@;
        xor_gather_span(dst, lane, 32, region, offsets);
        assert forall|k: int| 0 <= k < lane + 32 implies #[trigger] dst@[k] == old(dst)@[k]
            ^ gather_xor(region@, offsets@, k, offsets@.len()) by {
            if k >= lane {
                assert(dst@[lane + (k - lane)] == prev[lane + (k - lane)] ^ gather_xor(
                    region@,
                    offsets@,
                    lane + (k - lane),
                    offsets@.len(),
                ));
            }
        }
        lane += 32;
    }
}

/// `after` is `before` with the cyclic pattern `value` added: byte `i`
/// receives `value[i % value.len()]`.
pub open spec fn broadcast_xored(before: Seq<u8>, after: Seq<u8>, value: Seq<u8>) -> bool {
    &&& after.len() == before.len()
    &&& forall|i: int|
        0 <= i < before.len() ==> #[trigger] after[i] == before[i] ^ value[i % value.len() as int]
}

/// `dst[start + k] ^= value[k % value.len()]` for every byte from `start`
/// on: the byte-cyclic form.
fn xor_cycle(dst: &mut [u8], start: usize, value: &[u8])
    requires
        start <= old(dst)@.len(),
        value@.len() > 0,
    ensures
        final(dst)@.len() == old(dst)@.len(),
        forall|k: int|
            0 <= k < old(dst)@.len() - start ==> #[trigger] final(dst)@[start + k] == old(
                dst,
            )@[start + k] ^ value@[k % value@.len() as int],
        forall|j: int| 0 <= j < start ==> #[trigger] final(dst)@[j] == old(dst)@[j],
{
    let n = dst.len();
    let vlen = value.len();
    let mut k: usize = 0;
    while start + k < n
        invariant
            n == old(dst)@.len(),
            vlen == value@.len(),
            vlen > 0,
            start <= n,
            start + k <= n,
            dst@.len() == n,
            forall|t: int|
                0 <= t < k ==> #[trigger] dst@[start + t] == old(dst)@[start + t] ^ value@[t
                    % vlen as int],
            forall|j: int| 0 <= j < n && !(start <= j < start + k) ==> #[trigger] dst@[j] == old(dst)@[j],
        decreases n - start - k,
    {
        dst[start + k] = dst[start + k] ^ value[k % vlen];
        k += 1;
    }
}

/// The `plen`-byte pattern that repeats `value`: `pattern[k] = value[k % value.len()]`.
fn cycle_pattern(value: &[u8], plen: usize) -> (p: Vec<u8>)
    requires
        value@.len() > 0,
    ensures
        p@.len() == plen,
        forall|k: int| 0 <= k < plen ==> #[trigger] p@[k] == value@[k % value@.len() as int],
{
    let mut p: Vec<u8> = Vec::new();
    let vlen = value.len();
    let mut k: usize = 0;
    while k < plen
        invariant
            vlen == value@.len(),
            vlen > 0,
            k <= plen,
            p@.len() == k,
            forall|t: int| 0 <= t < k ==> #[trigger] p@[t] == value@[t % vlen as int],
        decreases plen - k,
    {
        p.push(value[k % vlen]);
        k += 1;
    }
    p
}

/// Byte `i` of a cyclic pattern whose length `plen` is a multiple of the
/// value's is byte `i % value.len()` of the value.
proof fn lemma_pattern_phase(i: int, plen: int, vlen: int)
    requires
        0 <= i,
        0 < vlen,
        0 < plen,
        plen % vlen == 0,
    ensures
        (i % plen) % vlen == i % vlen,
{
    let q = plen / vlen;
    vstd::arithmetic::div_mod::lemma_fundamental_div_mod(plen, vlen);
    assert(plen == vlen * q);
    assert(q > 0) by (nonlinear_arith)
        requires
            plen == vlen * q,
            plen > 0,
            vlen > 0,
    ;
    assert(vlen * q == q * vlen) by (nonlinear_arith);
    lemma_mod_mod(i, vlen, q);
}

/// The lane walk of a broadcast: the whole lanes below `body` take the
/// pattern, the tail the byte-cyclic form.
fn xor_broadcast_lanes(dst: &mut [u8], value: &[u8], lane: usize)
    requires
        1 <= value@.len() <= 16,
        lane == 16 || lane == 32,
        lane % value.len() == 0,
    ensures
        broadcast_xored(old(dst)@, final(dst)@, value@),
{
    let n = dst.len();
    let vlen = value.len();
    let body = n - n % 16;
    let pattern = cycle_pattern(value, lane);
    let mut i: usize = 0;
    while i < body
        invariant
            n == old(dst)@.len(),
            body == n - n % 16,
            vlen == value@.len(),
            1 <= vlen <= 16,
            lane == 16 || lane == 32,
            lane % vlen == 0,
            pattern@.len() == lane,
            forall|k: int| 0 <= k < lane ==> #[trigger] pattern@[k] == value@[k % vlen as int],
            i <= body,
            dst@.len() == n,
            forall|t: int| 0 <= t < i ==> #[trigger] dst@[t] == old(dst)@[t] ^ value@[t % vlen as int],
            forall|t: int| i <= t < n ==> #[trigger] dst@[t] == old(dst)@[t],
        decreases body - i,
    {
        dst[i] = dst[i] ^ pattern[i % lane];
        proof {
            lemma_pattern_phase(i as int, lane as int, vlen as int);
        }
        i += 1;
    }
    proof {
        assert(body % 16 == 0);
        if lane == 32 {
            assert(16usize % vlen == 0) by (bit_vector)
                requires
                    1 <= vlen <= 16,
                    32usize % vlen == 0,
            ;
        }
        assert(body % vlen == 0) by {
            lemma_pattern_phase(body as int, 16, vlen as int);
            assert((body as int % 16) % vlen as int == 0);
        }
    }
    let ghost mid = dst@;
    xor_cycle(dst, body, value);
    assert forall|t: int| 0 <= t < n implies #[trigger] dst@[t] == old(dst)@[t] ^ value@[t % vlen as int] by {
        if t >= body {
            let k = t - body;
            assert(dst@[body + k] == mid[body + k] ^ value@[k % vlen as int]);
            vstd::arithmetic::div_mod::lemma_fundamental_div_mod(body as int, vlen as int);
            lemma_mod_multiples_vanish((body as int) / (vlen as int), k, vlen as int);
            assert(t == vlen * ((body as int) / (vlen as int)) + k);
        }
    }
}

/// `dst[i] ^= value_bytes[i % value_bytes.len()]` for every byte: one
/// element broadcast across every lane, the binary fields'
/// `add_assign_scalar`. A value width that does not divide the 32-byte lane
/// takes the byte-cyclic form throughout.
pub fn xor_broadcast_avx2(_token: X64V3Token, dst: &mut [u8], value_bytes: &[u8])
    requires
        1 <= value_bytes@.len() <= 16,
    ensures
        broadcast_xored(old(dst)@, final(dst)@, value_bytes@),
{
    if 32 % value_bytes.len() != 0 {
        xor_cycle(dst, 0, value_bytes);
        assert forall|t: int| 0 <= t < old(dst)@.len() implies #[trigger] dst@[t] == old(dst)@[t]
            ^ value_bytes@[t % value_bytes@.len() as int] by {
            assert(dst@[0 + t] == old(dst)@[0 + t] ^ value_bytes@[t % value_bytes@.len() as int]);
        }
        return;
    }
    xor_broadcast_lanes(dst, value_bytes, 32);
}

/// [`xor_broadcast_avx2`] over 16-byte SSE4.2 lanes.
pub fn xor_broadcast_sse42(_token: X64V2Token, dst: &mut [u8], value_bytes: &[u8])
    requires
        1 <= value_bytes@.len() <= 16,
    ensures
        broadcast_xored(old(dst)@, final(dst)@, value_bytes@),
{
    if 16 % value_bytes.len() != 0 {
        xor_cycle(dst, 0, value_bytes);
        assert forall|t: int| 0 <= t < old(dst)@.len() implies #[trigger] dst@[t] == old(dst)@[t]
            ^ value_bytes@[t % value_bytes@.len() as int] by {
            assert(dst@[0 + t] == old(dst)@[0 + t] ^ value_bytes@[t % value_bytes@.len() as int]);
        }
        return;
    }
    xor_broadcast_lanes(dst, value_bytes, 16);
}

/// The row-interleaved XOR: rows of `row_len` bytes taken in groups of four
/// (then a pair, then a single row), each group walked tile by tile across
/// its rows.
pub(crate) fn xor_rows_walk(dst: &mut [u8], src: &[u8], row_len: usize)
    requires
        old(dst)@.len() == src@.len(),
        row_len > 0,
        old(dst)@.len() % (row_len as nat) == 0,
    ensures
        xored(old(dst)@, final(dst)@, src@),
{
    let n = dst.len();
    let rows = n / row_len;
    let mut r: usize = 0;
    while r < rows
        invariant
            n == old(dst)@.len(),
            n == src@.len(),
            row_len > 0,
            rows == n / row_len,
            n % row_len == 0,
            r <= rows,
            dst@.len() == n,
            forall|i: int| 0 <= i < r * row_len ==> #[trigger] dst@[i] == old(dst)@[i] ^ src@[i],
            forall|i: int| r * row_len <= i < n ==> #[trigger] dst@[i] == old(dst)@[i],
        decreases rows - r,
    {
        let w: usize = if rows - r >= 4 {
            4
        } else if rows - r >= 2 {
            2
        } else {
            1
        };
        proof {
            vstd::arithmetic::div_mod::lemma_fundamental_div_mod(n as int, row_len as int);
            assert((r + w) * row_len <= rows * row_len) by (nonlinear_arith)
                requires
                    r + w <= rows,
                    row_len > 0,
            ;
            assert(rows * row_len == n) by (nonlinear_arith)
                requires
                    n == row_len * rows + 0,
            ;
            assert((r + w) * row_len == r * row_len + w * row_len) by (nonlinear_arith);
        }
        let base = r * row_len;
        let span = w * row_len;
        let ghost prev = dst@;
        xor_span(dst, base, src, base, span);
        assert forall|i: int| 0 <= i < (r + w) * row_len implies #[trigger] dst@[i] == old(dst)@[i]
            ^ src@[i] by {
            if i >= base {
                assert(dst@[base + (i - base)] == prev[base + (i - base)] ^ src@[base + (i - base)]);
            }
        }
        r += w;
    }
    proof {
        vstd::arithmetic::div_mod::lemma_fundamental_div_mod(n as int, row_len as int);
        assert(rows * row_len == n) by (nonlinear_arith)
            requires
                n == row_len * rows + 0,
        ;
    }
}

/// `dst ^= src` over rows of `row_len` bytes, with AVX2 lanes.
pub fn xor_rows_avx2(_token: X64V3Token, dst: &mut [u8], src: &[u8], row_len: usize)
    requires
        old(dst)@.len() == src@.len(),
        row_len > 0,
        old(dst)@.len() % (row_len as nat) == 0,
    ensures
        xored(old(dst)@, final(dst)@, src@),
{
    xor_rows_walk(dst, src, row_len);
}

/// `dst ^= src` over rows of `row_len` bytes, with SSE2 lanes.
pub fn xor_rows_sse2(_token: X64V1Token, dst: &mut [u8], src: &[u8], row_len: usize)
    requires
        old(dst)@.len() == src@.len(),
        row_len > 0,
        old(dst)@.len() % (row_len as nat) == 0,
    ensures
        xored(old(dst)@, final(dst)@, src@),
{
    xor_rows_walk(dst, src, row_len);
}

} // verus!
