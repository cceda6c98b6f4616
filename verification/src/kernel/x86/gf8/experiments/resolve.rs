//! Pricing per-call coefficient resolution on the resolved matrix path.
//!
//! Resolution is moved out of the call, chunked at selectable widths, or run
//! alone with the destination untouched, so a pair of these prices
//! resolution, the destination pass structure, or the scratch policy on its
//! own. Every one-row form overwrites row 0 with the full sum.

use super::super::rows::{RESOLVE_CHUNK, row_byte, term_ok, term_sum, zero_row};
use super::super::{Affine8D, factor_word};
use super::{group_result, group_terms_ok, map_sum, rows_external_chunked};
use crate::field::gf8::mul_matrix;
use crate::field::gf8d;
use archmage::X64V3GfniCryptoToken;
use vstd::prelude::*;

verus! {

/// One-row terms: every term has at least one coefficient and a
/// `row_len`-byte source.
pub open spec fn one_row_terms_ok(terms: Seq<(&[gf8d::Elem], &[u8])>, row_len: int) -> bool {
    forall|t: int|
        0 <= t < terms.len() ==> #[trigger] terms[t].0@.len() >= 1 && terms[t].1@.len() == row_len
}

/// Externally resolved one-row geometry: one map word per source, every
/// source `row_len` bytes.
pub open spec fn external_ok(maps: Seq<u64>, srcs: Seq<&[u8]>, row_len: int) -> bool {
    &&& maps.len() == srcs.len()
    &&& forall|t: int| 0 <= t < srcs.len() ==> (#[trigger] srcs[t])@.len() == row_len
}

/// Row 0 of `after` is `sum_t maps[t] * srcs[t]` byte by byte; the rest of
/// the buffer is as in `before`.
pub open spec fn external_row(
    before: Seq<u8>,
    after: Seq<u8>,
    row_len: int,
    maps: Seq<u64>,
    srcs: Seq<&[u8]>,
) -> bool {
    &&& after.len() == before.len()
    &&& forall|k: int|
        0 <= k < row_len ==> #[trigger] after[k] == map_sum(maps, 0, 1, srcs, k, 0, srcs.len())
    &&& forall|p: int| row_len <= p < before.len() ==> #[trigger] after[p] == before[p]
}

/// Row 0 of `after` is `sum_t terms[t].0[0] * terms[t].1` under `0x11D`;
/// the rest of the buffer is as in `before`.
pub open spec fn resolved_row(
    before: Seq<u8>,
    after: Seq<u8>,
    row_len: int,
    terms: &[(&[gf8d::Elem], &[u8])],
) -> bool {
    &&& after.len() == before.len()
    &&& forall|k: int|
        0 <= k < row_len ==> #[trigger] after[k] == term_sum::<
            Affine8D,
            [(&[gf8d::Elem], &[u8])],
        >(terms, 0, k, terms@.len())
    &&& forall|p: int| row_len <= p < before.len() ==> #[trigger] after[p] == before[p]
}

/// The one-row overwrite over mapped terms, or zeros when there are none.
fn external_one_row(
    rows: &mut [u8],
    row_len: usize,
    maps: &[u64],
    srcs: &[&[u8]],
    chunk: usize,
)
    requires
        row_len <= old(rows)@.len(),
        external_ok(maps@, srcs@, row_len as int),
    ensures
        external_row(old(rows)@, final(rows)@, row_len as int, maps@, srcs@),
{
    if srcs.len() == 0 {
        zero_row(rows, 0, row_len);
        assert forall|k: int| 0 <= k < row_len implies #[trigger] rows@[k] == map_sum(
            maps@,
            0,
            1,
            srcs@,
            k,
            0,
            srcs@.len(),
        ) by {
            assert(rows@[0 + k] == 0);
        }
        return;
    }
    rows_external_chunked(rows, row_len, 0, 1, maps, 0, srcs, chunk);
    assert forall|k: int| 0 <= k < row_len implies #[trigger] rows@[k] == map_sum(
        maps@,
        0,
        1,
        srcs@,
        k,
        0,
        srcs@.len(),
    ) by {
        assert(row_byte(rows@, row_len as int, 0int + 0int, k) == rows@[k]);
    }
}

/// One-row overwrite over `VGF2P8AFFINEQB` map words resolved outside the
/// call: `rows[k] = sum_t maps[t] * srcs[t][k]` for `k < row_len`, one map
/// word per source. `lanes` (3 or 4) is the vector tile width; the row must
/// be a whole number of 32-byte lanes.
pub fn mul_into_matrix1_external_8d(
    _token: X64V3GfniCryptoToken,
    rows: &mut [u8],
    row_len: usize,
    maps: &[u64],
    srcs: &[&[u8]],
    lanes: usize,
)
    requires
        row_len % 32 == 0,
        row_len <= old(rows)@.len(),
        external_ok(maps@, srcs@, row_len as int),
        lanes == 3 || lanes == 4,
    ensures
        external_row(old(rows)@, final(rows)@, row_len as int, maps@, srcs@),
{
    external_one_row(rows, row_len, maps, srcs, 0);
}

/// [`mul_into_matrix1_external_8d`] taking the terms `chunk` at a time
/// (`0`: all in one pass), the first pass overwriting and the later ones
/// accumulating; no terms leave the row zero.
pub fn mul_into_matrix1_external_chunk_8d(
    _token: X64V3GfniCryptoToken,
    rows: &mut [u8],
    row_len: usize,
    maps: &[u64],
    srcs: &[&[u8]],
    lanes: usize,
    chunk: usize,
)
    requires
        row_len % 32 == 0,
        row_len <= old(rows)@.len(),
        external_ok(maps@, srcs@, row_len as int),
        lanes == 3 || lanes == 4,
        chunk == 0 || chunk == 32 || chunk == 64 || chunk == 96,
    ensures
        external_row(old(rows)@, final(rows)@, row_len as int, maps@, srcs@),
{
    external_one_row(rows, row_len, maps, srcs, chunk);
}

/// The one-row resolved overwrite at a given tile width and resolve chunk.
pub(crate) fn resolved_one_row(
    rows: &mut [u8],
    row_len: usize,
    terms: &[(&[gf8d::Elem], &[u8])],
    lanes: usize,
    chunk: usize,
)
    requires
        row_len <= old(rows)@.len(),
        one_row_terms_ok(terms@, row_len as int),
        1 <= lanes <= 4,
        chunk > 0,
    ensures
        resolved_row(old(rows)@, final(rows)@, row_len as int, terms),
{
    assert(group_terms_ok::<Affine8D, [(&[gf8d::Elem], &[u8])]>(terms, 0, 1, row_len as int)) by {
        assert forall|t: int, r: int| 0 <= t < terms@.len() && 0 <= r < 1 implies #[trigger] term_ok::<
            Affine8D,
            [(&[gf8d::Elem], &[u8])],
        >(terms, t, r, row_len as int) by {
            assert(terms@[t].0@.len() >= 1 && terms@[t].1@.len() == row_len);
        }
    }
    super::rows_resolved_chunked::<Affine8D, [(&[gf8d::Elem], &[u8])]>(
        rows,
        row_len,
        0,
        1,
        lanes,
        terms,
        chunk,
        true,
        false,
    );
    assert forall|k: int| 0 <= k < row_len implies #[trigger] rows@[k] == term_sum::<
        Affine8D,
        [(&[gf8d::Elem], &[u8])],
    >(terms, 0, k, terms@.len()) by {
        assert(row_byte(rows@, row_len as int, 0int + 0int, k) == rows@[k]);
        crate::field::gf8::lemma_xor_zero(
            term_sum::<Affine8D, [(&[gf8d::Elem], &[u8])]>(terms, 0, k, terms@.len()),
        );
    }
}

/// One-row overwrite on the resolved path with the scratch staging of the
/// resolved terms fully initialized per chunk:
/// `rows[k] = sum_t terms[t].0[0] * terms[t].1[k]` under `0x11D`. `lanes`
/// (3 or 4) is the vector tile width.
pub fn mul_into_matrix1_fullinit_8d(
    _token: X64V3GfniCryptoToken,
    rows: &mut [u8],
    row_len: usize,
    terms: &[(&[gf8d::Elem], &[u8])],
    lanes: usize,
)
    requires
        row_len <= old(rows)@.len(),
        one_row_terms_ok(terms@, row_len as int),
        lanes == 3 || lanes == 4,
    ensures
        resolved_row(old(rows)@, final(rows)@, row_len as int, terms),
{
    resolved_one_row(rows, row_len, terms, lanes, RESOLVE_CHUNK);
}

/// One-row overwrite on the resolved path with a selectable resolve chunk
/// (32 is the production width): the same sum as
/// [`mul_into_matrix1_fullinit_8d`].
pub fn mul_into_matrix1_chunk_8d(
    _token: X64V3GfniCryptoToken,
    rows: &mut [u8],
    row_len: usize,
    terms: &[(&[gf8d::Elem], &[u8])],
    lanes: usize,
    chunk: usize,
)
    requires
        row_len <= old(rows)@.len(),
        one_row_terms_ok(terms@, row_len as int),
        lanes == 3 || lanes == 4,
        chunk == 32 || chunk == 64 || chunk == 96,
    ensures
        resolved_row(old(rows)@, final(rows)@, row_len as int, terms),
{
    resolved_one_row(rows, row_len, terms, lanes, chunk);
}

/// The word the resolution probe folds for term `t`: the first
/// coefficient's `VGF2P8AFFINEQB` map, mixed with the address word of the
/// term's source.
pub open spec fn probe_word(terms: Seq<(&[gf8d::Elem], &[u8])>, addrs: Seq<u64>, t: int) -> u64 {
    mul_matrix(gf8d::RED, terms[t].0@[0].0) ^ addrs[t]
}

/// The probe checksum over the first `n` terms.
pub open spec fn probe_sum(terms: Seq<(&[gf8d::Elem], &[u8])>, addrs: Seq<u64>, n: nat) -> u64
    decreases n,
{
    if n == 0 {
        0u64
    } else {
        probe_sum(terms, addrs, (n - 1) as nat) ^ probe_word(terms, addrs, n - 1)
    }
}

/// Every term supplies at least one coefficient.
pub open spec fn probe_terms_ok(terms: Seq<(&[gf8d::Elem], &[u8])>) -> bool {
    forall|t: int| 0 <= t < terms.len() ==> (#[trigger] terms[t]).0@.len() >= 1
}

/// The resolution half of the one-row resolved path over given source
/// address words: resolve each term's first coefficient, chunk by chunk at
/// the production resolve width, and fold every resolved map with its
/// address word into the checksum.
pub fn resolve_probe_with(terms: &[(&[gf8d::Elem], &[u8])], addrs: &[u64]) -> (r: u64)
    requires
        probe_terms_ok(terms@),
        addrs@.len() == terms@.len(),
    ensures
        r == probe_sum(terms@, addrs@, terms@.len()),
{
    let count = terms.len();
    let mut sink: u64 = 0;
    let mut start: usize = 0;
    while start < count
        invariant
            count == terms@.len(),
            addrs@.len() == count,
            probe_terms_ok(terms@),
            start <= count,
            sink == probe_sum(terms@, addrs@, start as nat),
        decreases count - start,
    {
        let taken = if RESOLVE_CHUNK < count - start {
            RESOLVE_CHUNK
        } else {
            count - start
        };
        let mut offset: usize = 0;
        while offset < taken
            invariant
                count == terms@.len(),
                addrs@.len() == count,
                probe_terms_ok(terms@),
                start + taken <= count,
                offset <= taken,
                sink == probe_sum(terms@, addrs@, (start + offset) as nat),
            decreases taken - offset,
        {
            let t = start + offset;
            let (coeffs, _src) = terms[t];
            assert(terms@[t as int].0@.len() >= 1);
            let word = factor_word::<Affine8D>(coeffs[0]);
            sink = sink ^ (word ^ addrs[t]);
            offset += 1;
        }
        start += taken;
    }
    sink
}

/// The address word of a slice's start, from `<[u8]>::as_ptr`. It depends
/// on where the buffer lies, so nothing is stated of it.
#[verifier::external_body]
fn slice_address(bytes: &[u8]) -> u64 {
    bytes.as_ptr() as usize as u64
}

/// Resolve a one-row group's coefficients as the resolved path does, touch
/// no destination, and return a checksum of the resolved state: the maps
/// folded with the address words of the sources. The checksum is a sink for
/// the work, so what is stated is that it is the probe sum over some
/// address word per term.
pub fn resolve_probe_8d(terms: &[(&[gf8d::Elem], &[u8])]) -> (r: u64)
    requires
        probe_terms_ok(terms@),
    ensures
        exists|addrs: Seq<u64>| addrs.len() == terms@.len() && r == probe_sum(terms@, addrs, terms@.len()),
{
    let mut addrs: Vec<u64> = Vec::new();
    let mut t: usize = 0;
    while t < terms.len()
        invariant
            t <= terms@.len(),
            addrs@.len() == t,
        decreases terms@.len() - t,
    {
        let (_coeffs, src) = terms[t];
        addrs.push(slice_address(src));
        t += 1;
    }
    let r = resolve_probe_with(terms, &addrs);
    assert(addrs@.len() == terms@.len() && r == probe_sum(terms@, addrs@, terms@.len()));
    r
}

} // verus!
