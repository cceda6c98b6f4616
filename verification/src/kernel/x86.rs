//! x86 / `x86_64` kernels.
//!
//! Everything here is the lane arithmetic of a vector kernel written out
//! over whole buffers; the capability tokens the kernels take are the ones
//! their vector forms require.

pub mod avx512;
pub mod bytes;
pub mod fan_paar;
pub mod gf16;
pub mod gf32;
pub mod gf64;
pub mod gf8;
pub mod prime;

use bytes::{xor_bytes, xor_rows_walk, xored};
use vstd::prelude::*;

verus! {

/// Smallest destination for which non-temporal stores pay for themselves.
pub const NT_STORE_MIN: usize = 2097152;

/// `<*const u8>::align_offset(32)` of the slice's start: an offset that puts
/// the pointer on a 32-byte boundary, or `usize::MAX`. It depends on where
/// the buffer sits, and the documentation allows `usize::MAX` on every call
/// and does not promise the smallest offset, so nothing is stated of it.
#[verifier::external_body]
fn align_offset_32(bytes: &[u8]) -> usize {
    bytes.as_ptr().align_offset(32)
}

/// The streaming-store decision of [`nt_split_at`].
pub open spec fn nt_split_at_spec(len: usize, peel: usize, elem_bytes: usize) -> Option<usize> {
    if len >= NT_STORE_MIN && peel < 32 && peel % elem_bytes == 0 {
        Some(peel)
    } else {
        None::<usize>
    }
}

/// The streaming-store decision for a destination of `len` bytes whose
/// start lies `peel` bytes before a 32-byte boundary: the head to store
/// normally, or `None` when the destination should stay temporal — too
/// small to repay the eviction, a peel that is no whole number of
/// `elem_bytes` elements, or an offset word that is no peel below one
/// 32-byte lane (`usize::MAX` among them).
pub fn nt_split_at(len: usize, peel: usize, elem_bytes: usize) -> (r: Option<usize>)
    requires
        elem_bytes > 0,
    ensures
        r == (if len >= NT_STORE_MIN && peel < 32 && peel % elem_bytes == 0 {
            Some(peel)
        } else {
            None::<usize>
        }),
{
    if len < NT_STORE_MIN {
        return None;
    }
    if peel < 32 && peel % elem_bytes == 0 {
        Some(peel)
    } else {
        None
    }
}

/// Head bytes to store normally so that a non-temporal body starts on a
/// 32-byte boundary, or `None` when this destination should stay temporal.
pub fn nt_split(dst: &[u8], elem_bytes: usize) -> (r: Option<usize>)
    requires
        elem_bytes > 0,
    ensures
        dst@.len() < NT_STORE_MIN ==> r is None,
        r matches Some(peel) ==> peel < 32 && peel % elem_bytes == 0 && peel <= dst@.len(),
        exists|peel: usize|
            r == #[trigger] nt_split_at_spec(
                dst@.len() as usize,
                peel,
                elem_bytes,
            ),
{
    let peel = align_offset_32(dst);
    let r = nt_split_at(dst.len(), peel, elem_bytes);
    assert(r == nt_split_at_spec(dst@.len() as usize, peel, elem_bytes));
    r
}

/// The row-group alignment peel of [`peel_at`].
pub open spec fn peel_at_spec(head: usize, len: usize, elem_bytes: usize) -> usize {
    if len < PEEL_FLOOR || head >= len || head >= 32 || head % elem_bytes != 0 {
        0
    } else {
        head
    }
}

/// The row-group alignment peel for a row of `len` bytes whose start lies
/// `head` bytes before a 32-byte boundary: the head when it is a whole
/// number of `elem_bytes` elements below one 32-byte lane, inside a row long
/// enough to repay it, else zero.
pub fn peel_at(head: usize, len: usize, elem_bytes: usize) -> (r: usize)
    requires
        elem_bytes > 0,
    ensures
        r == (if len < PEEL_FLOOR || head >= len || head >= 32 || head % elem_bytes != 0 {
            0
        } else {
            head
        }),
{
    if len < PEEL_FLOOR || head >= len || head >= 32 || head % elem_bytes != 0 {
        0
    } else {
        head
    }
}

/// Rows shorter than sixteen turns of the 128-byte body keep their
/// alignment as it falls.
pub const PEEL_FLOOR: usize = 2048;

/// Bytes of lead-in that put a row group's vector accesses on a 32-byte
/// boundary, or `0` when the row is too short to repay it.
pub fn peel_to_align(row: &[u8], len: usize, elem_bytes: usize) -> (r: usize)
    requires
        elem_bytes > 0,
    ensures
        r == 0 || (r < len && r < 32 && r % elem_bytes == 0 && len >= PEEL_FLOOR),
        exists|head: usize| r == #[trigger] peel_at_spec(head, len, elem_bytes),
{
    let head = align_offset_32(row);
    let r = peel_at(head, len, elem_bytes);
    assert(r == peel_at_spec(head, len, elem_bytes));
    r
}

/// `dst ^= src` over 32-byte lanes, for a caller whose dispatch already
/// established AVX2.
pub fn xor_avx2(dst: &mut [u8], src: &[u8])
    requires
        old(dst)@.len() == src@.len(),
    ensures
        xored(old(dst)@, final(dst)@, src@),
{
    xor_bytes(dst, src);
}

/// `dst ^= src` over 16-byte lanes, for a caller whose dispatch already
/// established SSE2.
pub fn xor_sse2(dst: &mut [u8], src: &[u8])
    requires
        old(dst)@.len() == src@.len(),
    ensures
        xored(old(dst)@, final(dst)@, src@),
{
    xor_bytes(dst, src);
}

/// `dst ^= src` over rows of `row_len` bytes taken four, two, then one at a
/// time, for a caller whose dispatch already established AVX2.
pub fn xor_rows_avx2(dst: &mut [u8], src: &[u8], row_len: usize)
    requires
        old(dst)@.len() == src@.len(),
        row_len > 0,
        old(dst)@.len() % (row_len as nat) == 0,
    ensures
        xored(old(dst)@, final(dst)@, src@),
{
    xor_rows_walk(dst, src, row_len);
}

/// [`xor_rows_avx2`] over 16-byte lanes, for a caller whose dispatch
/// already established SSE2.
pub fn xor_rows_sse2(dst: &mut [u8], src: &[u8], row_len: usize)
    requires
        old(dst)@.len() == src@.len(),
        row_len > 0,
        old(dst)@.len() % (row_len as nat) == 0,
    ensures
        xored(old(dst)@, final(dst)@, src@),
{
    xor_rows_walk(dst, src, row_len);
}

} // verus!
