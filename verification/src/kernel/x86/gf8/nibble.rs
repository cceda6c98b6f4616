//! Single-buffer GF(2^8) AXPY kernels on the nibble-shuffle multiply.
//!
//! Without a byte-wide multiply, `c * x` splits into
//! `c * (x & 0xf) ^ c * (x & 0xf0)`: two lookups against a [`ScaleTable`].
//! The AVX2 entries hand their sub-32-byte remainders to the SSSE3 entries
//! through the token's guaranteed downgrade.

use crate::kernel::x86::nt_split;
use crate::lanes::{map_bytes, zip_bytes, zip_bytes_span};
use crate::tables::{ScaleTable, lookup, nibble_scale};
use crate::tokens::v2_of_v3;
use archmage::{X64V2Token, X64V3Token};
use vstd::prelude::*;

verus! {

/// `dst ^= table * src` over equal-length slices, by nibble lookups.
fn lookup_add(dst: &mut [u8], table: &ScaleTable, src: &[u8])
    requires
        old(dst)@.len() == src@.len(),
    ensures
        final(dst)@.len() == old(dst)@.len(),
        forall|i: int|
            0 <= i < old(dst)@.len() ==> #[trigger] final(dst)@[i] == old(dst)@[i] ^ lookup(
                *table,
                src@[i],
            ),
{
    let f = |d: u8, x: u8| -> (r: u8)
        ensures
            r == d ^ lookup(*table, x),
        { d ^ nibble_scale(table, x) };
    zip_bytes(dst, src, f);
}

/// `dst[dbase + k] ^= lookup(table, src[sbase + k])` over a window.
pub fn lookup_span(
    dst: &mut [u8],
    dbase: usize,
    table: &ScaleTable,
    src: &[u8],
    sbase: usize,
    width: usize,
)
    requires
        dbase + width <= old(dst)@.len(),
        sbase + width <= src@.len(),
    ensures
        final(dst)@.len() == old(dst)@.len(),
        forall|k: int|
            0 <= k < width ==> #[trigger] final(dst)@[dbase + k] == old(dst)@[dbase + k] ^ lookup(
                *table,
                src@[sbase + k],
            ),
        forall|j: int|
            0 <= j < old(dst)@.len() && !(dbase <= j < dbase + width)
                ==> #[trigger] final(dst)@[j] == old(dst)@[j],
{
    let f = |d: u8, x: u8| -> (r: u8)
        ensures
            r == d ^ lookup(*table, x),
        { d ^ nibble_scale(table, x) };
    zip_bytes_span(dst, dbase, src, sbase, width, f);
}

/// `dst = table * dst` by nibble lookups.
fn lookup_assign(dst: &mut [u8], table: &ScaleTable)
    ensures
        final(dst)@.len() == old(dst)@.len(),
        forall|i: int|
            0 <= i < old(dst)@.len() ==> #[trigger] final(dst)@[i] == lookup(*table, old(dst)@[i]),
{
    let f = |x: u8| -> (r: u8)
        ensures
            r == lookup(*table, x),
        { nibble_scale(table, x) };
    map_bytes(dst, f);
}

/// `dst = table * src` over equal-length slices, by nibble lookups.
fn lookup_into(dst: &mut [u8], table: &ScaleTable, src: &[u8])
    requires
        old(dst)@.len() == src@.len(),
    ensures
        final(dst)@.len() == old(dst)@.len(),
        forall|i: int| 0 <= i < old(dst)@.len() ==> #[trigger] final(dst)@[i] == lookup(*table, src@[i]),
{
    let f = |_d: u8, x: u8| -> (r: u8)
        ensures
            r == lookup(*table, x),
        { nibble_scale(table, x) };
    zip_bytes(dst, src, f);
}

/// `dst ^= coeff * src` by nibble shuffle over 32-byte lanes; the remainder
/// goes to [`mul_add_ssse3`].
pub fn mul_add_avx2(token: X64V3Token, dst: &mut [u8], table: &ScaleTable, src: &[u8])
    requires
        old(dst)@.len() == src@.len(),
    ensures
        final(dst)@.len() == old(dst)@.len(),
        forall|i: int|
            0 <= i < old(dst)@.len() ==> #[trigger] final(dst)@[i] == old(dst)@[i] ^ lookup(
                *table,
                src@[i],
            ),
{
    let cut = dst.len() - dst.len() % 32;
    let (body, rest) = dst.split_at_mut(cut);
    let (src_body, src_rest) = src.split_at(cut);
    lookup_add(body, table, src_body);
    mul_add_ssse3(v2_of_v3(token), rest, table, src_rest);
    assert forall|i: int| cut <= i < old(dst)@.len() implies #[trigger] dst@[i] == old(dst)@[i]
        ^ lookup(*table, src@[i]) by {
        assert(dst@[i] == rest@[i - cut]);
    }
}

/// `dst ^= coeff * src` by nibble shuffle over 16-byte lanes and the
/// scalar nibble tail.
pub fn mul_add_ssse3(_token: X64V2Token, dst: &mut [u8], table: &ScaleTable, src: &[u8])
    requires
        old(dst)@.len() == src@.len(),
    ensures
        final(dst)@.len() == old(dst)@.len(),
        forall|i: int|
            0 <= i < old(dst)@.len() ==> #[trigger] final(dst)@[i] == old(dst)@[i] ^ lookup(
                *table,
                src@[i],
            ),
{
    lookup_add(dst, table, src);
}

/// `dst = coeff * src` by nibble shuffle over 32-byte lanes, fused out of
/// place; a destination large enough for streaming stores is split at its
/// 32-byte boundary.
pub fn mul_into_avx2(_token: X64V3Token, dst: &mut [u8], table: &ScaleTable, src: &[u8])
    requires
        old(dst)@.len() == src@.len(),
    ensures
        final(dst)@.len() == old(dst)@.len(),
        forall|i: int| 0 <= i < old(dst)@.len() ==> #[trigger] final(dst)@[i] == lookup(*table, src@[i]),
{
    match nt_split(dst, 1) {
        Some(peel) => {
            let (head, body) = dst.split_at_mut(peel);
            let (src_head, src_body) = src.split_at(peel);
            lookup_into(head, table, src_head);
            lookup_into(body, table, src_body);
            assert forall|i: int| 0 <= i < old(dst)@.len() implies #[trigger] dst@[i] == lookup(
                *table,
                src@[i],
            ) by {
                if i >= peel {
                    assert(dst@[i] == body@[i - peel]);
                }
            }
        },
        None => lookup_into(dst, table, src),
    }
}

/// `dst = coeff * dst` by nibble shuffle over 32-byte lanes; the remainder
/// goes to [`mul_assign_ssse3`].
pub fn mul_assign_avx2(token: X64V3Token, dst: &mut [u8], table: &ScaleTable)
    ensures
        final(dst)@.len() == old(dst)@.len(),
        forall|i: int|
            0 <= i < old(dst)@.len() ==> #[trigger] final(dst)@[i] == lookup(*table, old(dst)@[i]),
{
    let cut = dst.len() - dst.len() % 32;
    let (body, rest) = dst.split_at_mut(cut);
    lookup_assign(body, table);
    mul_assign_ssse3(v2_of_v3(token), rest, table);
    assert forall|i: int| cut <= i < old(dst)@.len() implies #[trigger] dst@[i] == lookup(
        *table,
        old(dst)@[i],
    ) by {
        assert(dst@[i] == rest@[i - cut]);
    }
}

/// `dst = coeff * dst` by nibble shuffle over 16-byte lanes and the scalar
/// nibble tail.
pub fn mul_assign_ssse3(_token: X64V2Token, dst: &mut [u8], table: &ScaleTable)
    ensures
        final(dst)@.len() == old(dst)@.len(),
        forall|i: int|
            0 <= i < old(dst)@.len() ==> #[trigger] final(dst)@[i] == lookup(*table, old(dst)@[i]),
{
    lookup_assign(dst, table);
}

/// `dst = coeff * src` by nibble shuffle over 16-byte lanes, fused out of
/// place.
pub fn mul_into_ssse3(_token: X64V2Token, dst: &mut [u8], table: &ScaleTable, src: &[u8])
    requires
        old(dst)@.len() == src@.len(),
    ensures
        final(dst)@.len() == old(dst)@.len(),
        forall|i: int| 0 <= i < old(dst)@.len() ==> #[trigger] final(dst)@[i] == lookup(*table, src@[i]),
{
    match nt_split(dst, 1) {
        Some(peel) => {
            let (head, body) = dst.split_at_mut(peel);
            let (src_head, src_body) = src.split_at(peel);
            lookup_into(head, table, src_head);
            lookup_into(body, table, src_body);
            assert forall|i: int| 0 <= i < old(dst)@.len() implies #[trigger] dst@[i] == lookup(
                *table,
                src@[i],
            ) by {
                if i >= peel {
                    assert(dst@[i] == body@[i - peel]);
                }
            }
        },
        None => lookup_into(dst, table, src),
    }
}

} // verus!
