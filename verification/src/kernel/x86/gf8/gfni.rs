//! Single-buffer GF(2^8) AXPY kernels on the GFNI multiply.
//!
//! `GF2P8MULB` is a native `GF(2)[x] / 0x11B` multiply, so a `Gf8B`
//! coefficient is nothing but a broadcast byte. `VGF2P8AFFINEQB` applies an
//! arbitrary 8×8 GF(2) matrix per byte and so serves `Gf8D`: the
//! coefficient enters as its affine matrix qword, and its nibble table
//! covers the sub-XMM tail — the bytes past the last whole 16-byte lane.

use super::{Gfni, affine_byte, brem, bscale_assign, bscale_into};
use crate::field::gf8::{affine_apply, lemma_affine_mul, mul_matrix};
use crate::field::gf8b::{self, Elem};
use crate::field::gf8d;
use crate::kernel::x86::nt_split;
use crate::lanes::{map_bytes, zip_bytes};
use crate::tables::{ScaleTable, lemma_lookup, lookup, nibble_scale};
use archmage::X64V3GfniCryptoToken;
use vstd::prelude::*;

verus! {

/// `dst ^= coeff * src` using `GF2P8MULB`.
pub fn mul_add_gfni(_token: X64V3GfniCryptoToken, dst: &mut [u8], coeff: Elem, src: &[u8])
    requires
        old(dst)@.len() == src@.len(),
    ensures
        final(dst)@.len() == old(dst)@.len(),
        forall|i: int|
            0 <= i < old(dst)@.len() ==> #[trigger] final(dst)@[i] == old(dst)@[i] ^ gf8b::mul(
                coeff.0,
                src@[i],
            ),
{
    brem::<Gfni>(dst, coeff, src);
}

/// `dst = coeff * dst` using `GF2P8MULB`.
pub fn mul_assign_gfni(_token: X64V3GfniCryptoToken, dst: &mut [u8], coeff: Elem)
    ensures
        final(dst)@.len() == old(dst)@.len(),
        forall|i: int|
            0 <= i < old(dst)@.len() ==> #[trigger] final(dst)@[i] == gf8b::mul(
                coeff.0,
                old(dst)@[i],
            ),
{
    bscale_assign::<Gfni>(dst, coeff);
}

/// `dst = coeff * src` using `GF2P8MULB`, fused out of place: a destination
/// large enough for streaming stores is split at its 32-byte boundary.
pub fn mul_into_gfni(_token: X64V3GfniCryptoToken, dst: &mut [u8], coeff: Elem, src: &[u8])
    requires
        old(dst)@.len() == src@.len(),
    ensures
        final(dst)@.len() == old(dst)@.len(),
        forall|i: int|
            0 <= i < old(dst)@.len() ==> #[trigger] final(dst)@[i] == gf8b::mul(coeff.0, src@[i]),
{
    match nt_split(dst, 1) {
        Some(peel) => {
            let (head, body) = dst.split_at_mut(peel);
            let (src_head, src_body) = src.split_at(peel);
            bscale_into::<Gfni>(head, coeff, src_head);
            bscale_into::<Gfni>(body, coeff, src_body);
            assert forall|i: int| 0 <= i < old(dst)@.len() implies #[trigger] dst@[i]
                == gf8b::mul(coeff.0, src@[i]) by {
                if i >= peel {
                    assert(dst@[i] == body@[i - peel]);
                }
            }
        },
        None => bscale_into::<Gfni>(dst, coeff, src),
    }
}

/// The byte where the sub-XMM tail of a `len`-byte buffer starts.
pub open spec fn lane_cut(len: int) -> int {
    len - len % 16
}

/// `dst ^= coeff * src` using `VGF2P8AFFINEQB`: every byte of the whole
/// 16-byte lanes through the matrix `map`, the sub-XMM tail through the
/// nibble `table`.
pub fn mul_add_affine(
    _token: X64V3GfniCryptoToken,
    dst: &mut [u8],
    map: u64,
    table: &ScaleTable,
    src: &[u8],
)
    requires
        old(dst)@.len() == src@.len(),
    ensures
        final(dst)@.len() == old(dst)@.len(),
        forall|i: int|
            0 <= i < lane_cut(old(dst)@.len() as int) ==> #[trigger] final(dst)@[i] == old(dst)@[i]
                ^ affine_apply(map, src@[i]),
        forall|i: int|
            lane_cut(old(dst)@.len() as int) <= i < old(dst)@.len() ==> #[trigger] final(dst)@[i]
                == old(dst)@[i] ^ lookup(*table, src@[i]),
{
    mul_add_affine_impl(dst, map, table, src);
}

/// The affine `mul_add` body over equal-length slices.
pub fn mul_add_affine_impl(dst: &mut [u8], map: u64, table: &ScaleTable, src: &[u8])
    requires
        old(dst)@.len() == src@.len(),
    ensures
        final(dst)@.len() == old(dst)@.len(),
        forall|i: int|
            0 <= i < lane_cut(old(dst)@.len() as int) ==> #[trigger] final(dst)@[i] == old(dst)@[i]
                ^ affine_apply(map, src@[i]),
        forall|i: int|
            lane_cut(old(dst)@.len() as int) <= i < old(dst)@.len() ==> #[trigger] final(dst)@[i]
                == old(dst)@[i] ^ lookup(*table, src@[i]),
{
    let cut = dst.len() - dst.len() % 16;
    let (body, tail) = dst.split_at_mut(cut);
    let (src_body, src_tail) = src.split_at(cut);
    let f = |d: u8, x: u8| -> (r: u8)
        ensures
            r == d ^ affine_apply(map, x),
        { d ^ affine_byte(map, x) };
    let g = |d: u8, x: u8| -> (r: u8)
        ensures
            r == d ^ lookup(*table, x),
        { d ^ nibble_scale(table, x) };
    zip_bytes(body, src_body, f);
    zip_bytes(tail, src_tail, g);
    assert forall|i: int| cut <= i < old(dst)@.len() implies #[trigger] dst@[i] == old(dst)@[i]
        ^ lookup(*table, src@[i]) by {
        assert(dst@[i] == tail@[i - cut]);
    }
}

/// `dst = coeff * dst` using `VGF2P8AFFINEQB`, the sub-XMM tail through the
/// nibble `table`.
pub fn mul_assign_affine(
    _token: X64V3GfniCryptoToken,
    dst: &mut [u8],
    map: u64,
    table: &ScaleTable,
)
    ensures
        final(dst)@.len() == old(dst)@.len(),
        forall|i: int|
            0 <= i < lane_cut(old(dst)@.len() as int) ==> #[trigger] final(dst)@[i]
                == affine_apply(map, old(dst)@[i]),
        forall|i: int|
            lane_cut(old(dst)@.len() as int) <= i < old(dst)@.len() ==> #[trigger] final(dst)@[i]
                == lookup(*table, old(dst)@[i]),
{
    let cut = dst.len() - dst.len() % 16;
    let (body, tail) = dst.split_at_mut(cut);
    let f = |x: u8| -> (r: u8)
        ensures
            r == affine_apply(map, x),
        { affine_byte(map, x) };
    let g = |x: u8| -> (r: u8)
        ensures
            r == lookup(*table, x),
        { nibble_scale(table, x) };
    map_bytes(body, f);
    map_bytes(tail, g);
    assert forall|i: int| cut <= i < old(dst)@.len() implies #[trigger] dst@[i] == lookup(
        *table,
        old(dst)@[i],
    ) by {
        assert(dst@[i] == tail@[i - cut]);
    }
}

/// The fused affine `mul_into` body: whole lanes through `map`, the sub-XMM
/// tail through `table`.
fn mul_into_affine_impl(dst: &mut [u8], map: u64, table: &ScaleTable, src: &[u8])
    requires
        old(dst)@.len() == src@.len(),
    ensures
        final(dst)@.len() == old(dst)@.len(),
        forall|i: int|
            0 <= i < lane_cut(old(dst)@.len() as int) ==> #[trigger] final(dst)@[i]
                == affine_apply(map, src@[i]),
        forall|i: int|
            lane_cut(old(dst)@.len() as int) <= i < old(dst)@.len() ==> #[trigger] final(dst)@[i]
                == lookup(*table, src@[i]),
{
    let cut = dst.len() - dst.len() % 16;
    let (body, tail) = dst.split_at_mut(cut);
    let (src_body, src_tail) = src.split_at(cut);
    let f = |_d: u8, x: u8| -> (r: u8)
        ensures
            r == affine_apply(map, x),
        { affine_byte(map, x) };
    let g = |_d: u8, x: u8| -> (r: u8)
        ensures
            r == lookup(*table, x),
        { nibble_scale(table, x) };
    zip_bytes(body, src_body, f);
    zip_bytes(tail, src_tail, g);
    assert forall|i: int| cut <= i < old(dst)@.len() implies #[trigger] dst@[i] == lookup(
        *table,
        src@[i],
    ) by {
        assert(dst@[i] == tail@[i - cut]);
    }
}

/// `dst = coeff * src` using `VGF2P8AFFINEQB`, fused out of place. A
/// destination large enough for streaming stores is split at its 32-byte
/// boundary and each half runs the fused body, so which bytes fall in a
/// sub-XMM tail depends on the buffer's address: every byte goes through
/// the matrix or through the table, and when both describe the same `Gf8D`
/// coefficient every byte is its product.
pub fn mul_into_affine(
    _token: X64V3GfniCryptoToken,
    dst: &mut [u8],
    map: u64,
    table: &ScaleTable,
    src: &[u8],
)
    requires
        old(dst)@.len() == src@.len(),
    ensures
        final(dst)@.len() == old(dst)@.len(),
        forall|i: int|
            0 <= i < old(dst)@.len() ==> #[trigger] final(dst)@[i] == affine_apply(map, src@[i])
                || final(dst)@[i] == lookup(*table, src@[i]),
        table.wf(gf8d::RED) && map == mul_matrix(gf8d::RED, table.coeff.0) ==> forall|i: int|
            0 <= i < old(dst)@.len() ==> #[trigger] final(dst)@[i] == gf8d::mul(
                table.coeff.0,
                src@[i],
            ),
{
    match nt_split(dst, 1) {
        Some(peel) => {
            let (head, body) = dst.split_at_mut(peel);
            let (src_head, src_body) = src.split_at(peel);
            mul_into_affine_impl(head, map, table, src_head);
            mul_into_affine_impl(body, map, table, src_body);
            assert forall|i: int| 0 <= i < old(dst)@.len() implies #[trigger] dst@[i]
                == affine_apply(map, src@[i]) || dst@[i] == lookup(*table, src@[i]) by {
                if i >= peel {
                    assert(dst@[i] == body@[i - peel]);
                }
            }
        },
        None => mul_into_affine_impl(dst, map, table, src),
    }
    proof {
        if table.wf(gf8d::RED) && map == mul_matrix(gf8d::RED, table.coeff.0) {
            assert forall|i: int| 0 <= i < old(dst)@.len() implies #[trigger] dst@[i]
                == gf8d::mul(table.coeff.0, src@[i]) by {
                lemma_lookup(*table, gf8d::RED, src@[i]);
                lemma_affine_mul(gf8d::RED, table.coeff.0, src@[i]);
            }
        }
    }
}

} // verus!
