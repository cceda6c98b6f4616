//! Lane-wise products of two buffers: `dst[i] = a[i] * b[i]`.
//!
//! No coefficient and no table: both operands vary per lane, so the GFNI
//! form is a byte-by-byte `GF2P8MULB` and the shuffle forms carry the
//! Russian-peasant multiply branch-free: `PADDB` doubles each lane and the
//! sign of the lane recovers the bit the doubling dropped.

use crate::field::gf8::{gf_mul, gf_mul_exec, mul_steps, sel, xtime};
use crate::field::gf8b::{self, Elem};
use crate::lanes::zip3_bytes;
use crate::tokens::v2_of_v3;
use archmage::{X64V2Token, X64V3GfniCryptoToken, X64V3Token};
use crate::field::gf8::{lemma_xor_assoc, lemma_xor_zero};
use vstd::prelude::*;

verus! {

/// `dst[i] = a[i] * b[i]` using byte-by-byte `GF2P8MULB`.
pub fn mul_elementwise_gfni(_token: X64V3GfniCryptoToken, dst: &mut [u8], a: &[u8], b: &[u8])
    requires
        old(dst)@.len() == a@.len(),
        old(dst)@.len() == b@.len(),
    ensures
        final(dst)@.len() == old(dst)@.len(),
        forall|i: int| 0 <= i < old(dst)@.len() ==> #[trigger] final(dst)@[i] == gf8b::mul(a@[i], b@[i]),
{
    let f = |x: u8, y: u8| -> (r: u8)
        ensures
            r == gf8b::mul(x, y),
        { Elem(x).mul(Elem(y)).0 };
    zip3_bytes(dst, a, b, f);
}

/// Reference GF(2^8) product under reduction-polynomial low byte `RED`:
/// `0x1b` for the AES field, `0x1d` for the Reed–Solomon field.
pub fn gf_mul_ref<const RED: u8>(a: u8, b: u8) -> (r: u8)
    ensures
        r == gf_mul(RED, a, b),
{
    gf_mul_exec(RED, a, b)
}

/// One lane of the branch-free shift/reduce product: per round, the
/// all-ones mask of `b`'s low bit selects `a` into the product, the lane's
/// sign (its top bit) selects the reduction byte, `a + a` doubles, and
/// `b` moves down one bit.
pub fn branchless_lane(red: u8, a0: u8, b0: u8) -> (r: u8)
    ensures
        r == gf_mul(red, a0, b0),
{
    let mut product: u8 = 0;
    let mut a = a0;
    let mut b = b0;
    let mut round: u8 = 0;
    assert(0u8 ^ gf_mul(red, a0, b0) == gf_mul(red, a0, b0)) by (bit_vector);
    while round < 8
        invariant
            round <= 8,
            product ^ mul_steps(red, a, b, (8 - round) as nat) == gf_mul(red, a0, b0),
        decreases 8 - round,
    {
        let ghost pa = a;
        let ghost pb = b;
        let ghost pp = product;
        let active: u8 = if b & 1 == 1 {
            0xff
        } else {
            0
        };
        product = product ^ (a & active);
        let carry: u8 = if (a as i8) < 0 {
            0xff
        } else {
            0
        };
        a = a.wrapping_add(a) ^ (red & carry);
        b = (b >> 1u8) & 0x7f;
        proof {
            assert(product == pp ^ sel(pb, pa)) by (bit_vector)
                requires
                    active == (if pb & 1u8 == 1u8 {
                        0xffu8
                    } else {
                        0u8
                    }),
                    product == pp ^ (pa & active),
            ;
            assert(carry == (if pa & 0x80u8 != 0u8 {
                0xffu8
            } else {
                0u8
            })) by (bit_vector)
                requires
                    carry == (if (pa as i8) < 0i8 {
                        0xffu8
                    } else {
                        0u8
                    }),
            ;
            assert(a == xtime(red, pa) && b == (pb >> 1u8) as u8) by (bit_vector)
                requires
                    carry == (if pa & 0x80u8 != 0u8 {
                        0xffu8
                    } else {
                        0u8
                    }),
                    a == (pa.wrapping_add(pa) ^ (red & carry)) as u8,
                    b == ((pb >> 1u8) & 0x7fu8) as u8,
            ;
            let rest = mul_steps(red, a, b, (8 - round - 1) as nat);
            let s = sel(pb, pa);
            lemma_xor_assoc(pp, s, rest);
        }
        round += 1;
    }
    proof {
        lemma_xor_zero(product);
    }
    product
}

/// Lane-parallel GF(2^8) multiplication of two varying 32-byte vectors.
pub fn multiply_vectors_avx2<const RED: u8>(a: [u8; 32], b: [u8; 32]) -> (r: [u8; 32])
    ensures
        forall|i: int| 0 <= i < 32 ==> #[trigger] r@[i] == gf_mul(RED, a@[i], b@[i]),
{
    let mut out = [0u8; 32];
    let mut i: usize = 0;
    while i < 32
        invariant
            i <= 32,
            forall|k: int| 0 <= k < i ==> #[trigger] out@[k] == gf_mul(RED, a@[k], b@[k]),
        decreases 32 - i,
    {
        out[i] = branchless_lane(RED, a[i], b[i]);
        i += 1;
    }
    out
}

/// The 16-byte form of [`multiply_vectors_avx2`].
pub fn multiply_vectors_sse<const RED: u8>(a: [u8; 16], b: [u8; 16]) -> (r: [u8; 16])
    ensures
        forall|i: int| 0 <= i < 16 ==> #[trigger] r@[i] == gf_mul(RED, a@[i], b@[i]),
{
    let mut out = [0u8; 16];
    let mut i: usize = 0;
    while i < 16
        invariant
            i <= 16,
            forall|k: int| 0 <= k < i ==> #[trigger] out@[k] == gf_mul(RED, a@[k], b@[k]),
        decreases 16 - i,
    {
        out[i] = branchless_lane(RED, a[i], b[i]);
        i += 1;
    }
    out
}

/// `dst[i] = a[i] * b[i]` by branch-free shift/reduce over 32-byte lanes;
/// the remainder goes to [`mul_elementwise_ssse3`].
pub fn mul_elementwise_avx2<const RED: u8>(token: X64V3Token, dst: &mut [u8], a: &[u8], b: &[u8])
    requires
        old(dst)@.len() == a@.len(),
        old(dst)@.len() == b@.len(),
    ensures
        final(dst)@.len() == old(dst)@.len(),
        forall|i: int| 0 <= i < old(dst)@.len() ==> #[trigger] final(dst)@[i] == gf_mul(RED, a@[i], b@[i]),
{
    let cut = dst.len() - dst.len() % 32;
    let (body, rest) = dst.split_at_mut(cut);
    let (a_body, a_rest) = a.split_at(cut);
    let (b_body, b_rest) = b.split_at(cut);
    let f = |x: u8, y: u8| -> (r: u8)
        ensures
            r == gf_mul(RED, x, y),
        { branchless_lane(RED, x, y) };
    zip3_bytes(body, a_body, b_body, f);
    mul_elementwise_ssse3::<RED>(v2_of_v3(token), rest, a_rest, b_rest);
    assert forall|i: int| cut <= i < old(dst)@.len() implies #[trigger] dst@[i] == gf_mul(
        RED,
        a@[i],
        b@[i],
    ) by {
        assert(dst@[i] == rest@[i - cut]);
    }
}

/// `dst[i] = a[i] * b[i]` by branch-free shift/reduce over 16-byte lanes,
/// then the reference product on the sub-lane tail.
pub fn mul_elementwise_ssse3<const RED: u8>(_token: X64V2Token, dst: &mut [u8], a: &[u8], b: &[u8])
    requires
        old(dst)@.len() == a@.len(),
        old(dst)@.len() == b@.len(),
    ensures
        final(dst)@.len() == old(dst)@.len(),
        forall|i: int| 0 <= i < old(dst)@.len() ==> #[trigger] final(dst)@[i] == gf_mul(RED, a@[i], b@[i]),
{
    let cut = dst.len() - dst.len() % 16;
    let (body, tail) = dst.split_at_mut(cut);
    let (a_body, a_tail) = a.split_at(cut);
    let (b_body, b_tail) = b.split_at(cut);
    let f = |x: u8, y: u8| -> (r: u8)
        ensures
            r == gf_mul(RED, x, y),
        { branchless_lane(RED, x, y) };
    let g = |x: u8, y: u8| -> (r: u8)
        ensures
            r == gf_mul(RED, x, y),
        { gf_mul_ref::<RED>(x, y) };
    zip3_bytes(body, a_body, b_body, f);
    zip3_bytes(tail, a_tail, b_tail, g);
    assert forall|i: int| cut <= i < old(dst)@.len() implies #[trigger] dst@[i] == gf_mul(
        RED,
        a@[i],
        b@[i],
    ) by {
        assert(dst@[i] == tail@[i - cut]);
    }
}

} // verus!
