//! Single-buffer GF(2^16) kernels over `GF2P8MULB`: two byte multiplies per
//! element under the coefficient's broadcast words, no tables at all.

use super::{scale_gfni, tower_added, tower_assign_span, tower_byte, tower_scaled, tower_span};
use crate::field::gf16::{self, mul_hi, mul_lo};
use crate::kernel::x86::nt_split;
use crate::tables::TowerCoeff;
use archmage::X64V3GfniCryptoToken;
use vstd::prelude::*;

verus! {

/// `dst ^= coeff * src` with `GF2P8MULB`.
pub fn mul_add_gfni(_token: X64V3GfniCryptoToken, dst: &mut [u8], coeff: TowerCoeff, src: &[u8])
    requires
        old(dst)@.len() % 2 == 0,
        old(dst)@.len() == src@.len(),
        coeff.wf(),
    ensures
        tower_added(old(dst)@, final(dst)@, coeff.coeff.0, src@),
{
    let ghost c = coeff.coeff.0;
    let f = |a: u8, b: u8| -> (r: (u8, u8))
        ensures
            r.0 == mul_lo(gf16::lo(c), gf16::hi(c), a, b),
            r.1 == mul_hi(gf16::lo(c), gf16::hi(c), a, b),
        { scale_gfni(&coeff, a, b) };
    let n = dst.len();
    tower_span(dst, 0, src, 0, n, f, Ghost(c), true);
    assert forall|i: int| 0 <= i < n implies #[trigger] dst@[i] == old(dst)@[i] ^ tower_byte(
        c,
        src@,
        i,
    ) by {
        assert(dst@[0 + i] == old(dst)@[0 + i] ^ tower_byte(c, src@, 0 + i));
    }
}

/// `dst = coeff * dst` with `GF2P8MULB`.
pub fn mul_assign_gfni(_token: X64V3GfniCryptoToken, dst: &mut [u8], coeff: TowerCoeff)
    requires
        old(dst)@.len() % 2 == 0,
        coeff.wf(),
    ensures
        final(dst)@.len() == old(dst)@.len(),
        tower_scaled(final(dst)@, coeff.coeff.0, old(dst)@),
{
    let ghost c = coeff.coeff.0;
    let f = |a: u8, b: u8| -> (r: (u8, u8))
        ensures
            r.0 == mul_lo(gf16::lo(c), gf16::hi(c), a, b),
            r.1 == mul_hi(gf16::lo(c), gf16::hi(c), a, b),
        { scale_gfni(&coeff, a, b) };
    let n = dst.len();
    tower_assign_span(dst, 0, n, f, Ghost(c));
    assert forall|i: int| 0 <= i < n implies #[trigger] dst@[i] == tower_byte(c, old(dst)@, i) by {
        assert(dst@[0 + i] == tower_byte(c, old(dst)@, 0 + i));
    }
}

/// `dst = coeff * src` with `GF2P8MULB`, fused out of place: a destination
/// large enough for streaming stores is split at its 32-byte boundary.
pub fn mul_into_gfni(_token: X64V3GfniCryptoToken, dst: &mut [u8], coeff: TowerCoeff, src: &[u8])
    requires
        old(dst)@.len() % 2 == 0,
        old(dst)@.len() == src@.len(),
        coeff.wf(),
    ensures
        final(dst)@.len() == old(dst)@.len(),
        tower_scaled(final(dst)@, coeff.coeff.0, src@),
{
    let ghost c = coeff.coeff.0;
    let f = |a: u8, b: u8| -> (r: (u8, u8))
        ensures
            r.0 == mul_lo(gf16::lo(c), gf16::hi(c), a, b),
            r.1 == mul_hi(gf16::lo(c), gf16::hi(c), a, b),
        { scale_gfni(&coeff, a, b) };
    let n = dst.len();
    let peel = match nt_split(dst, 2) {
        Some(peel) => peel,
        None => 0,
    };
    tower_span(dst, 0, src, 0, peel, f, Ghost(c), false);
    let ghost mid = dst@;
    tower_span(dst, peel, src, peel, n - peel, f, Ghost(c), false);
    assert forall|i: int| 0 <= i < n implies #[trigger] dst@[i] == tower_byte(c, src@, i) by {
        if i < peel {
            assert(mid[0 + i] == 0u8 ^ tower_byte(c, src@, 0 + i));
            assert(dst@[i] == mid[i]);
        } else {
            assert(dst@[peel + (i - peel)] == 0u8 ^ tower_byte(c, src@, peel + (i - peel)));
        }
        crate::field::gf8::lemma_xor_zero(tower_byte(c, src@, i));
    }
}

} // verus!
