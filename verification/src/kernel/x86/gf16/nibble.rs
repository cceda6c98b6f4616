//! Single-buffer GF(2^16) kernels over split-nibble lookups: each of the
//! four base-field factors of the coefficient is a pair of table lookups,
//! the even and odd byte lanes taking two each.

use super::{scale_tables, tower_added, tower_assign_span, tower_byte, tower_scaled, tower_span};
use crate::field::gf16::{self, mul_hi, mul_lo};
use crate::kernel::x86::nt_split;
use crate::tables::TowerTables;
use archmage::{X64V2Token, X64V3Token};
use vstd::prelude::*;

verus! {

/// `dst ^= coeff * src` by nibble lookups over 32-byte lanes.
pub fn mul_add_avx2(_token: X64V3Token, dst: &mut [u8], tables: &TowerTables, src: &[u8])
    requires
        old(dst)@.len() % 2 == 0,
        old(dst)@.len() == src@.len(),
        tables.wf(),
    ensures
        tower_added(old(dst)@, final(dst)@, tables.coeff.0, src@),
{
    let ghost c = tables.coeff.0;
    let f = |a: u8, b: u8| -> (r: (u8, u8))
        ensures
            r.0 == mul_lo(gf16::lo(c), gf16::hi(c), a, b),
            r.1 == mul_hi(gf16::lo(c), gf16::hi(c), a, b),
        { scale_tables(tables, a, b) };
    let n = dst.len();
    tower_span(dst, 0, src, 0, n, f, Ghost(c), true);
    assert forall|i: int| 0 <= i < n implies #[trigger] dst@[i] == old(dst)@[i] ^ tower_byte(
        c,
        src@,
        i,
    ) by {
        assert(dst@[0 + i] == old(dst)@[0 + i] ^ tower_byte(c, src@, 0 + i));
    }
}

/// `dst = coeff * dst` by nibble lookups over 32-byte lanes.
pub fn mul_assign_avx2(_token: X64V3Token, dst: &mut [u8], tables: &TowerTables)
    requires
        old(dst)@.len() % 2 == 0,
        tables.wf(),
    ensures
        final(dst)@.len() == old(dst)@.len(),
        tower_scaled(final(dst)@, tables.coeff.0, old(dst)@),
{
    let ghost c = tables.coeff.0;
    let f = |a: u8, b: u8| -> (r: (u8, u8))
        ensures
            r.0 == mul_lo(gf16::lo(c), gf16::hi(c), a, b),
            r.1 == mul_hi(gf16::lo(c), gf16::hi(c), a, b),
        { scale_tables(tables, a, b) };
    let n = dst.len();
    tower_assign_span(dst, 0, n, f, Ghost(c));
    assert forall|i: int| 0 <= i < n implies #[trigger] dst@[i] == tower_byte(c, old(dst)@, i) by {
        assert(dst@[0 + i] == tower_byte(c, old(dst)@, 0 + i));
    }
}

/// `dst = coeff * src` by nibble lookups over 32-byte lanes, fused out of place: a destination
/// large enough for streaming stores is split at its 32-byte boundary.
pub fn mul_into_avx2(_token: X64V3Token, dst: &mut [u8], tables: &TowerTables, src: &[u8])
    requires
        old(dst)@.len() % 2 == 0,
        old(dst)@.len() == src@.len(),
        tables.wf(),
    ensures
        final(dst)@.len() == old(dst)@.len(),
        tower_scaled(final(dst)@, tables.coeff.0, src@),
{
    let ghost c = tables.coeff.0;
    let f = |a: u8, b: u8| -> (r: (u8, u8))
        ensures
            r.0 == mul_lo(gf16::lo(c), gf16::hi(c), a, b),
            r.1 == mul_hi(gf16::lo(c), gf16::hi(c), a, b),
        { scale_tables(tables, a, b) };
    let n = dst.len();
    let peel = match nt_split(dst, 2) {
        Some(peel) => peel,
        None => 0,
    };
    tower_span(dst, 0, src, 0, peel, f, Ghost(c), false);
    let ghost mid = dst@;
    tower_span(dst, peel, src, peel, n - peel, f, Ghost(c), false);
    assert forall|i: int| 0 <= i < n implies #[trigger] dst@[i] == tower_byte(c, src@, i) by {
        if i < peel {
            assert(mid[0 + i] == 0u8 ^ tower_byte(c, src@, 0 + i));
            assert(dst@[i] == mid[i]);
        } else {
            assert(dst@[peel + (i - peel)] == 0u8 ^ tower_byte(c, src@, peel + (i - peel)));
        }
        crate::field::gf8::lemma_xor_zero(tower_byte(c, src@, i));
    }
}



/// `dst ^= coeff * src` by nibble lookups over 16-byte lanes.
pub fn mul_add_ssse3(_token: X64V2Token, dst: &mut [u8], tables: &TowerTables, src: &[u8])
    requires
        old(dst)@.len() % 2 == 0,
        old(dst)@.len() == src@.len(),
        tables.wf(),
    ensures
        tower_added(old(dst)@, final(dst)@, tables.coeff.0, src@),
{
    let ghost c = tables.coeff.0;
    let f = |a: u8, b: u8| -> (r: (u8, u8))
        ensures
            r.0 == mul_lo(gf16::lo(c), gf16::hi(c), a, b),
            r.1 == mul_hi(gf16::lo(c), gf16::hi(c), a, b),
        { scale_tables(tables, a, b) };
    let n = dst.len();
    tower_span(dst, 0, src, 0, n, f, Ghost(c), true);
    assert forall|i: int| 0 <= i < n implies #[trigger] dst@[i] == old(dst)@[i] ^ tower_byte(
        c,
        src@,
        i,
    ) by {
        assert(dst@[0 + i] == old(dst)@[0 + i] ^ tower_byte(c, src@, 0 + i));
    }
}

/// `dst = coeff * dst` by nibble lookups over 16-byte lanes.
pub fn mul_assign_ssse3(_token: X64V2Token, dst: &mut [u8], tables: &TowerTables)
    requires
        old(dst)@.len() % 2 == 0,
        tables.wf(),
    ensures
        final(dst)@.len() == old(dst)@.len(),
        tower_scaled(final(dst)@, tables.coeff.0, old(dst)@),
{
    let ghost c = tables.coeff.0;
    let f = |a: u8, b: u8| -> (r: (u8, u8))
        ensures
            r.0 == mul_lo(gf16::lo(c), gf16::hi(c), a, b),
            r.1 == mul_hi(gf16::lo(c), gf16::hi(c), a, b),
        { scale_tables(tables, a, b) };
    let n = dst.len();
    tower_assign_span(dst, 0, n, f, Ghost(c));
    assert forall|i: int| 0 <= i < n implies #[trigger] dst@[i] == tower_byte(c, old(dst)@, i) by {
        assert(dst@[0 + i] == tower_byte(c, old(dst)@, 0 + i));
    }
}

/// `dst = coeff * src` by nibble lookups over 16-byte lanes, fused out of place: a destination
/// large enough for streaming stores is split at its 32-byte boundary.
pub fn mul_into_ssse3(_token: X64V2Token, dst: &mut [u8], tables: &TowerTables, src: &[u8])
    requires
        old(dst)@.len() % 2 == 0,
        old(dst)@.len() == src@.len(),
        tables.wf(),
    ensures
        final(dst)@.len() == old(dst)@.len(),
        tower_scaled(final(dst)@, tables.coeff.0, src@),
{
    let ghost c = tables.coeff.0;
    let f = |a: u8, b: u8| -> (r: (u8, u8))
        ensures
            r.0 == mul_lo(gf16::lo(c), gf16::hi(c), a, b),
            r.1 == mul_hi(gf16::lo(c), gf16::hi(c), a, b),
        { scale_tables(tables, a, b) };
    let n = dst.len();
    let peel = match nt_split(dst, 2) {
        Some(peel) => peel,
        None => 0,
    };
    tower_span(dst, 0, src, 0, peel, f, Ghost(c), false);
    let ghost mid = dst@;
    tower_span(dst, peel, src, peel, n - peel, f, Ghost(c), false);
    assert forall|i: int| 0 <= i < n implies #[trigger] dst@[i] == tower_byte(c, src@, i) by {
        if i < peel {
            assert(mid[0 + i] == 0u8 ^ tower_byte(c, src@, 0 + i));
            assert(dst@[i] == mid[i]);
        } else {
            assert(dst@[peel + (i - peel)] == 0u8 ^ tower_byte(c, src@, peel + (i - peel)));
        }
        crate::field::gf8::lemma_xor_zero(tower_byte(c, src@, i));
    }
}

} // verus!
