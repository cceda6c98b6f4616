//! Goldilocks lane arithmetic: canonicalize, add, subtract, and the
//! half-product multiply with its split-fold reduction.

use crate::field::goldilocks::{self, EPS, MODULUS as GLD_P};
use vstd::arithmetic::div_mod::*;
use vstd::prelude::*;

verus! {

/// Low-32-bit lane mask.
pub const M32: u64 = 0xFFFF_FFFF;

/// Canonicalize a raw lane to `0..p` (one conditional subtract).
pub fn gld_canon(x: u64) -> (r: u64)
    ensures
        r < GLD_P,
        r == x as int % goldilocks::p(),
{
    let r = if x > GLD_P - 1 {
        x - GLD_P
    } else {
        x
    };
    proof {
        if x > GLD_P - 1 {
            lemma_mod_multiples_vanish(1, r as int, goldilocks::p());
        }
        lemma_small_mod(r as nat, goldilocks::p() as nat);
    }
    r
}

/// `a + b (mod p)` of two canonical lanes: a carry out of 64 bits has lost
/// `2^64 ≡ eps`, which the correction adds back; then one conditional
/// subtract.
pub fn gld_addmod(a: u64, b: u64) -> (r: u64)
    requires
        a < GLD_P,
        b < GLD_P,
    ensures
        r == goldilocks::add(a, b),
{
    let s = a.wrapping_add(b);
    let carry = a > s;
    let s2 = if carry {
        s.wrapping_add(EPS)
    } else {
        s
    };
    proof {
        if carry {
            assert(s == a + b - 0x1_0000_0000_0000_0000);
            assert(s2 == a + b - goldilocks::p());
        } else {
            assert(s2 == a + b);
        }
    }
    let r = gld_canon(s2);
    proof {
        if carry {
            lemma_mod_multiples_vanish(1, s2 as int, goldilocks::p());
        }
    }
    r
}

/// `a - b (mod p)` of two canonical lanes: a borrow has gained
/// `2^64 ≡ eps`, which the correction subtracts; then one conditional
/// subtract.
pub fn gld_submod(a: u64, b: u64) -> (r: u64)
    requires
        a < GLD_P,
        b < GLD_P,
    ensures
        r == goldilocks::sub(a, b),
{
    let d = a.wrapping_sub(b);
    let borrow = b > a;
    let d2 = if borrow {
        d.wrapping_sub(EPS)
    } else {
        d
    };
    proof {
        if borrow {
            assert(d2 == a - b + goldilocks::p());
            lemma_mod_multiples_vanish(1, a - b, goldilocks::p());
        }
    }
    let r = if d2 > GLD_P - 1 {
        d2 - GLD_P
    } else {
        d2
    };
    proof {
        lemma_small_mod(r as nat, goldilocks::p() as nat);
    }
    r
}

/// The split fold of a 128-bit value `hi * 2^64 + lo`: `2^64 ≡ eps` and
/// `2^96 ≡ -1`, so the value is `lo - hi_hi + hi_lo * eps (mod p)`; each
/// 64-bit wrap is corrected by `eps`, and one conditional subtract
/// canonicalizes.
pub fn gld_reduce_wide(hi: u64, lo: u64) -> (r: u64)
    ensures
        r == goldilocks::canon(hi * 0x1_0000_0000_0000_0000 + lo),
        r < GLD_P,
{
    let x_hi_hi = hi >> 32u64;
    let x_hi_lo = hi & M32;
    assert(x_hi_hi < 0x1_0000_0000u64 && x_hi_lo < 0x1_0000_0000u64 && hi == x_hi_hi
        * 0x1_0000_0000u64 + x_hi_lo) by (bit_vector)
        requires
            x_hi_hi == hi >> 32u64,
            x_hi_lo == hi & 0xFFFF_FFFFu64,
    ;
    let t0 = lo.wrapping_sub(x_hi_hi);
    let borrow = x_hi_hi > lo;
    let t0 = if borrow {
        t0.wrapping_sub(EPS)
    } else {
        t0
    };
    let ghost t0_val: int = lo - x_hi_hi + if borrow {
        goldilocks::p()
    } else {
        0
    };
    assert(t0 == t0_val);
    assert(x_hi_lo * EPS <= 0xFFFF_FFFE_0000_0001u64) by (nonlinear_arith)
        requires
            x_hi_lo < 0x1_0000_0000u64,
    ;
    let t1 = x_hi_lo * EPS;
    let res = t0.wrapping_add(t1);
    let carry = t0 > res;
    let res = if carry {
        res.wrapping_add(EPS)
    } else {
        res
    };
    let ghost res_val: int = t0 + t1 - if carry {
        goldilocks::p()
    } else {
        0
    };
    assert(res == res_val);
    proof {
        let p = goldilocks::p();
        let w: int = 0x1_0000_0000_0000_0000;
        let k: int = 0x1_0000_0000;
        // hi * 2^64 + lo == x_hi_hi * 2^96 + x_hi_lo * 2^64 + lo, and
        // 2^96 == (2^32 - 1) * p + (p - 1), 2^64 == p + eps.
        assert(hi * w + lo == x_hi_hi * (k * w) + x_hi_lo * w + lo) by (nonlinear_arith)
            requires
                hi == x_hi_hi * k + x_hi_lo,
        ;
        assert(x_hi_hi * (k * w) + x_hi_lo * w + lo == p * (x_hi_hi * (k + 1) + x_hi_lo) + (lo
            - x_hi_hi + x_hi_lo * EPS)) by (nonlinear_arith)
            requires
                p == 0xFFFF_FFFF_0000_0001int,
                w == 0x1_0000_0000_0000_0000int,
                k == 0x1_0000_0000int,
                EPS == 0xFFFF_FFFFu64,
        ;
        lemma_mod_multiples_vanish(x_hi_hi * (k + 1) + x_hi_lo, lo - x_hi_hi + x_hi_lo * EPS, p);
        let m: int = (if borrow {
            1int
        } else {
            0
        }) - (if carry {
            1int
        } else {
            0
        });
        assert(res_val == p * m + (lo - x_hi_hi + x_hi_lo * EPS));
        lemma_mod_multiples_vanish(m, lo - x_hi_hi + x_hi_lo * EPS, p);
    }
    gld_canon(res)
}

/// `a * b (mod p)` of two raw lanes: the four 32-bit half-products
/// assembled into a 128-bit value, then the split fold.
pub fn gld_mul(a: u64, b: u64) -> (r: u64)
    ensures
        r == goldilocks::mul(a, b),
        r < GLD_P,
{
    let a_lo = a & M32;
    let a_hi = a >> 32u64;
    let b_lo = b & M32;
    let b_hi = b >> 32u64;
    assert(a_lo < 0x1_0000_0000u64 && a_hi < 0x1_0000_0000u64 && a == a_hi * 0x1_0000_0000u64
        + a_lo) by (bit_vector)
        requires
            a_lo == a & 0xFFFF_FFFFu64,
            a_hi == a >> 32u64,
    ;
    assert(b_lo < 0x1_0000_0000u64 && b_hi < 0x1_0000_0000u64 && b == b_hi * 0x1_0000_0000u64
        + b_lo) by (bit_vector)
        requires
            b_lo == b & 0xFFFF_FFFFu64,
            b_hi == b >> 32u64,
    ;
    proof {
        lemma_half_product_bound(a_lo, b_lo);
        lemma_half_product_bound(a_lo, b_hi);
        lemma_half_product_bound(a_hi, b_lo);
        lemma_half_product_bound(a_hi, b_hi);
    }
    let ll = a_lo * b_lo;
    let lh = a_lo * b_hi;
    let hl = a_hi * b_lo;
    let hh = a_hi * b_hi;
    let (hi, lo) = assemble(ll, lh, hl, hh);
    proof {
        let k: int = 0x1_0000_0000;
        assert(a * b == hh * (k * k) + (lh + hl) * k + ll) by (nonlinear_arith)
            requires
                a == a_hi * k + a_lo,
                b == b_hi * k + b_lo,
                ll == a_lo * b_lo,
                lh == a_lo * b_hi,
                hl == a_hi * b_lo,
                hh == a_hi * b_hi,
        ;
    }
    gld_reduce_wide(hi, lo)
}

proof fn lemma_half_product_bound(x: u64, y: u64)
    requires
        x < 0x1_0000_0000u64,
        y < 0x1_0000_0000u64,
    ensures
        x * y <= 0xFFFF_FFFE_0000_0001u64,
{
    assert(x * y <= 0xFFFF_FFFE_0000_0001u64) by (nonlinear_arith)
        requires
            x < 0x1_0000_0000u64,
            y < 0x1_0000_0000u64,
    ;
}

/// Big-endian bignum assembly of four half-products into `(hi, lo)`; every
/// partial sum fits by construction.
fn assemble(ll: u64, lh: u64, hl: u64, hh: u64) -> (r: (u64, u64))
    requires
        ll <= 0xFFFF_FFFE_0000_0001u64,
        lh <= 0xFFFF_FFFE_0000_0001u64,
        hl <= 0xFFFF_FFFE_0000_0001u64,
        hh <= 0xFFFF_FFFE_0000_0001u64,
    ensures
        r.0 * 0x1_0000_0000_0000_0000int + r.1 == hh * 0x1_0000_0000_0000_0000int + (lh + hl)
            * 0x1_0000_0000int + ll,
{
    assert(ll == (ll >> 32u64) * 0x1_0000_0000u64 + (ll & 0xFFFF_FFFFu64) && ll >> 32u64
        <= 0xFFFF_FFFEu64 && ll & 0xFFFF_FFFFu64 <= 0xFFFF_FFFFu64) by (bit_vector)
        requires
            ll <= 0xFFFF_FFFE_0000_0001u64,
    ;
    assert(lh == (lh >> 32u64) * 0x1_0000_0000u64 + (lh & 0xFFFF_FFFFu64) && lh >> 32u64
        <= 0xFFFF_FFFEu64 && lh & 0xFFFF_FFFFu64 <= 0xFFFF_FFFFu64) by (bit_vector)
        requires
            lh <= 0xFFFF_FFFE_0000_0001u64,
    ;
    assert(hl == (hl >> 32u64) * 0x1_0000_0000u64 + (hl & 0xFFFF_FFFFu64) && hl >> 32u64
        <= 0xFFFF_FFFEu64 && hl & 0xFFFF_FFFFu64 <= 0xFFFF_FFFFu64) by (bit_vector)
        requires
            hl <= 0xFFFF_FFFE_0000_0001u64,
    ;
    let mid = (ll >> 32u64) + ((lh & M32) + (hl & M32));
    let c1 = mid & M32;
    let carry1 = mid >> 32u64;
    assert(mid == carry1 * 0x1_0000_0000u64 + c1 && carry1 <= 2 && c1 < 0x1_0000_0000u64)
        by (bit_vector)
        requires
            c1 == mid & 0xFFFF_FFFFu64,
            carry1 == mid >> 32u64,
            mid <= 0x2_FFFF_FFFDu64,
    ;
    let hi = ((lh >> 32u64) + (hl >> 32u64)) + (hh + carry1);
    let lo = (ll & M32) | (c1 << 32u64);
    proof {
        let k: int = 0x1_0000_0000;
        assert(lo == (ll & 0xFFFF_FFFFu64) + c1 * 0x1_0000_0000u64) by (bit_vector)
            requires
                lo == (ll & 0xFFFF_FFFFu64) | (c1 << 32u64),
                c1 < 0x1_0000_0000u64,
        ;
        assert(hi * (k * k) + lo == hh * (k * k) + (lh + hl) * k + ll) by (nonlinear_arith)
            requires
                k == 0x1_0000_0000int,
                ll == (ll >> 32u64) * k + (ll & 0xFFFF_FFFFu64),
                lh == (lh >> 32u64) * k + (lh & 0xFFFF_FFFFu64),
                hl == (hl >> 32u64) * k + (hl & 0xFFFF_FFFFu64),
                mid == (ll >> 32u64) + ((lh & 0xFFFF_FFFFu64) + (hl & 0xFFFF_FFFFu64)),
                mid == carry1 * k + c1,
                hi == ((lh >> 32u64) + (hl >> 32u64)) + (hh + carry1),
                lo == (ll & 0xFFFF_FFFFu64) + c1 * k,
        ;
    }
    (hi, lo)
}

/// Raw-lane addition: canonicalize both operands, add.
pub fn gld_add_raw(d: u64, s: u64) -> (r: u64)
    ensures
        r == goldilocks::add(d, s),
{
    let a = gld_canon(d);
    let b = gld_canon(s);
    proof {
        lemma_add_mod_noop(d as int, s as int, goldilocks::p());
    }
    gld_addmod(a, b)
}

/// Raw-lane subtraction: canonicalize both operands, subtract.
pub fn gld_sub_raw(d: u64, s: u64) -> (r: u64)
    ensures
        r == goldilocks::sub(d, s),
{
    let a = gld_canon(d);
    let b = gld_canon(s);
    proof {
        lemma_sub_mod_noop(d as int, s as int, goldilocks::p());
    }
    gld_submod(a, b)
}

/// `d + c * s (mod p)` over raw lanes: the canonical destination plus the
/// reduced product.
pub fn gld_axpy(c: u64, d: u64, s: u64) -> (r: u64)
    ensures
        r == goldilocks::add(d, goldilocks::mul(c, s)),
{
    let a = gld_canon(d);
    let prod = gld_mul(c, s);
    proof {
        lemma_add_mod_noop(d as int, prod as int, goldilocks::p());
        lemma_small_mod(prod as nat, goldilocks::p() as nat);
    }
    gld_addmod(a, prod)
}

} // verus!
