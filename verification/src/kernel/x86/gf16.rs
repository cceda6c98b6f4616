//! GF(2^16) tower kernels for x86 / `x86_64`.
//!
//! Every kernel here is the same identity, spelled three ways. Interleaved
//! bytes `[a, b]` are `a + b*u`; multiplying by `c0 + c1*u` gives
//!
//! ```text
//! even lane = c0*a       ^ (DELTA*c1)*b
//! odd  lane = (c0+c1)*b  ^ c1*a
//! ```
//!
//! Both lanes are one alternating-coefficient byte multiply of the source,
//! added to one of the source with adjacent bytes exchanged.
//!
//! - **GFNI** does each byte multiply with `GF2P8MULB`, the alternating
//!   coefficients straight out of [`TowerCoeff`].
//! - **AVX2 / SSSE3** have no field multiply, so each of the four base-field
//!   factors is a split-nibble lookup against [`TowerTables`].

pub mod elementwise;
pub mod gather;
pub mod gfni;
pub mod matrix;
pub mod nibble;
pub mod scatter;

use crate::field::gf16::{self, Elem, lemma_tower_scale, mul_hi, mul_lo};
use crate::field::gf8::{gf_mul, gf_mul_exec};
use crate::field::gf8b;
use crate::tables::{TowerCoeff, TowerTables, lemma_lookup, nibble_scale, tower_factor};
use vstd::prelude::*;

verus! {

/// Byte lengths that end inside a GF(2^16) element are rejected.
pub fn check_elements(name: &str, bytes: usize)
    requires
        bytes % 2 == 0,
{
}

/// The two broadcast words of a coefficient, reinterpreted as the
/// halfwords a 16-bit broadcast takes.
pub fn broadcast_words(coeff: TowerCoeff) -> (r: (i16, i16))
    ensures
        r.0 == coeff.same as i16,
        r.1 == coeff.cross as i16,
{
    (coeff.same as i16, coeff.cross as i16)
}

/// Byte `i` of `c * x` over a buffer of interleaved elements: the constant
/// component at even `i`, the `u` component at odd `i`, of the product of
/// `c` with the element byte `i` belongs to.
pub open spec fn tower_byte(c: u16, s: Seq<u8>, i: int) -> u8 {
    if i % 2 == 0 {
        mul_lo(gf16::lo(c), gf16::hi(c), s[i], s[i + 1])
    } else {
        mul_hi(gf16::lo(c), gf16::hi(c), s[i - 1], s[i])
    }
}

/// `after` is `before` plus `c * src`, element by element.
pub open spec fn tower_added(before: Seq<u8>, after: Seq<u8>, c: u16, src: Seq<u8>) -> bool {
    &&& after.len() == before.len()
    &&& forall|i: int|
        0 <= i < before.len() ==> #[trigger] after[i] == before[i] ^ tower_byte(c, src, i)
}

/// `after` is `c * src`, element by element.
pub open spec fn tower_scaled(after: Seq<u8>, c: u16, src: Seq<u8>) -> bool {
    forall|i: int| 0 <= i < after.len() ==> #[trigger] after[i] == tower_byte(c, src, i)
}

/// `f` multiplies an element `[a, b]` by `c`.
pub open spec fn scales_by<F: Fn(u8, u8) -> (u8, u8)>(f: F, c: u16) -> bool {
    &&& forall|a: u8, b: u8| f.requires((a, b))
    &&& forall|a: u8, b: u8, r: (u8, u8)|
        f.ensures((a, b), r) ==> r.0 == mul_lo(gf16::lo(c), gf16::hi(c), a, b) && r.1 == mul_hi(
            gf16::lo(c),
            gf16::hi(c),
            a,
            b,
        )
}

/// `c * [a, b]` by `GF2P8MULB`: the source under `same`, the exchanged
/// source under `cross`.
pub fn scale_gfni(coeff: &TowerCoeff, a: u8, b: u8) -> (r: (u8, u8))
    requires
        coeff.wf(),
    ensures
        r.0 == mul_lo(gf16::lo(coeff.coeff.0), gf16::hi(coeff.coeff.0), a, b),
        r.1 == mul_hi(gf16::lo(coeff.coeff.0), gf16::hi(coeff.coeff.0), a, b),
{
    let s0 = (coeff.same & 0xff) as u8;
    let s1 = (coeff.same >> 8u16) as u8;
    let x0 = (coeff.cross & 0xff) as u8;
    let x1 = (coeff.cross >> 8u16) as u8;
    proof {
        let c0 = gf16::lo(coeff.coeff.0);
        let c1 = gf16::hi(coeff.coeff.0);
        gf16::lemma_pack(c0, c0 ^ c1, 0, 0);
        gf16::lemma_pack(gf_mul(gf8b::RED, gf16::DELTA, c1), c1, 0, 0);
        lemma_tower_scale(c0, c1, a, b);
    }
    (
        gf_mul_exec(gf8b::RED, s0, a) ^ gf_mul_exec(gf8b::RED, x0, b),
        gf_mul_exec(gf8b::RED, s1, b) ^ gf_mul_exec(gf8b::RED, x1, a),
    )
}

/// `c * [a, b]` by nibble lookups of the four factor tables.
pub fn scale_tables(tables: &TowerTables, a: u8, b: u8) -> (r: (u8, u8))
    requires
        tables.wf(),
    ensures
        r.0 == mul_lo(gf16::lo(tables.coeff.0), gf16::hi(tables.coeff.0), a, b),
        r.1 == mul_hi(gf16::lo(tables.coeff.0), gf16::hi(tables.coeff.0), a, b),
{
    proof {
        let c = tables.coeff.0;
        assert(tables.factors@[0].coeff.0 == tower_factor(c, 0));
        assert(tables.factors@[1].coeff.0 == tower_factor(c, 1));
        assert(tables.factors@[2].coeff.0 == tower_factor(c, 2));
        assert(tables.factors@[3].coeff.0 == tower_factor(c, 3));
        lemma_lookup(tables.factors@[0], gf8b::RED, a);
        lemma_lookup(tables.factors@[1], gf8b::RED, b);
        lemma_lookup(tables.factors@[2], gf8b::RED, b);
        lemma_lookup(tables.factors@[3], gf8b::RED, a);
        lemma_tower_scale(gf16::lo(c), gf16::hi(c), a, b);
    }
    (
        nibble_scale(&tables.factors[0], a) ^ nibble_scale(&tables.factors[2], b),
        nibble_scale(&tables.factors[1], b) ^ nibble_scale(&tables.factors[3], a),
    )
}

/// Multiply the elements of a window by `c`: for every byte `k < nbytes`,
/// `dst[dbase + k]` becomes byte `sbase + k` of `c * src`, added to the old
/// byte when `accumulate`. Bytes outside the window are unchanged.
pub fn tower_span<F: Fn(u8, u8) -> (u8, u8)>(
    dst: &mut [u8],
    dbase: usize,
    src: &[u8],
    sbase: usize,
    nbytes: usize,
    f: F,
    Ghost(c): Ghost<u16>,
    accumulate: bool,
)
    requires
        dbase + nbytes <= old(dst)@.len(),
        sbase + nbytes <= src@.len(),
        sbase % 2 == 0,
        nbytes % 2 == 0,
        scales_by(f, c),
    ensures
        final(dst)@.len() == old(dst)@.len(),
        forall|k: int|
            0 <= k < nbytes ==> #[trigger] final(dst)@[dbase + k] == (if accumulate {
                old(dst)@[dbase + k]
            } else {
                0u8
            }) ^ tower_byte(c, src@, sbase + k),
        forall|j: int|
            0 <= j < old(dst)@.len() && !(dbase <= j < dbase + nbytes)
                ==> #[trigger] final(dst)@[j] == old(dst)@[j],
{
    let total = dst.len();
    let slen = src.len();
    let mut k: usize = 0;
    while k < nbytes
        invariant
            total == old(dst)@.len(),
            slen == src@.len(),
            dbase + nbytes <= total,
            sbase + nbytes <= slen,
            sbase % 2 == 0,
            nbytes % 2 == 0,
            k % 2 == 0,
            k <= nbytes,
            scales_by(f, c),
            dst@.len() == total,
            forall|t: int|
                0 <= t < k ==> #[trigger] dst@[dbase + t] == (if accumulate {
                    old(dst)@[dbase + t]
                } else {
                    0u8
                }) ^ tower_byte(c, src@, sbase + t),
            forall|j: int|
                0 <= j < total && !(dbase <= j < dbase + k) ==> #[trigger] dst@[j] == old(dst)@[j],
        decreases nbytes - k,
    {
        let a = src[sbase + k];
        let b = src[sbase + k + 1];
        let (l, h) = f(a, b);
        if accumulate {
            dst[dbase + k] = dst[dbase + k] ^ l;
            dst[dbase + k + 1] = dst[dbase + k + 1] ^ h;
        } else {
            dst[dbase + k] = l;
            dst[dbase + k + 1] = h;
            proof {
                crate::field::gf8::lemma_xor_zero(l);
                crate::field::gf8::lemma_xor_zero(h);
            }
        }
        assert(tower_byte(c, src@, sbase + k) == l);
        assert(tower_byte(c, src@, sbase + k + 1) == h);
        k += 2;
    }
}

/// Multiply the elements of a window in place by `c`:
/// `dst[base .. base + nbytes] = c * dst[base .. base + nbytes]`.
pub fn tower_assign_span<F: Fn(u8, u8) -> (u8, u8)>(
    dst: &mut [u8],
    base: usize,
    nbytes: usize,
    f: F,
    Ghost(c): Ghost<u16>,
)
    requires
        base + nbytes <= old(dst)@.len(),
        base % 2 == 0,
        nbytes % 2 == 0,
        scales_by(f, c),
    ensures
        final(dst)@.len() == old(dst)@.len(),
        forall|k: int|
            0 <= k < nbytes ==> #[trigger] final(dst)@[base + k] == tower_byte(
                c,
                old(dst)@,
                base + k,
            ),
        forall|j: int|
            0 <= j < old(dst)@.len() && !(base <= j < base + nbytes)
                ==> #[trigger] final(dst)@[j] == old(dst)@[j],
{
    let total = dst.len();
    let mut k: usize = 0;
    while k < nbytes
        invariant
            total == old(dst)@.len(),
            base + nbytes <= total,
            base % 2 == 0,
            nbytes % 2 == 0,
            k % 2 == 0,
            k <= nbytes,
            scales_by(f, c),
            dst@.len() == total,
            forall|t: int|
                0 <= t < k ==> #[trigger] dst@[base + t] == tower_byte(c, old(dst)@, base + t),
            forall|j: int|
                0 <= j < total && !(base <= j < base + k) ==> #[trigger] dst@[j] == old(dst)@[j],
        decreases nbytes - k,
    {
        let a = dst[base + k];
        let b = dst[base + k + 1];
        let (l, h) = f(a, b);
        dst[base + k] = l;
        dst[base + k + 1] = h;
        assert(tower_byte(c, old(dst)@, base + k) == l);
        assert(tower_byte(c, old(dst)@, base + k + 1) == h);
        k += 2;
    }
}

/// A GF(2^16) coefficient in a form the shuffle kernels can consume.
pub trait TableCoefficient {
    /// The coefficient, as its `u16`.
    spec fn value(&self) -> u16;

    /// The raw coefficient element.
    fn coefficient(&self) -> (r: Elem)
        ensures
            r.0 == self.value(),
    ;

    /// The four nibble tables of the coefficient, built if it holds none.
    fn tables(&self) -> (r: TowerTables)
        ensures
            r.wf(),
            r.coeff.0 == self.value(),
    ;
}

impl TableCoefficient for Elem {
    open spec fn value(&self) -> u16 {
        self.0
    }

    fn coefficient(&self) -> (r: Elem) {
        *self
    }

    fn tables(&self) -> (r: TowerTables) {
        TowerTables::new(*self)
    }
}

impl TableCoefficient for TowerTables {
    open spec fn value(&self) -> u16 {
        self.coeff.0
    }

    fn coefficient(&self) -> (r: Elem) {
        self.coeff
    }

    fn tables(&self) -> (r: TowerTables) {
        TowerTables::new(self.coeff)
    }
}

/// Byte `i` of the element-wise product of two buffers of interleaved
/// elements.
pub open spec fn product_byte(a: Seq<u8>, b: Seq<u8>, i: int) -> u8 {
    if i % 2 == 0 {
        mul_lo(a[i], a[i + 1], b[i], b[i + 1])
    } else {
        mul_hi(a[i - 1], a[i], b[i - 1], b[i])
    }
}

/// `f` multiplies two elements `[x0, x1] * [y0, y1]`.
pub open spec fn multiplies<F: Fn(u8, u8, u8, u8) -> (u8, u8)>(f: F) -> bool {
    &&& forall|x0: u8, x1: u8, y0: u8, y1: u8| f.requires((x0, x1, y0, y1))
    &&& forall|x0: u8, x1: u8, y0: u8, y1: u8, r: (u8, u8)|
        f.ensures((x0, x1, y0, y1), r) ==> r.0 == mul_lo(x0, x1, y0, y1) && r.1 == mul_hi(
            x0,
            x1,
            y0,
            y1,
        )
}

/// `dst[i] = a[i] * b[i]` element by element, by `f`.
pub fn pairs_into<F: Fn(u8, u8, u8, u8) -> (u8, u8)>(dst: &mut [u8], a: &[u8], b: &[u8], f: F)
    requires
        old(dst)@.len() % 2 == 0,
        old(dst)@.len() == a@.len(),
        old(dst)@.len() == b@.len(),
        multiplies(f),
    ensures
        final(dst)@.len() == old(dst)@.len(),
        forall|i: int| 0 <= i < old(dst)@.len() ==> #[trigger] final(dst)@[i] == product_byte(a@, b@, i),
{
    let n = dst.len();
    let mut k: usize = 0;
    while k < n
        invariant
            n == old(dst)@.len(),
            n % 2 == 0,
            n == a@.len(),
            n == b@.len(),
            k % 2 == 0,
            k <= n,
            multiplies(f),
            dst@.len() == n,
            forall|t: int| 0 <= t < k ==> #[trigger] dst@[t] == product_byte(a@, b@, t),
        decreases n - k,
    {
        let (l, h) = f(a[k], a[k + 1], b[k], b[k + 1]);
        dst[k] = l;
        dst[k + 1] = h;
        assert(product_byte(a@, b@, k as int) == l);
        assert(product_byte(a@, b@, k + 1) == h);
        k += 2;
    }
}

/// `dst[i] = dst[i] * src[i]` element by element, by `f`.
pub fn pairs_assign<F: Fn(u8, u8, u8, u8) -> (u8, u8)>(dst: &mut [u8], src: &[u8], f: F)
    requires
        old(dst)@.len() % 2 == 0,
        old(dst)@.len() == src@.len(),
        multiplies(f),
    ensures
        final(dst)@.len() == old(dst)@.len(),
        forall|i: int|
            0 <= i < old(dst)@.len() ==> #[trigger] final(dst)@[i] == product_byte(old(dst)@, src@, i),
{
    let n = dst.len();
    let mut k: usize = 0;
    while k < n
        invariant
            n == old(dst)@.len(),
            n % 2 == 0,
            n == src@.len(),
            k % 2 == 0,
            k <= n,
            multiplies(f),
            dst@.len() == n,
            forall|t: int| 0 <= t < k ==> #[trigger] dst@[t] == product_byte(old(dst)@, src@, t),
            forall|t: int| k <= t < n ==> #[trigger] dst@[t] == old(dst)@[t],
        decreases n - k,
    {
        let (l, h) = f(dst[k], dst[k + 1], src[k], src[k + 1]);
        dst[k] = l;
        dst[k + 1] = h;
        assert(product_byte(old(dst)@, src@, k as int) == l);
        assert(product_byte(old(dst)@, src@, k + 1) == h);
        k += 2;
    }
}

/// AXPY of one coefficient between windows:
/// `dst[dbase + k] ^= byte sbase + k of coeff * src`, by the coefficient's
/// broadcast words (`GF2P8MULB`) or, when `by_table`, by its nibble tables.
pub fn axpy16<C: TableCoefficient>(
    dst: &mut [u8],
    dbase: usize,
    coeff: &C,
    src: &[u8],
    sbase: usize,
    nbytes: usize,
    by_table: bool,
)
    requires
        dbase + nbytes <= old(dst)@.len(),
        sbase + nbytes <= src@.len(),
        sbase % 2 == 0,
        nbytes % 2 == 0,
    ensures
        final(dst)@.len() == old(dst)@.len(),
        forall|k: int|
            0 <= k < nbytes ==> #[trigger] final(dst)@[dbase + k] == old(dst)@[dbase + k]
                ^ tower_byte(coeff.value(), src@, sbase + k),
        forall|j: int|
            0 <= j < old(dst)@.len() && !(dbase <= j < dbase + nbytes)
                ==> #[trigger] final(dst)@[j] == old(dst)@[j],
{
    let ghost c = coeff.value();
    if by_table {
        let tables = coeff.tables();
        let f = |a: u8, b: u8| -> (r: (u8, u8))
            ensures
                r.0 == mul_lo(gf16::lo(c), gf16::hi(c), a, b),
                r.1 == mul_hi(gf16::lo(c), gf16::hi(c), a, b),
            { scale_tables(&tables, a, b) };
        tower_span(dst, dbase, src, sbase, nbytes, f, Ghost(c), true);
    } else {
        let words = TowerCoeff::new(coeff.coefficient());
        let f = |a: u8, b: u8| -> (r: (u8, u8))
            ensures
                r.0 == mul_lo(gf16::lo(c), gf16::hi(c), a, b),
                r.1 == mul_hi(gf16::lo(c), gf16::hi(c), a, b),
            { scale_gfni(&words, a, b) };
        tower_span(dst, dbase, src, sbase, nbytes, f, Ghost(c), true);
    }
}

} // verus!
