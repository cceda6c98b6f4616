//! GF(2^8) kernels for x86 and `x86_64`.
//!
//! Two multiply strategies, selected by the capability the caller holds:
//!
//! - **GFNI.** `GF2P8MULB` is a native `GF(2)[x] / 0x11B` multiply, so a
//!   `Gf8B` coefficient is a broadcast byte; `VGF2P8AFFINEQB` applies an
//!   arbitrary 8×8 GF(2) matrix per byte and so multiplies under `0x11D`
//!   for `Gf8D`.
//! - **Nibble shuffle (AVX2, SSSE3).** `c * x` splits into
//!   `c * (x & 0xf) ^ c * (x & 0xf0)`, two lookups in a [`ScaleTable`].
//!
//! The multi-row kernels (scatter, gather, matrix) differ between the two
//! byte fields in exactly three places — how a coefficient becomes a
//! multiply factor, which one-instruction multiply folds it in, and which
//! nibble bank the sub-lane tail reads — so they are generic over the
//! [`Blocked`] seam below.

pub mod elementwise;
pub mod gather;
pub mod gfni;
pub mod matrix;
pub mod nibble;
pub mod nibble_rows;
pub mod rows;
pub mod scatter;
pub mod experiments;









use crate::field::gf8::{
    affine_apply, gf_mul, gf_mul_exec, lemma_affine_mul, matrix_row, mul_matrix, parity,
};
use crate::field::{gf8b, gf8d};
use crate::lanes::{map_bytes, zip_bytes, zip_bytes_at, zip_bytes_span};
use crate::tables::{
    Prepared8D, ScaleTable, affine_8b, affine_8d, lemma_lookup, scale_table, scale_table_8d,
};
use nibble::lookup_span;
use vstd::prelude::*;

verus! {

/// Parity of the set bits of `v`.
fn parity_exec(v: u8) -> (r: u8)
    ensures
        r == parity(v),
{
    let a = v ^ (v >> 4u8);
    let b = a ^ (a >> 2u8);
    (b ^ (b >> 1u8)) & 1
}

/// One byte lane of `VGF2P8AFFINEQB` with a zero constant: output bit `i`
/// is the parity of `x` under matrix byte `7 - i`.
pub fn affine_byte(m: u64, x: u8) -> (r: u8)
    ensures
        r == affine_apply(m, x),
{
    let r0 = ((m >> 56u64) & 0xff) as u8;
    let r1 = ((m >> 48u64) & 0xff) as u8;
    let r2 = ((m >> 40u64) & 0xff) as u8;
    let r3 = ((m >> 32u64) & 0xff) as u8;
    let r4 = ((m >> 24u64) & 0xff) as u8;
    let r5 = ((m >> 16u64) & 0xff) as u8;
    let r6 = ((m >> 8u64) & 0xff) as u8;
    let r7 = (m & 0xff) as u8;
    proof {
        assert(r0 == matrix_row(m, 0) && r1 == matrix_row(m, 1) && r2 == matrix_row(m, 2) && r3
            == matrix_row(m, 3) && r4 == matrix_row(m, 4) && r5 == matrix_row(m, 5) && r6
            == matrix_row(m, 6)) by (bit_vector)
            requires
                r0 == ((m >> 56u64) & 0xffu64) as u8,
                r1 == ((m >> 48u64) & 0xffu64) as u8,
                r2 == ((m >> 40u64) & 0xffu64) as u8,
                r3 == ((m >> 32u64) & 0xffu64) as u8,
                r4 == ((m >> 24u64) & 0xffu64) as u8,
                r5 == ((m >> 16u64) & 0xffu64) as u8,
                r6 == ((m >> 8u64) & 0xffu64) as u8,
        ;
        assert(r7 == matrix_row(m, 7)) by (bit_vector)
            requires
                r7 == (m & 0xffu64) as u8,
        ;
    }
    parity_exec(r0 & x) | (parity_exec(r1 & x) << 1u8) | (parity_exec(r2 & x) << 2u8) | (
    parity_exec(r3 & x) << 3u8) | (parity_exec(r4 & x) << 4u8) | (parity_exec(r5 & x) << 5u8)
        | (parity_exec(r6 & x) << 6u8) | (parity_exec(r7 & x) << 7u8)
}

/// The per-field multiply seam of the blocked GF(2^8) kernels.
///
/// A coefficient becomes a multiply factor word once ([`Blocked::factor`]),
/// and the factor multiplies byte lanes ([`Blocked::apply`]): a broadcast
/// byte under `GF2P8MULB`, a matrix qword under `VGF2P8AFFINEQB`.
pub trait Blocked {
    /// Coefficient form selected by the strategy.
    type Coeff: Copy;

    /// The reduction byte of the field the strategy multiplies in.
    spec fn red() -> u8;

    /// The field element a coefficient stands for.
    spec fn value(c: Self::Coeff) -> u8;

    /// The coefficient's prepared forms agree with its value.
    spec fn prepared(c: Self::Coeff) -> bool;

    /// `true` when the multiply is `VGF2P8AFFINEQB`, `false` for
    /// `GF2P8MULB`.
    spec fn is_affine() -> bool;

    /// The additive identity, for staging arrays.
    fn zero() -> (r: Self::Coeff)
        ensures
            Self::prepared(r),
            Self::value(r) == 0,
    ;

    /// `true` when the multiply is `VGF2P8AFFINEQB`.
    fn affine() -> (r: bool)
        ensures
            r == Self::is_affine(),
    ;

    /// Raw coefficient byte.
    fn byte(coeff: Self::Coeff) -> (r: u8)
        requires
            Self::prepared(coeff),
        ensures
            r == Self::value(coeff),
    ;

    /// The `VGF2P8AFFINEQB` matrix qword (zero when the multiply is not
    /// affine).
    fn map(coeff: Self::Coeff) -> (r: u64)
        requires
            Self::prepared(coeff),
        ensures
            Self::is_affine() ==> r == mul_matrix(Self::red(), Self::value(coeff)),
    ;

    /// The coefficient's sub-lane nibble tables.
    fn table(coeff: Self::Coeff) -> (r: ScaleTable)
        requires
            Self::prepared(coeff),
        ensures
            r.wf(Self::red()),
            r.coeff.0 == Self::value(coeff),
    ;

    /// `factor * x` over one byte lane, one instruction.
    fn apply(factor: u64, x: u8) -> (r: u8)
        ensures
            Self::is_affine() ==> r == affine_apply(factor, x),
            !Self::is_affine() ==> r == gf_mul(Self::red(), factor as u8, x),
    ;
}

/// `factor * x` as the strategy's one-instruction multiply computes it.
pub open spec fn factor_product<S: Blocked>(factor: u64, x: u8) -> u8 {
    if S::is_affine() {
        affine_apply(factor, x)
    } else {
        gf_mul(S::red(), factor as u8, x)
    }
}

/// `factor` is the multiply factor of the field element `v`.
pub open spec fn factor_ok<S: Blocked>(factor: u64, v: u8) -> bool {
    &&& S::is_affine() ==> factor == mul_matrix(S::red(), v)
    &&& !S::is_affine() ==> factor == v as u64
}

/// A factor multiplies by the element it was resolved from.
pub proof fn lemma_factor_product<S: Blocked>(factor: u64, v: u8, x: u8)
    requires
        factor_ok::<S>(factor, v),
    ensures
        factor_product::<S>(factor, x) == gf_mul(S::red(), v, x),
{
    if S::is_affine() {
        lemma_affine_mul(S::red(), v, x);
    } else {
        assert(factor as u8 == v);
    }
}

/// `coeff * x` over one byte lane given the resolved factor.
pub fn bmul<S: Blocked>(x: u8, factor: u64) -> (r: u8)
    ensures
        r == factor_product::<S>(factor, x),
{
    S::apply(factor, x)
}

/// The multiply factor word of one coefficient: the `VGF2P8AFFINEQB` map on
/// the affine fields, the raw coefficient byte on the native `GF2P8MULB`
/// one.
pub fn factor_word<S: Blocked>(coeff: S::Coeff) -> (w: u64)
    requires
        S::prepared(coeff),
    ensures
        factor_ok::<S>(w, S::value(coeff)),
{
    if S::affine() {
        S::map(coeff)
    } else {
        S::byte(coeff) as u64
    }
}

/// Single-row AXPY `dst ^= coeff * src` over equal-length slices: the
/// factor resolved once, every byte lane folded in with it.
pub fn brem<S: Blocked>(dst: &mut [u8], coeff: S::Coeff, src: &[u8])
    requires
        old(dst)@.len() == src@.len(),
        S::prepared(coeff),
    ensures
        final(dst)@.len() == old(dst)@.len(),
        forall|i: int|
            0 <= i < old(dst)@.len() ==> #[trigger] final(dst)@[i] == old(dst)@[i] ^ gf_mul(
                S::red(),
                S::value(coeff),
                src@[i],
            ),
{
    let factor = factor_word::<S>(coeff);
    let ghost v = S::value(coeff);
    let f = |d: u8, x: u8| -> (r: u8)
        ensures
            r == d ^ gf_mul(S::red(), v, x),
        {
            let p = bmul::<S>(x, factor);
            proof {
                lemma_factor_product::<S>(factor, v, x);
            }
            d ^ p
        };
    zip_bytes(dst, src, f);
}

/// AXPY into a window of a larger buffer:
/// `dst[base + k] ^= coeff * src[k]` for `k < src.len()`, every byte outside
/// the window left as it was.
pub fn brem_at<S: Blocked>(dst: &mut [u8], base: usize, coeff: S::Coeff, src: &[u8])
    requires
        base + src@.len() <= old(dst)@.len(),
        S::prepared(coeff),
    ensures
        final(dst)@.len() == old(dst)@.len(),
        forall|k: int|
            0 <= k < src@.len() ==> #[trigger] final(dst)@[base + k] == old(dst)@[base + k]
                ^ gf_mul(S::red(), S::value(coeff), src@[k]),
        forall|j: int|
            0 <= j < old(dst)@.len() && !(base <= j < base + src@.len())
                ==> #[trigger] final(dst)@[j] == old(dst)@[j],
{
    let factor = factor_word::<S>(coeff);
    let ghost v = S::value(coeff);
    let f = |d: u8, x: u8| -> (r: u8)
        ensures
            r == d ^ gf_mul(S::red(), v, x),
        {
            let p = bmul::<S>(x, factor);
            proof {
                lemma_factor_product::<S>(factor, v, x);
            }
            d ^ p
        };
    zip_bytes_at(dst, base, src, f);
}

/// AXPY into a window by the coefficient's nibble tables:
/// `dst[base + k] ^= coeff * src[k]`, every byte outside the window left as
/// it was.
pub fn table_at<S: Blocked>(dst: &mut [u8], base: usize, coeff: S::Coeff, src: &[u8])
    requires
        base + src@.len() <= old(dst)@.len(),
        S::prepared(coeff),
    ensures
        final(dst)@.len() == old(dst)@.len(),
        forall|k: int|
            0 <= k < src@.len() ==> #[trigger] final(dst)@[base + k] == old(dst)@[base + k]
                ^ gf_mul(S::red(), S::value(coeff), src@[k]),
        forall|j: int|
            0 <= j < old(dst)@.len() && !(base <= j < base + src@.len())
                ==> #[trigger] final(dst)@[j] == old(dst)@[j],
{
    let table = S::table(coeff);
    lookup_span(dst, base, &table, src, 0, src.len());
    assert forall|k: int| 0 <= k < src@.len() implies #[trigger] dst@[base + k] == old(dst)@[base
        + k] ^ gf_mul(S::red(), S::value(coeff), src@[k]) by {
        lemma_lookup(table, S::red(), src@[k]);
    }
}

/// AXPY between windows: `dst[dbase + k] ^= coeff * src[sbase + k]` for
/// `k < width`, every byte outside the destination window left as it was.
pub fn brem_span<S: Blocked>(
    dst: &mut [u8],
    dbase: usize,
    coeff: S::Coeff,
    src: &[u8],
    sbase: usize,
    width: usize,
)
    requires
        dbase + width <= old(dst)@.len(),
        sbase + width <= src@.len(),
        S::prepared(coeff),
    ensures
        final(dst)@.len() == old(dst)@.len(),
        forall|k: int|
            0 <= k < width ==> #[trigger] final(dst)@[dbase + k] == old(dst)@[dbase + k] ^ gf_mul(
                S::red(),
                S::value(coeff),
                src@[sbase + k],
            ),
        forall|j: int|
            0 <= j < old(dst)@.len() && !(dbase <= j < dbase + width)
                ==> #[trigger] final(dst)@[j] == old(dst)@[j],
{
    let factor = factor_word::<S>(coeff);
    let ghost v = S::value(coeff);
    let f = |d: u8, x: u8| -> (r: u8)
        ensures
            r == d ^ gf_mul(S::red(), v, x),
        {
            let p = bmul::<S>(x, factor);
            proof {
                lemma_factor_product::<S>(factor, v, x);
            }
            d ^ p
        };
    zip_bytes_span(dst, dbase, src, sbase, width, f);
}

/// In-place scale `dst = coeff * dst`.
pub fn bscale_assign<S: Blocked>(dst: &mut [u8], coeff: S::Coeff)
    requires
        S::prepared(coeff),
    ensures
        final(dst)@.len() == old(dst)@.len(),
        forall|i: int|
            0 <= i < old(dst)@.len() ==> #[trigger] final(dst)@[i] == gf_mul(
                S::red(),
                S::value(coeff),
                old(dst)@[i],
            ),
{
    let factor = factor_word::<S>(coeff);
    let ghost v = S::value(coeff);
    let f = |x: u8| -> (r: u8)
        ensures
            r == gf_mul(S::red(), v, x),
        {
            let p = bmul::<S>(x, factor);
            proof {
                lemma_factor_product::<S>(factor, v, x);
            }
            p
        };
    map_bytes(dst, f);
}

/// Out-of-place scale `dst = coeff * src` over equal-length slices.
pub fn bscale_into<S: Blocked>(dst: &mut [u8], coeff: S::Coeff, src: &[u8])
    requires
        old(dst)@.len() == src@.len(),
        S::prepared(coeff),
    ensures
        final(dst)@.len() == old(dst)@.len(),
        forall|i: int|
            0 <= i < old(dst)@.len() ==> #[trigger] final(dst)@[i] == gf_mul(
                S::red(),
                S::value(coeff),
                src@[i],
            ),
{
    let factor = factor_word::<S>(coeff);
    let ghost v = S::value(coeff);
    let f = |_d: u8, x: u8| -> (r: u8)
        ensures
            r == gf_mul(S::red(), v, x),
        {
            let p = bmul::<S>(x, factor);
            proof {
                lemma_factor_product::<S>(factor, v, x);
            }
            p
        };
    zip_bytes(dst, src, f);
}

/// Native GFNI multiply in the AES field `0x11B` (`Gf8B`).
pub struct Gfni;

impl Blocked for Gfni {
    type Coeff = gf8b::Elem;

    open spec fn red() -> u8 {
        gf8b::RED
    }

    open spec fn value(c: gf8b::Elem) -> u8 {
        c.0
    }

    open spec fn prepared(c: gf8b::Elem) -> bool {
        true
    }

    open spec fn is_affine() -> bool {
        false
    }

    fn zero() -> (r: gf8b::Elem) {
        gf8b::Elem(0)
    }

    fn affine() -> (r: bool) {
        false
    }

    fn byte(coeff: gf8b::Elem) -> (r: u8) {
        coeff.0
    }

    fn map(_coeff: gf8b::Elem) -> (r: u64) {
        0
    }

    fn table(coeff: gf8b::Elem) -> (r: ScaleTable) {
        scale_table(coeff)
    }

    fn apply(factor: u64, x: u8) -> (r: u8) {
        gf_mul_exec(gf8b::RED, factor as u8, x)
    }
}

/// A `Gf8B` coefficient prepared for the experimental affine multiply: the
/// map lookup stays outside the timed body, and the nibble table rides along
/// for sub-lane remainders.
#[derive(Clone, Copy)]
pub struct Affine8BFactor {
    pub(crate) map: u64,
    pub(crate) table: ScaleTable,
}

impl Affine8BFactor {
    /// The map and the table both describe the table's coefficient.
    pub closed spec fn wf(&self) -> bool {
        &&& self.table.wf(gf8b::RED)
        &&& self.map == mul_matrix(gf8b::RED, self.table.coeff.0)
    }

    /// The coefficient this factor multiplies by.
    pub closed spec fn coeff(&self) -> u8 {
        self.table.coeff.0
    }

    /// The `VGF2P8AFFINEQB` matrix qword the factor carries.
    pub closed spec fn word(&self) -> u64 {
        self.map
    }

    /// The nibble tables the factor carries for sub-lane remainders.
    pub closed spec fn tables(&self) -> ScaleTable {
        self.table
    }

    /// What a well-formed factor fixes: its matrix qword is the affine
    /// matrix of multiplication by its coefficient, so it maps every byte
    /// `x` to `coeff * x`, and its nibble tables are those of the same
    /// coefficient.
    pub proof fn lemma_wf(&self)
        requires
            self.wf(),
        ensures
            self.word() == mul_matrix(gf8b::RED, self.coeff()),
            forall|x: u8| #[trigger] affine_apply(self.word(), x) == gf_mul(gf8b::RED, self.coeff(), x),
            self.tables().wf(gf8b::RED),
            self.tables().coeff.0 == self.coeff(),
    {
        assert forall|x: u8| #[trigger] affine_apply(self.word(), x) == gf_mul(
            gf8b::RED,
            self.coeff(),
            x,
        ) by {
            lemma_affine_mul(gf8b::RED, self.coeff(), x);
        }
    }
}

/// Prepare one `Gf8B` coefficient for [`mul_add_gather_affine_8b`].
pub fn prepare_affine_8b(coeff: gf8b::Elem) -> (r: Affine8BFactor)
    ensures
        r.wf(),
        r.coeff() == coeff.0,
{
    Affine8BFactor { map: affine_8b(coeff), table: scale_table(coeff) }
}

/// Experimental affine-map multiply in the AES field `0x11B` (`Gf8B`).
pub struct Affine8B;

impl Blocked for Affine8B {
    type Coeff = Affine8BFactor;

    open spec fn red() -> u8 {
        gf8b::RED
    }

    open spec fn value(c: Affine8BFactor) -> u8 {
        c.coeff()
    }

    open spec fn prepared(c: Affine8BFactor) -> bool {
        c.wf()
    }

    open spec fn is_affine() -> bool {
        true
    }

    fn zero() -> (r: Affine8BFactor) {
        prepare_affine_8b(gf8b::Elem(0))
    }

    fn affine() -> (r: bool) {
        true
    }

    fn byte(coeff: Affine8BFactor) -> (r: u8) {
        coeff.table.coeff.0
    }

    fn map(coeff: Affine8BFactor) -> (r: u64) {
        coeff.map
    }

    fn table(coeff: Affine8BFactor) -> (r: ScaleTable) {
        coeff.table
    }

    fn apply(factor: u64, x: u8) -> (r: u8) {
        affine_byte(factor, x)
    }
}

/// Affine-map multiply in the Reed–Solomon field `0x11D` (`Gf8D`).
pub struct Affine8D;

impl Blocked for Affine8D {
    type Coeff = gf8d::Elem;

    open spec fn red() -> u8 {
        gf8d::RED
    }

    open spec fn value(c: gf8d::Elem) -> u8 {
        c.0
    }

    open spec fn prepared(c: gf8d::Elem) -> bool {
        true
    }

    open spec fn is_affine() -> bool {
        true
    }

    fn zero() -> (r: gf8d::Elem) {
        gf8d::Elem(0)
    }

    fn affine() -> (r: bool) {
        true
    }

    fn byte(coeff: gf8d::Elem) -> (r: u8) {
        coeff.0
    }

    fn map(coeff: gf8d::Elem) -> (r: u64) {
        affine_8d(coeff)
    }

    fn table(coeff: gf8d::Elem) -> (r: ScaleTable) {
        scale_table_8d(coeff)
    }

    fn apply(factor: u64, x: u8) -> (r: u8) {
        affine_byte(factor, x)
    }
}

/// [`Affine8D`] over coefficients already prepared by the caller: the
/// multiply word is the stored affine map.
pub struct Affine8DPrepared;

impl Blocked for Affine8DPrepared {
    type Coeff = Prepared8D;

    open spec fn red() -> u8 {
        gf8d::RED
    }

    open spec fn value(c: Prepared8D) -> u8 {
        c.table.coeff.0
    }

    open spec fn prepared(c: Prepared8D) -> bool {
        c.wf()
    }

    open spec fn is_affine() -> bool {
        true
    }

    fn zero() -> (r: Prepared8D) {
        Prepared8D::new(gf8d::Elem(0))
    }

    fn affine() -> (r: bool) {
        true
    }

    fn byte(coeff: Prepared8D) -> (r: u8) {
        coeff.table.coeff.0
    }

    fn map(coeff: Prepared8D) -> (r: u64) {
        coeff.affine
    }

    fn table(coeff: Prepared8D) -> (r: ScaleTable) {
        coeff.table
    }

    fn apply(factor: u64, x: u8) -> (r: u8) {
        affine_byte(factor, x)
    }
}

} // verus!
