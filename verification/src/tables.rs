//! Prepared coefficient forms the kernels consume.
//!
//! - [`ScaleTable`]: the two 16-entry nibble tables of a byte coefficient,
//!   `lo[i] = c * i` and `hi[i] = c * (i << 4)`, so that
//!   `c * x = lo[x & 0xf] ^ hi[x >> 4]` — the `PSHUFB` multiply.
//! - The affine matrix qword of a byte coefficient, whose columns are
//!   `c · x^k` — the `VGF2P8AFFINEQB` multiply.

use crate::field::gf8::{
    affine_apply, column_row, columns_matrix, gf_mul, gf_mul_exec, lemma_affine_mul,
    lemma_mul_nibbles, mul_matrix, xpow, xtime,
};
use crate::field::{gf16, gf8b, gf8d};
use vstd::prelude::*;

verus! {

/// The nibble tables of one byte coefficient.
#[derive(Clone, Copy)]
pub struct ScaleTable {
    /// The coefficient the tables were built from.
    pub coeff: gf8b::Elem,
    /// `coeff * i` for each low nibble `i`.
    pub lo: [u8; 16],
    /// `coeff * (i << 4)` for each high nibble `i`.
    pub hi: [u8; 16],
}

impl ScaleTable {
    /// The tables hold the products of `coeff` in the field with reduction
    /// byte `red`.
    pub open spec fn wf(&self, red: u8) -> bool {
        &&& forall|i: int| 0 <= i < 16 ==> #[trigger] self.lo@[i] == gf_mul(red, self.coeff.0, i as u8)
        &&& forall|i: int|
            0 <= i < 16 ==> #[trigger] self.hi@[i] == gf_mul(
                red,
                self.coeff.0,
                ((i as u8) << 4u8) as u8,
            )
    }
}

/// The two-lookup product `lo[x & 0xf] ^ hi[x >> 4]`.
pub open spec fn lookup(t: ScaleTable, x: u8) -> u8 {
    (t.lo@[(x & 0xfu8) as int] ^ t.hi@[(x >> 4u8) as int]) as u8
}

/// A well-formed table multiplies: `lookup(t, x) = coeff * x`.
pub proof fn lemma_lookup(t: ScaleTable, red: u8, x: u8)
    requires
        t.wf(red),
    ensures
        lookup(t, x) == gf_mul(red, t.coeff.0, x),
{
    let lo_n: u8 = x & 0xfu8;
    let hi_n: u8 = (x >> 4u8) as u8;
    assert(lo_n < 16 && hi_n < 16) by (bit_vector)
        requires
            lo_n == x & 0xfu8,
            hi_n == (x >> 4u8) as u8,
    ;
    let i = lo_n as int;
    let j = hi_n as int;
    assert(t.lo@[i] == gf_mul(red, t.coeff.0, i as u8));
    assert(t.hi@[j] == gf_mul(red, t.coeff.0, ((j as u8) << 4u8) as u8));
    lemma_mul_nibbles(red, t.coeff.0, x);
}

/// `c * x` by the two nibble lookups.
pub fn nibble_scale(t: &ScaleTable, x: u8) -> (r: u8)
    ensures
        r == lookup(*t, x),
{
    let lo_n = x & 0xf;
    let hi_n = x >> 4u8;
    assert(lo_n < 16 && hi_n < 16) by (bit_vector)
        requires
            lo_n == x & 0xfu8,
            hi_n == (x >> 4u8) as u8,
    ;
    t.lo[lo_n as usize] ^ t.hi[hi_n as usize]
}

/// Build the nibble tables of `c` under reduction byte `red`.
fn build_table(red: u8, c: u8) -> (t: ScaleTable)
    ensures
        t.wf(red),
        t.coeff.0 == c,
{
    let mut lo = [0u8; 16];
    let mut hi = [0u8; 16];
    let mut i: usize = 0;
    while i < 16
        invariant
            i <= 16,
            forall|k: int| 0 <= k < i ==> #[trigger] lo@[k] == gf_mul(red, c, k as u8),
            forall|k: int| 0 <= k < i ==> #[trigger] hi@[k] == gf_mul(red, c, ((k as u8) << 4u8) as u8),
        decreases 16 - i,
    {
        lo[i] = gf_mul_exec(red, c, i as u8);
        hi[i] = gf_mul_exec(red, c, (i as u8) << 4u8);
        i += 1;
    }
    ScaleTable { coeff: gf8b::Elem(c), lo, hi }
}

/// The nibble tables of a `Gf8B` coefficient.
pub fn scale_table(coeff: gf8b::Elem) -> (t: ScaleTable)
    ensures
        t.wf(gf8b::RED),
        t.coeff == coeff,
{
    build_table(gf8b::RED, coeff.0)
}

/// The nibble tables of a `Gf8D` coefficient (its byte kept as the table's
/// coefficient).
pub fn scale_table_8d(coeff: gf8d::Elem) -> (t: ScaleTable)
    ensures
        t.wf(gf8d::RED),
        t.coeff.0 == coeff.0,
{
    build_table(gf8d::RED, coeff.0)
}

/// `a · x` modulo `x^8 + red`.
pub fn xtime_exec(red: u8, a: u8) -> (r: u8)
    ensures
        r == xtime(red, a),
{
    if a & 0x80 != 0 {
        (a << 1u8) ^ red
    } else {
        a << 1u8
    }
}

/// One row byte of a column matrix: bit `i` of each column.
fn column_row_exec(c0: u8, c1: u8, c2: u8, c3: u8, c4: u8, c5: u8, c6: u8, c7: u8, i: u8) -> (r: u8)
    requires
        i < 8,
    ensures
        r == column_row(c0, c1, c2, c3, c4, c5, c6, c7, i),
{
    ((c0 >> i) & 1) | (((c1 >> i) & 1) << 1u8) | (((c2 >> i) & 1) << 2u8) | (((c3 >> i) & 1)
        << 3u8) | (((c4 >> i) & 1) << 4u8) | (((c5 >> i) & 1) << 5u8) | (((c6 >> i) & 1) << 6u8)
        | (((c7 >> i) & 1) << 7u8)
}

/// The affine matrix qword of multiplication by `a` under `red`.
fn mul_matrix_exec(red: u8, a: u8) -> (m: u64)
    ensures
        m == mul_matrix(red, a),
{
    let c0 = a;
    let c1 = xtime_exec(red, c0);
    let c2 = xtime_exec(red, c1);
    let c3 = xtime_exec(red, c2);
    let c4 = xtime_exec(red, c3);
    let c5 = xtime_exec(red, c4);
    let c6 = xtime_exec(red, c5);
    let c7 = xtime_exec(red, c6);
    proof {
        reveal_with_fuel(xpow, 8);
    }
    let r0 = column_row_exec(c0, c1, c2, c3, c4, c5, c6, c7, 0);
    let r1 = column_row_exec(c0, c1, c2, c3, c4, c5, c6, c7, 1);
    let r2 = column_row_exec(c0, c1, c2, c3, c4, c5, c6, c7, 2);
    let r3 = column_row_exec(c0, c1, c2, c3, c4, c5, c6, c7, 3);
    let r4 = column_row_exec(c0, c1, c2, c3, c4, c5, c6, c7, 4);
    let r5 = column_row_exec(c0, c1, c2, c3, c4, c5, c6, c7, 5);
    let r6 = column_row_exec(c0, c1, c2, c3, c4, c5, c6, c7, 6);
    let r7 = column_row_exec(c0, c1, c2, c3, c4, c5, c6, c7, 7);
    ((r0 as u64) << 56u64) | ((r1 as u64) << 48u64) | ((r2 as u64) << 40u64) | ((r3 as u64)
        << 32u64) | ((r4 as u64) << 24u64) | ((r5 as u64) << 16u64) | ((r6 as u64) << 8u64) | (r7
        as u64)
}

/// The `VGF2P8AFFINEQB` matrix of a `Gf8B` coefficient.
pub fn affine_8b(coeff: gf8b::Elem) -> (m: u64)
    ensures
        m == mul_matrix(gf8b::RED, coeff.0),
        forall|x: u8| #[trigger] affine_apply(m, x) == gf8b::mul(coeff.0, x),
{
    let m = mul_matrix_exec(gf8b::RED, coeff.0);
    assert forall|x: u8| #[trigger] affine_apply(m, x) == gf8b::mul(coeff.0, x) by {
        lemma_affine_mul(gf8b::RED, coeff.0, x);
    }
    m
}

/// The `VGF2P8AFFINEQB` matrix of a `Gf8D` coefficient.
pub fn affine_8d(coeff: gf8d::Elem) -> (m: u64)
    ensures
        m == mul_matrix(gf8d::RED, coeff.0),
        forall|x: u8| #[trigger] affine_apply(m, x) == gf8d::mul(coeff.0, x),
{
    let m = mul_matrix_exec(gf8d::RED, coeff.0);
    assert forall|x: u8| #[trigger] affine_apply(m, x) == gf8d::mul(coeff.0, x) by {
        lemma_affine_mul(gf8d::RED, coeff.0, x);
    }
    m
}

} // verus!

verus! {

/// A `Gf8D` coefficient prepared for the affine kernels: its nibble tables
/// and its affine matrix.
#[derive(Clone, Copy)]
pub struct Prepared8D {
    /// The coefficient's nibble tables; `table.coeff` holds its byte.
    pub table: ScaleTable,
    /// The coefficient's `VGF2P8AFFINEQB` matrix.
    pub affine: u64,
}

impl Prepared8D {
    /// Both forms describe the same coefficient.
    pub open spec fn wf(&self) -> bool {
        &&& self.table.wf(gf8d::RED)
        &&& self.affine == mul_matrix(gf8d::RED, self.table.coeff.0)
    }

    /// Prepare one `Gf8D` coefficient.
    pub fn new(coeff: gf8d::Elem) -> (r: Prepared8D)
        ensures
            r.wf(),
            r.table.coeff.0 == coeff.0,
    {
        Prepared8D { table: scale_table_8d(coeff), affine: affine_8d(coeff) }
    }
}

} // verus!

verus! {

/// A GF(2^16) coefficient `c0 + c1*u` as the two broadcast words of the
/// `GF2P8MULB` tower multiply: `same = [c0, c0 + c1]` multiplies the source,
/// `cross = [DELTA*c1, c1]` the source with its two bytes exchanged.
#[derive(Clone, Copy)]
pub struct TowerCoeff {
    /// The coefficient.
    pub coeff: gf16::Elem,
    /// `[c0, c0 + c1]`, even byte first.
    pub same: u16,
    /// `[DELTA*c1, c1]`, even byte first.
    pub cross: u16,
}

/// The `same` word of `c = c0 + c1*u`: `[c0, c0 + c1]`.
pub open spec fn same_word(c: u16) -> u16 {
    gf16::pack(gf16::lo(c), gf16::lo(c) ^ gf16::hi(c))
}

/// The `cross` word of `c = c0 + c1*u`: `[DELTA*c1, c1]`.
pub open spec fn cross_word(c: u16) -> u16 {
    gf16::pack(gf_mul(gf8b::RED, gf16::DELTA, gf16::hi(c)), gf16::hi(c))
}

impl TowerCoeff {
    /// Both words describe the coefficient.
    pub open spec fn wf(&self) -> bool {
        &&& self.same == same_word(self.coeff.0)
        &&& self.cross == cross_word(self.coeff.0)
    }

    /// The broadcast words of `coeff`.
    pub fn new(coeff: gf16::Elem) -> (r: TowerCoeff)
        ensures
            r.wf(),
            r.coeff == coeff,
    {
        let (c0, c1) = coeff.components();
        let d = gf_mul_exec(gf8b::RED, gf16::DELTA, c1);
        let x = c0 ^ c1;
        TowerCoeff {
            coeff,
            same: (c0 as u16) | ((x as u16) << 8u16),
            cross: (d as u16) | ((c1 as u16) << 8u16),
        }
    }
}

/// A GF(2^16) coefficient `c0 + c1*u` as the nibble tables of its four
/// base-field factors `[c0, c0 + c1, DELTA*c1, c1]`: the shuffle form of
/// [`TowerCoeff`].
#[derive(Clone, Copy)]
pub struct TowerTables {
    /// The coefficient.
    pub coeff: gf16::Elem,
    /// The tables of `c0`, `c0 + c1`, `DELTA*c1` and `c1`.
    pub factors: [ScaleTable; 4],
}

/// Factor `k` of the tower multiply by `c`: `c0`, `c0 + c1`, `DELTA*c1`,
/// `c1`.
pub open spec fn tower_factor(c: u16, k: int) -> u8 {
    let c0 = gf16::lo(c);
    let c1 = gf16::hi(c);
    if k == 0 {
        c0
    } else if k == 1 {
        c0 ^ c1
    } else if k == 2 {
        gf_mul(gf8b::RED, gf16::DELTA, c1)
    } else {
        c1
    }
}

impl TowerTables {
    /// Every table multiplies by its factor of the coefficient.
    pub open spec fn wf(&self) -> bool {
        forall|k: int|
            0 <= k < 4 ==> (#[trigger] self.factors@[k]).wf(gf8b::RED) && self.factors@[k].coeff.0
                == tower_factor(self.coeff.0, k)
    }

    /// The four factor tables of `coeff`.
    pub fn new(coeff: gf16::Elem) -> (r: TowerTables)
        ensures
            r.wf(),
            r.coeff == coeff,
    {
        let (c0, c1) = coeff.components();
        let d = gf_mul_exec(gf8b::RED, gf16::DELTA, c1);
        let t0 = scale_table(gf8b::Elem(c0));
        let t1 = scale_table(gf8b::Elem(c0 ^ c1));
        let t2 = scale_table(gf8b::Elem(d));
        let t3 = scale_table(gf8b::Elem(c1));
        let r = TowerTables { coeff, factors: [t0, t1, t2, t3] };
        assert(r.factors@[0] == t0 && r.factors@[1] == t1 && r.factors@[2] == t2 && r.factors@[3]
            == t3);
        r
    }
}

} // verus!
