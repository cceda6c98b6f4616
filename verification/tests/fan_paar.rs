use archmage::{SimdToken, X64V2Token, X64V3Token};
use fgf::field::fan_paar::{fp8_mul, fp16_mul, fp32_mul};
use fgf::kernel::x86::fan_paar::{
    FpTowerTables, mul_add_avx2, mul_add_fp32_avx2, mul_add_fp64_avx2, mul_add_ssse3,
    mul_assign_avx2, mul_assign_fp32_avx2, mul_assign_fp64_avx2, mul_assign_ssse3, mul_into_avx2,
    mul_into_fp32_avx2, mul_into_fp64_avx2, mul_into_ssse3,
};

/// The Wiedemann tower product of two `bits`-wide elements, by recursion on
/// the halves: `X^2 = X_prev·X + 1`, `X_prev = 1 << (half / 2)`.
fn tower(a: u64, b: u64, bits: u32) -> u64 {
    if bits == 1 {
        return a & b & 1;
    }
    let half = bits / 2;
    let mask = (1u64 << half) - 1;
    let (a0, a1) = (a & mask, a >> half);
    let (b0, b1) = (b & mask, b >> half);
    let alpha = 1u64 << (half / 2);
    let lo = tower(a0, b0, half) ^ tower(a1, b1, half);
    let hi = tower(a0 ^ tower(alpha, a1, half), b1, half) ^ tower(a1, b0, half);
    lo | (hi << half)
}

fn bytes(n: usize, mul: u8, add: u8) -> Vec<u8> {
    (0..n).map(|i| (i as u8).wrapping_mul(mul).wrapping_add(add)).collect()
}

/// `c * s` element by element, `w`-byte little-endian elements.
fn scaled(c: u64, s: &[u8], w: usize) -> Vec<u8> {
    s.chunks_exact(w)
        .flat_map(|e| {
            let mut x = 0u64;
            for (k, b) in e.iter().enumerate() {
                x |= (*b as u64) << (8 * k);
            }
            let p = tower(c, x, 8 * w as u32);
            (0..w).map(move |k| (p >> (8 * k)) as u8)
        })
        .collect()
}

fn xor(a: &[u8], b: &[u8]) -> Vec<u8> {
    a.iter().zip(b).map(|(x, y)| x ^ y).collect()
}

#[test]
fn tower_generators_satisfy_their_equations() {
    // X_k^2 = X_{k-1}·X_k + 1 at every level.
    assert_eq!(fp8_mul(0x02, 0x02), 0x03);
    assert_eq!(fp8_mul(0x04, 0x04), 0x09);
    assert_eq!(fp8_mul(0x10, 0x10), 0x41);
    assert_eq!(fp16_mul(0x0100, 0x0100), 0x1001);
    assert_eq!(fp32_mul(0x0001_0000, 0x0001_0000), 0x0100_0001);
}

#[test]
fn byte_multiply_matches_the_tower_and_is_a_field() {
    for a in 0..=255u8 {
        let mut inverses = 0;
        for b in 0..=255u8 {
            let p = fp8_mul(a, b);
            assert_eq!(p as u64, tower(a as u64, b as u64, 8));
            assert_eq!(p, fp8_mul(b, a));
            if p == 1 {
                inverses += 1;
            }
        }
        assert_eq!(inverses, if a == 0 { 0 } else { 1 });
    }
}

#[test]
fn wide_multiplies_match_the_tower() {
    let samples = [0u32, 1, 2, 0x10, 0x100, 0x1234, 0xffff, 0x1_0000, 0xdead_beef, 0xffff_ffff];
    for &a in &samples {
        for &b in &samples {
            let (a16, b16) = (a as u16, b as u16);
            assert_eq!(fp16_mul(a16, b16) as u64, tower(a16 as u64, b16 as u64, 16));
            assert_eq!(fp32_mul(a, b) as u64, tower(a as u64, b as u64, 32));
        }
    }
    // Every nonzero GF(2^16) sample has exactly one inverse.
    for a in [1u16, 0x10, 0x100, 0x1234, 0xffff] {
        let n = (0..=u16::MAX).filter(|&b| fp16_mul(a, b) == 1).count();
        assert_eq!(n, 1);
    }
}

#[test]
fn tables_hold_the_factor_products() {
    let c: u16 = 0xa35c;
    let t = FpTowerTables::new(c);
    assert_eq!(t.coeff, c);
    let (c0, c1) = (c as u8, (c >> 8) as u8);
    let f = [c0, c0 ^ fp8_mul(0x10, c1), c1, c1];
    for k in 0..4 {
        for i in 0..16u8 {
            assert_eq!(t.lo[k][i as usize], fp8_mul(f[k], i));
            assert_eq!(t.hi[k][i as usize], fp8_mul(f[k], i << 4));
        }
    }
}

#[test]
fn unit_coefficient_copies_the_source() {
    let t = FpTowerTables::new(1);
    let src = bytes(40, 29, 3);
    if let Some(token) = X64V3Token::summon() {
        let mut d = vec![0x55u8; 40];
        mul_into_avx2(token, &mut d, &t, &src);
        assert_eq!(d, src);
        let mut d = vec![0x55u8; 40];
        mul_into_fp32_avx2(token, &mut d, 1, &src);
        assert_eq!(d, src);
        let mut d = vec![0x55u8; 40];
        mul_into_fp64_avx2(token, &mut d, 1, &src);
        assert_eq!(d, src);
    }
    if let Some(token) = X64V2Token::summon() {
        let mut d = vec![0u8; 40];
        mul_into_ssse3(token, &mut d, &t, &src);
        assert_eq!(d, src);
    }
}

#[test]
fn gf16_kernels_multiply_in_the_tower() {
    let src = bytes(70, 91, 7);
    let base = bytes(70, 37, 1);
    for c in [0u16, 0x0002, 0x0100, 0x1234, 0xbeef, 0xffff] {
        let t = FpTowerTables::new(c);
        let prod = scaled(c as u64, &src, 2);
        if let Some(token) = X64V3Token::summon() {
            let mut d = base.clone();
            mul_add_avx2(token, &mut d, &t, &src);
            assert_eq!(d, xor(&base, &prod));
            let mut d = base.clone();
            mul_assign_avx2(token, &mut d, &t);
            assert_eq!(d, scaled(c as u64, &base, 2));
            let mut d = base.clone();
            mul_into_avx2(token, &mut d, &t, &src);
            assert_eq!(d, prod);
        }
        if let Some(token) = X64V2Token::summon() {
            let mut d = base.clone();
            mul_add_ssse3(token, &mut d, &t, &src);
            assert_eq!(d, xor(&base, &prod));
            let mut d = base.clone();
            mul_assign_ssse3(token, &mut d, &t);
            assert_eq!(d, scaled(c as u64, &base, 2));
            let mut d = base.clone();
            mul_into_ssse3(token, &mut d, &t, &src);
            assert_eq!(d, prod);
        }
    }
}

#[test]
fn gf32_kernels_multiply_in_the_tower() {
    let Some(token) = X64V3Token::summon() else {
        return;
    };
    let src = bytes(72, 91, 7);
    let base = bytes(72, 37, 1);
    for c in [0u32, 2, 0x1_0000, 0x0102_0304, 0xdead_beef, 0xffff_ffff] {
        let prod = scaled(c as u64, &src, 4);
        let mut d = base.clone();
        mul_add_fp32_avx2(token, &mut d, c, &src);
        assert_eq!(d, xor(&base, &prod));
        let mut d = base.clone();
        mul_assign_fp32_avx2(token, &mut d, c);
        assert_eq!(d, scaled(c as u64, &base, 4));
        let mut d = base.clone();
        mul_into_fp32_avx2(token, &mut d, c, &src);
        assert_eq!(d, prod);
    }
}

#[test]
fn gf64_kernels_multiply_in_the_tower() {
    let Some(token) = X64V3Token::summon() else {
        return;
    };
    let src = bytes(72, 91, 7);
    let base = bytes(72, 37, 1);
    for c in [0u64, 2, 0x1_0000_0000, 0x0102_0304_0506_0708, 0xdead_beef_0bad_f00d, u64::MAX] {
        let prod = scaled(c, &src, 8);
        let mut d = base.clone();
        mul_add_fp64_avx2(token, &mut d, c, &src);
        assert_eq!(d, xor(&base, &prod));
        let mut d = base.clone();
        mul_assign_fp64_avx2(token, &mut d, c);
        assert_eq!(d, scaled(c, &base, 8));
        let mut d = base.clone();
        mul_into_fp64_avx2(token, &mut d, c, &src);
        assert_eq!(d, prod);
    }
    // The generator of GF(2^64) over GF(2^32) squares to X_5·X_6 + 1.
    let x5 = 1u64 << 32;
    let mut d = vec![0u8; 8];
    mul_into_fp64_avx2(token, &mut d, x5, &x5.to_le_bytes());
    assert_eq!(u64::from_le_bytes(d.try_into().unwrap()), (1u64 << 48) | 1);
}
