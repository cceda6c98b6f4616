use archmage::{SimdToken, X64V2Token, X64V3Token};
use fgf::field::{goldilocks, mersenne31};
use fgf::kernel::x86::prime::gld::{gld_addmod, gld_canon, gld_mul, gld_submod};
use fgf::kernel::x86::prime::gld_avx2::{
    add_assign_gld_avx2, add_assign_scalar_gld_avx2, mul_add_gld_avx2, mul_assign_gld_avx2,
    mul_elementwise_assign_gld_avx2, mul_elementwise_gld_avx2, mul_into_gld_avx2,
    sub_assign_gld_avx2, sub_assign_scalar_gld_avx2,
};
use fgf::kernel::x86::prime::gld_sse::{mul_add_gld_sse42, sub_assign_gld_sse42};
use fgf::kernel::x86::prime::m31_avx2::{
    add_assign_m31_avx2, mul_add_m31_avx2, mul_assign_m31_avx2, mul_elementwise_m31_avx2,
    mul_into_m31_avx2, sub_assign_m31_avx2,
};
use fgf::kernel::x86::prime::m31_sse::{mul_add_m31_sse42, mul_into_m31_sse42};
use fgf::kernel::x86::prime::{m31_addmod, m31_canon, m31_mulmod, m31_submod};

const P31: u128 = 0x7fff_ffff;
const PG: u128 = 0xFFFF_FFFF_0000_0001;

fn noise_u64(n: usize, seed: u64) -> Vec<u64> {
    let mut s = seed | 1;
    (0..n)
        .map(|_| {
            s = s.wrapping_mul(6_364_136_223_846_793_005).wrapping_add(1442695040888963407);
            s
        })
        .collect()
}

fn m31_lanes(n: usize, seed: u64) -> Vec<u32> {
    noise_u64(n, seed).iter().map(|x| (u128::from(*x >> 20) % P31) as u32).collect()
}

fn gld_lanes(n: usize, seed: u64) -> Vec<u64> {
    noise_u64(n, seed).iter().map(|x| (u128::from(*x) % PG) as u64).collect()
}

fn bytes32(v: &[u32]) -> Vec<u8> {
    v.iter().flat_map(|x| x.to_le_bytes()).collect()
}

fn bytes64(v: &[u64]) -> Vec<u8> {
    v.iter().flat_map(|x| x.to_le_bytes()).collect()
}

fn m(a: u128, b: u128, p: u128, f: fn(u128, u128) -> u128) -> u128 {
    f(a % p, b % p) % p
}

#[test]
fn mersenne31_scalar_arithmetic() {
    assert_eq!(mersenne31::MODULUS, 0x7fff_ffff);
    assert_eq!(m31_mulmod(1 << 30, 4), 2);
    assert_eq!(m31_addmod(0x7fff_fffe, 2), 1);
    assert_eq!(m31_submod(1, 2), 0x7fff_fffe);
    assert_eq!(m31_canon(0x7fff_ffff), 0);
}

#[test]
fn goldilocks_scalar_arithmetic() {
    assert_eq!(goldilocks::MODULUS, 0xFFFF_FFFF_0000_0001);
    assert_eq!(gld_mul(1 << 32, 1 << 32), 0xFFFF_FFFF);
    assert_eq!(gld_addmod(0xFFFF_FFFF_0000_0000, 2), 1);
    assert_eq!(gld_submod(0, 1), 0xFFFF_FFFF_0000_0000);
    assert_eq!(gld_canon(0xFFFF_FFFF_0000_0001), 0);
}

#[test]
fn mersenne31_kernels_match_model() {
    for n in [0usize, 1, 7, 8, 9, 33] {
        let a = m31_lanes(n, 1 + n as u64);
        let b = m31_lanes(n, 2 + n as u64);
        let ab = bytes32(&a);
        let bb = bytes32(&b);
        let add: Vec<u32> = (0..n).map(|i| m(a[i].into(), b[i].into(), P31, |x, y| x + y) as u32).collect();
        let sub: Vec<u32> =
            (0..n).map(|i| ((u128::from(a[i]) + P31 - u128::from(b[i])) % P31) as u32).collect();
        let mul: Vec<u32> = (0..n).map(|i| m(a[i].into(), b[i].into(), P31, |x, y| x * y) as u32).collect();
        for coeff in [0u32, 1, 5, 0x7fff_fffe, 0x1234_5678] {
            let axpy: Vec<u32> = (0..n)
                .map(|i| ((u128::from(a[i]) + u128::from(coeff) % P31 * u128::from(b[i])) % P31) as u32)
                .collect();
            let scaled: Vec<u32> = (0..n).map(|i| (u128::from(coeff) % P31 * u128::from(b[i]) % P31) as u32).collect();
            if let Some(token) = X64V3Token::summon() {
                let mut d = ab.clone();
                mul_add_m31_avx2(token, &mut d, coeff, &bb);
                assert_eq!(d, bytes32(&axpy));
                let mut d = ab.clone();
                mul_into_m31_avx2(token, &mut d, coeff, &bb);
                assert_eq!(d, bytes32(&scaled));
                let mut d = bb.clone();
                mul_assign_m31_avx2(token, &mut d, coeff);
                assert_eq!(d, bytes32(&scaled));
            }
            if let Some(token) = X64V2Token::summon() {
                let mut d = ab.clone();
                mul_add_m31_sse42(token, &mut d, coeff, &bb);
                assert_eq!(d, bytes32(&axpy));
                let mut d = ab.clone();
                mul_into_m31_sse42(token, &mut d, coeff, &bb);
                assert_eq!(d, bytes32(&scaled));
            }
        }
        if let Some(token) = X64V3Token::summon() {
            let mut d = ab.clone();
            add_assign_m31_avx2(token, &mut d, &bb);
            assert_eq!(d, bytes32(&add));
            let mut d = ab.clone();
            sub_assign_m31_avx2(token, &mut d, &bb);
            assert_eq!(d, bytes32(&sub));
            let mut d = vec![0u8; 4 * n];
            mul_elementwise_m31_avx2(token, &mut d, &ab, &bb);
            assert_eq!(d, bytes32(&mul));
        }
    }
}

#[test]
fn goldilocks_kernels_match_model() {
    for n in [0usize, 1, 3, 4, 5, 17] {
        let a = gld_lanes(n, 11 + n as u64);
        let b = gld_lanes(n, 12 + n as u64);
        let ab = bytes64(&a);
        let bb = bytes64(&b);
        let add: Vec<u64> = (0..n).map(|i| ((u128::from(a[i]) + u128::from(b[i])) % PG) as u64).collect();
        let sub: Vec<u64> = (0..n).map(|i| ((u128::from(a[i]) + PG - u128::from(b[i])) % PG) as u64).collect();
        let mul: Vec<u64> = (0..n).map(|i| (u128::from(a[i]) * u128::from(b[i]) % PG) as u64).collect();
        let coeff = 0x0123_4567_89ab_cdefu64;
        let axpy: Vec<u64> = (0..n)
            .map(|i| ((u128::from(a[i]) + u128::from(coeff) * u128::from(b[i]) % PG) % PG) as u64)
            .collect();
        let scaled: Vec<u64> = (0..n).map(|i| (u128::from(coeff) * u128::from(b[i]) % PG) as u64).collect();
        if let Some(token) = X64V3Token::summon() {
            let mut d = ab.clone();
            add_assign_gld_avx2(token, &mut d, &bb);
            assert_eq!(d, bytes64(&add));
            let mut d = ab.clone();
            sub_assign_gld_avx2(token, &mut d, &bb);
            assert_eq!(d, bytes64(&sub));
            let mut d = vec![0u8; 8 * n];
            mul_elementwise_gld_avx2(token, &mut d, &ab, &bb);
            assert_eq!(d, bytes64(&mul));
            let mut d = ab.clone();
            mul_elementwise_assign_gld_avx2(token, &mut d, &bb);
            assert_eq!(d, bytes64(&mul));
            let mut d = ab.clone();
            mul_add_gld_avx2(token, &mut d, coeff, &bb);
            assert_eq!(d, bytes64(&axpy));
            let mut d = ab.clone();
            mul_into_gld_avx2(token, &mut d, coeff, &bb);
            assert_eq!(d, bytes64(&scaled));
            let mut d = bb.clone();
            mul_assign_gld_avx2(token, &mut d, coeff);
            assert_eq!(d, bytes64(&scaled));
            let mut d = ab.clone();
            add_assign_scalar_gld_avx2(token, &mut d, 7);
            sub_assign_scalar_gld_avx2(token, &mut d, 7);
            assert_eq!(d, ab);
        }
        if let Some(token) = X64V2Token::summon() {
            let mut d = ab.clone();
            sub_assign_gld_sse42(token, &mut d, &bb);
            assert_eq!(d, bytes64(&sub));
            let mut d = ab.clone();
            mul_add_gld_sse42(token, &mut d, coeff, &bb);
            assert_eq!(d, bytes64(&axpy));
        }
    }
}

#[test]
fn add_then_sub_restores_canonical_lanes() {
    let Some(token) = X64V3Token::summon() else {
        return;
    };
    let a = bytes32(&m31_lanes(24, 91));
    let b: Vec<u8> = bytes32(&noise_u64(24, 92).iter().map(|x| *x as u32).collect::<Vec<u32>>());
    let mut d = a.clone();
    add_assign_m31_avx2(token, &mut d, &b);
    sub_assign_m31_avx2(token, &mut d, &b);
    assert_eq!(d, a);

    let mut d = a.clone();
    fgf::kernel::x86::prime::qm31_avx2::add_assign_qm31_avx2(token, &mut d, &b);
    fgf::kernel::x86::prime::qm31_avx2::sub_assign_qm31_avx2(token, &mut d, &b);
    assert_eq!(d, a);

    let g = bytes64(&gld_lanes(9, 93));
    let h = bytes64(&noise_u64(9, 94));
    let mut d = g.clone();
    add_assign_gld_avx2(token, &mut d, &h);
    sub_assign_gld_avx2(token, &mut d, &h);
    assert_eq!(d, g);
}
