use archmage::{SimdToken, X64V2Token, X64V3GfniCryptoToken, X64V3Token};
use fgf::field::gf8::gf_mul_exec;
use fgf::field::{gf8b, gf8d};
use fgf::kernel::x86::gf8::elementwise::{
    branchless_lane, gf_mul_ref, mul_elementwise_avx2, mul_elementwise_ssse3, multiply_vectors_avx2,
    multiply_vectors_sse,
};
use fgf::kernel::x86::gf8::gather::{
    check_gather, gather_fused, mul_add_gather_avx2, mul_add_gather_gfni, mul_add_gather_ssse3,
};
use fgf::kernel::x86::gf8::gfni::{mul_add_affine_impl, mul_add_gfni};
use fgf::kernel::x86::gf8::matrix::{check_scattered, mul_into_matrix_affine};
use fgf::kernel::x86::gf8::nibble::{
    mul_add_avx2, mul_add_ssse3, mul_assign_avx2, mul_assign_ssse3, mul_into_avx2, mul_into_ssse3,
};
use fgf::kernel::x86::gf8::nibble_rows::{
    mul_add_matrix_avx2, mul_add_matrix_ssse3, mul_add_scatter_avx2, mul_add_scatter_ssse3,
};
use fgf::kernel::x86::gf8::rows::mul_add_matrix_impl;
use fgf::kernel::x86::gf8::{
    Affine8D, Gfni, affine_byte, brem, bscale_assign, bscale_into, prepare_affine_8b,
};
use fgf::tables::{affine_8b, affine_8d, scale_table, scale_table_8d};

const B: u8 = 0x1b;
const D: u8 = 0x1d;

/// Shift-and-add multiply modulo `x^8 + red`.
fn gmul(red: u8, a: u8, b: u8) -> u8 {
    let (mut a, mut b, mut p) = (a, b, 0u8);
    for _ in 0..8 {
        if b & 1 != 0 {
            p ^= a;
        }
        let carry = a & 0x80 != 0;
        a <<= 1;
        if carry {
            a ^= red;
        }
        b >>= 1;
    }
    p
}

fn noise(len: usize, seed: u64) -> Vec<u8> {
    let mut state = seed | 1;
    (0..len)
        .map(|_| {
            state = state.wrapping_mul(6_364_136_223_846_793_005).wrapping_add(1442695040888963407);
            (state >> 56) as u8
        })
        .collect()
}

const LENS: [usize; 9] = [0, 1, 15, 16, 17, 31, 32, 33, 200];
const COEFFS: [u8; 6] = [0, 1, 2, 0x57, 0x8e, 0xff];

#[test]
fn aes_field_known_products() {
    assert_eq!(gf8b::Elem(0x57).mul(gf8b::Elem(0x83)), gf8b::Elem(0xc1));
    assert_eq!(gf8b::Elem(0x57).mul(gf8b::Elem(0x13)), gf8b::Elem(0xfe));
    assert_eq!(gf8b::Elem(0x53).mul(gf8b::Elem(0xca)), gf8b::Elem(0x01));
    assert_eq!(gf_mul_exec(B, 0x80, 0x02), 0x1b);
    assert_eq!(gf_mul_ref::<0x1b>(0x57, 0x83), 0xc1);
    assert_eq!(branchless_lane(B, 0x57, 0x83), 0xc1);
}

#[test]
fn reed_solomon_field_known_products() {
    assert_eq!(gf8d::Elem(0x80).mul(gf8d::Elem(0x02)), gf8d::Elem(0x1d));
    assert_eq!(gf8d::Elem(0x02).mul(gf8d::Elem(0x8e)), gf8d::Elem(0x01));
    assert_eq!(gf_mul_exec(D, 0x57, 0x83), gmul(D, 0x57, 0x83));
    assert_eq!(gf_mul_ref::<0x1d>(0x80, 0x02), 0x1d);
}

#[test]
fn affine_maps_multiply() {
    assert_eq!(affine_byte(affine_8b(gf8b::Elem(0x57)), 0x83), 0xc1);
    assert_eq!(affine_byte(affine_8d(gf8d::Elem(0x02)), 0x8e), 0x01);
    for c in COEFFS {
        for x in [0u8, 1, 3, 0x80, 0xaa, 0xff] {
            assert_eq!(affine_byte(affine_8b(gf8b::Elem(c)), x), gmul(B, c, x));
            assert_eq!(affine_byte(affine_8d(gf8d::Elem(c)), x), gmul(D, c, x));
        }
    }
}

#[test]
fn scale_tables_hold_products() {
    let t = scale_table(gf8b::Elem(0x57));
    assert_eq!(t.lo[3], gmul(B, 0x57, 3));
    assert_eq!(t.hi[8], gmul(B, 0x57, 0x80));
    let t = scale_table_8d(gf8d::Elem(0x02));
    assert_eq!(t.hi[8], 0x1d);
}

#[test]
fn nibble_avx2_kernels_match_reference() {
    let Some(token) = X64V3Token::summon() else {
        return;
    };
    for len in LENS {
        let src = noise(len, 3 + len as u64);
        let base = noise(len, 7 + len as u64);
        for c in COEFFS {
            let table = scale_table(gf8b::Elem(c));
            let mut got = base.clone();
            mul_add_avx2(token, &mut got, &table, &src);
            let want: Vec<u8> = base.iter().zip(&src).map(|(d, s)| d ^ gmul(B, c, *s)).collect();
            assert_eq!(got, want, "mul_add len {len} coeff {c}");

            let mut got = base.clone();
            mul_into_avx2(token, &mut got, &table, &src);
            let want: Vec<u8> = src.iter().map(|s| gmul(B, c, *s)).collect();
            assert_eq!(got, want, "mul_into len {len} coeff {c}");

            let mut got = base.clone();
            mul_assign_avx2(token, &mut got, &table);
            let want: Vec<u8> = base.iter().map(|s| gmul(B, c, *s)).collect();
            assert_eq!(got, want, "mul_assign len {len} coeff {c}");
        }
    }
}

#[test]
fn nibble_ssse3_kernels_match_reference() {
    let Some(token) = X64V2Token::summon() else {
        return;
    };
    for len in LENS {
        let src = noise(len, 11 + len as u64);
        let base = noise(len, 13 + len as u64);
        for c in COEFFS {
            let table = scale_table_8d(gf8d::Elem(c));
            let mut got = base.clone();
            mul_add_ssse3(token, &mut got, &table, &src);
            let want: Vec<u8> = base.iter().zip(&src).map(|(d, s)| d ^ gmul(D, c, *s)).collect();
            assert_eq!(got, want);

            let mut got = base.clone();
            mul_into_ssse3(token, &mut got, &table, &src);
            let want: Vec<u8> = src.iter().map(|s| gmul(D, c, *s)).collect();
            assert_eq!(got, want);

            let mut got = base.clone();
            mul_assign_ssse3(token, &mut got, &table);
            let want: Vec<u8> = base.iter().map(|s| gmul(D, c, *s)).collect();
            assert_eq!(got, want);
        }
    }
}

#[test]
fn axpy_applied_twice_restores_destination() {
    let Some(token) = X64V3Token::summon() else {
        return;
    };
    let src = noise(77, 21);
    let base = noise(77, 22);
    let table = scale_table(gf8b::Elem(0x9c));
    let mut d = base.clone();
    mul_add_avx2(token, &mut d, &table, &src);
    assert_ne!(d, base);
    mul_add_avx2(token, &mut d, &table, &src);
    assert_eq!(d, base);
}

#[test]
fn two_axpys_combine_into_the_sum_coefficient() {
    let src = noise(65, 31);
    let base = noise(65, 32);
    let mut two = base.clone();
    brem::<Gfni>(&mut two, gf8b::Elem(0x35), &src);
    brem::<Gfni>(&mut two, gf8b::Elem(0xc6), &src);
    let mut one = base.clone();
    brem::<Gfni>(&mut one, gf8b::Elem(0x35 ^ 0xc6), &src);
    assert_eq!(two, one);
}

#[test]
fn blocked_multiplies_match_reference() {
    let src = noise(70, 41);
    let base = noise(70, 42);
    for c in COEFFS {
        let mut got = base.clone();
        brem::<Affine8D>(&mut got, gf8d::Elem(c), &src);
        let want: Vec<u8> = base.iter().zip(&src).map(|(d, s)| d ^ gmul(D, c, *s)).collect();
        assert_eq!(got, want);

        let mut got = base.clone();
        bscale_assign::<Gfni>(&mut got, gf8b::Elem(c));
        let want: Vec<u8> = base.iter().map(|s| gmul(B, c, *s)).collect();
        assert_eq!(got, want);

        let mut got = base.clone();
        bscale_into::<Affine8D>(&mut got, gf8d::Elem(c), &src);
        let want: Vec<u8> = src.iter().map(|s| gmul(D, c, *s)).collect();
        assert_eq!(got, want);

        let mut got = base.clone();
        mul_add_affine_impl(&mut got, affine_8b(gf8b::Elem(c)), &scale_table(gf8b::Elem(c)), &src);
        let want: Vec<u8> = base.iter().zip(&src).map(|(d, s)| d ^ gmul(B, c, *s)).collect();
        assert_eq!(got, want);
    }
    let f = prepare_affine_8b(gf8b::Elem(0x57));
    let mut one = vec![0u8; 1];
    brem::<fgf::kernel::x86::gf8::Affine8B>(&mut one, f, &[0x83]);
    assert_eq!(one, vec![0xc1]);
}

#[test]
fn gfni_entries_match_reference_where_supported() {
    let Some(token) = X64V3GfniCryptoToken::summon() else {
        return;
    };
    let src = noise(100, 51);
    let base = noise(100, 52);
    let mut got = base.clone();
    mul_add_gfni(token, &mut got, gf8b::Elem(0x57), &src);
    let want: Vec<u8> = base.iter().zip(&src).map(|(d, s)| d ^ gmul(B, 0x57, *s)).collect();
    assert_eq!(got, want);
    let mut dst = base.clone();
    mul_add_gather_gfni(token, &mut dst, &[gf8b::Elem(3), gf8b::Elem(5)], &[&src, &base]);
    let want: Vec<u8> =
        (0..100).map(|i| base[i] ^ gmul(B, 3, src[i]) ^ gmul(B, 5, base[i])).collect();
    assert_eq!(dst, want);
    let mut rows = vec![0xffu8; 20];
    mul_into_matrix_affine(token, &mut rows, 10, 2, &[(&[gf8d::Elem(2), gf8d::Elem(3)][..], &src[..10])]);
    for k in 0..10 {
        assert_eq!(rows[k], gmul(D, 2, src[k]));
        assert_eq!(rows[10 + k], gmul(D, 3, src[k]));
    }
}

#[test]
fn elementwise_products_match_reference() {
    let a: [u8; 32] = core::array::from_fn(|i| (i as u8).wrapping_mul(37).wrapping_add(5));
    let b: [u8; 32] = core::array::from_fn(|i| (i as u8).wrapping_mul(91).wrapping_add(17));
    let r = multiply_vectors_avx2::<0x1b>(a, b);
    for i in 0..32 {
        assert_eq!(r[i], gmul(B, a[i], b[i]));
    }
    let a16: [u8; 16] = core::array::from_fn(|i| a[i]);
    let b16: [u8; 16] = core::array::from_fn(|i| b[i]);
    let r = multiply_vectors_sse::<0x1d>(a16, b16);
    for i in 0..16 {
        assert_eq!(r[i], gmul(D, a16[i], b16[i]));
    }
    let a = noise(53, 61);
    let b = noise(53, 62);
    if let Some(token) = X64V3Token::summon() {
        let mut dst = vec![0u8; 53];
        mul_elementwise_avx2::<0x1b>(token, &mut dst, &a, &b);
        for i in 0..53 {
            assert_eq!(dst[i], gmul(B, a[i], b[i]));
        }
    }
    if let Some(token) = X64V2Token::summon() {
        let mut dst = vec![0u8; 53];
        mul_elementwise_ssse3::<0x1d>(token, &mut dst, &a, &b);
        for i in 0..53 {
            assert_eq!(dst[i], gmul(D, a[i], b[i]));
        }
    }
}

#[test]
fn scatter_nibble_kernels_match_reference() {
    let row_len = 45;
    let coeffs = [gf8b::Elem(0x57), gf8b::Elem(0), gf8b::Elem(1), gf8b::Elem(0xe3)];
    let src = noise(row_len, 71);
    let base = noise(row_len * 4 + 3, 72);
    let mut want = base.clone();
    for (j, c) in coeffs.iter().enumerate() {
        for k in 0..row_len {
            want[j * row_len + k] ^= gmul(B, c.0, src[k]);
        }
    }
    if let Some(token) = X64V3Token::summon() {
        let mut rows = base.clone();
        mul_add_scatter_avx2(token, &mut rows, row_len, &coeffs, &src);
        assert_eq!(rows, want);
        // The zero-coefficient row is left as it was.
        assert_eq!(rows[row_len..2 * row_len], base[row_len..2 * row_len]);
    }
    if let Some(token) = X64V2Token::summon() {
        let mut rows = base.clone();
        mul_add_scatter_ssse3(token, &mut rows, row_len, &coeffs, &src);
        assert_eq!(rows, want);
    }
}

#[test]
fn gather_nibble_kernels_match_reference() {
    for len in [0usize, 31, 64, 100, 300] {
        let srcs_owned: Vec<Vec<u8>> = (0..6).map(|t| noise(len, 80 + t)).collect();
        let srcs: Vec<&[u8]> = srcs_owned.iter().map(|s| &s[..]).collect();
        let coeffs: Vec<gf8b::Elem> =
            [0x57u8, 0, 3, 0xff, 0x10, 0x8e].iter().map(|c| gf8b::Elem(*c)).collect();
        let base = noise(len, 90);
        let mut want = base.clone();
        for i in 0..len {
            for t in 0..6 {
                want[i] ^= gmul(B, coeffs[t].0, srcs[t][i]);
            }
        }
        check_gather("gather", &base, coeffs.len(), &srcs);
        if let Some(token) = X64V3Token::summon() {
            let mut dst = base.clone();
            mul_add_gather_avx2(token, &mut dst, &coeffs, &srcs);
            assert_eq!(dst, want, "avx2 gather len {len}");
        }
        if let Some(token) = X64V2Token::summon() {
            let mut dst = base.clone();
            mul_add_gather_ssse3(token, &mut dst, &coeffs, &srcs);
            assert_eq!(dst, want, "ssse3 gather len {len}");
        }
    }
}

#[test]
fn gather_geometry_checks() {
    let a = [1u8; 8];
    let b = [2u8; 8];
    let dst = [0u8; 8];
    check_gather("gather", &dst, 2, &[&a, &b]);
    check_gather("gather", &dst, 0, &[]);
    assert!(gather_fused(96, 3));
    assert!(gather_fused(64, 4));
    assert!(!gather_fused(96, 2));
    assert!(!gather_fused(128, 3));
    assert!(!gather_fused(100, 3));
    assert!(!gather_fused(0, 3));
}

#[test]
fn scattered_row_geometry_checks() {
    check_scattered("rows", 100, 10, &[0, 20, 90]);
    check_scattered("rows", 100, 10, &[90, 0, 45]);
    check_scattered("rows", 100, 10, &[]);
}

#[test]
fn matrix_kernels_match_reference() {
    let row_len = 37;
    let nrows = 3;
    let src0 = noise(row_len, 101);
    let src1 = noise(row_len, 102);
    let c0 = [gf8b::Elem(2), gf8b::Elem(0), gf8b::Elem(0x57)];
    let c1 = [gf8b::Elem(0x80), gf8b::Elem(9), gf8b::Elem(1)];
    let terms: Vec<(&[gf8b::Elem], &[u8])> = vec![(&c0, &src0), (&c1, &src1)];
    let base = noise(row_len * nrows + 5, 103);
    let mut want = base.clone();
    for r in 0..nrows {
        for k in 0..row_len {
            want[r * row_len + k] ^= gmul(B, c0[r].0, src0[k]) ^ gmul(B, c1[r].0, src1[k]);
        }
    }
    if let Some(token) = X64V3Token::summon() {
        let mut rows = base.clone();
        mul_add_matrix_avx2(token, &mut rows, row_len, nrows, &terms);
        assert_eq!(rows, want);
    }
    if let Some(token) = X64V2Token::summon() {
        let mut rows = base.clone();
        mul_add_matrix_ssse3(token, &mut rows, row_len, nrows, &terms);
        assert_eq!(rows, want);
    }
    let mut rows = base.clone();
    mul_add_matrix_impl::<Gfni, [(&[gf8b::Elem], &[u8])]>(&mut rows, row_len, nrows, &terms, false, false);
    assert_eq!(rows, want);
    // Overwrite: the accumulate result over a cleared block.
    let mut rows = base.clone();
    mul_add_matrix_impl::<Gfni, [(&[gf8b::Elem], &[u8])]>(&mut rows, row_len, nrows, &terms, true, true);
    let mut cleared = base.clone();
    for b in cleared.iter_mut().take(row_len * nrows) {
        *b = 0;
    }
    mul_add_matrix_impl::<Gfni, [(&[gf8b::Elem], &[u8])]>(&mut cleared, row_len, nrows, &terms, false, false);
    assert_eq!(rows, cleared);
}

#[test]
fn byte_product_is_a_commutative_ring() {
    for a in 0..=255u8 {
        assert_eq!(gf_mul_ref::<0x1b>(a, 1), a);
        assert_eq!(gf_mul_ref::<0x1b>(1, a), a);
        assert_eq!(gf_mul_ref::<0x1d>(a, 0), 0);
        assert_eq!(gf_mul_ref::<0x1d>(0, a), 0);
        for b in 0..=255u8 {
            assert_eq!(gf_mul_ref::<0x1b>(a, b), gf_mul_ref::<0x1b>(b, a));
            assert_eq!(gf_mul_ref::<0x1d>(a, b), gf_mul_ref::<0x1d>(b, a));
        }
    }
    for (a, b, c) in [(0x57u8, 0x83u8, 0x13u8), (0xff, 0x02, 0x80), (0x1d, 0xc4, 0x9a)] {
        let ab_c = gf_mul_ref::<0x1b>(gf_mul_ref::<0x1b>(a, b), c);
        assert_eq!(ab_c, gf_mul_ref::<0x1b>(a, gf_mul_ref::<0x1b>(b, c)));
        let ab_c = gf_mul_ref::<0x1d>(gf_mul_ref::<0x1d>(a, b), c);
        assert_eq!(ab_c, gf_mul_ref::<0x1d>(a, gf_mul_ref::<0x1d>(b, c)));
    }
}

#[test]
fn scale_then_inverse_scale_restores() {
    assert_eq!(gf_mul_ref::<0x1b>(0xca, 0x53), 1);
    let base = noise(77, 41);
    let mut d = base.clone();
    bscale_assign::<Gfni>(&mut d, gf8b::Elem(0x53));
    assert_ne!(d, base);
    bscale_assign::<Gfni>(&mut d, gf8b::Elem(0xca));
    assert_eq!(d, base);
    if let Some(token) = X64V3GfniCryptoToken::summon() {
        let mut d = base.clone();
        fgf::kernel::x86::gf8::gfni::mul_assign_gfni(token, &mut d, gf8b::Elem(0x53));
        fgf::kernel::x86::gf8::gfni::mul_assign_gfni(token, &mut d, gf8b::Elem(0xca));
        assert_eq!(d, base);
    }
}
