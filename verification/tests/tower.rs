use archmage::{SimdToken, X64V2Token, X64V3Token};
use fgf::field::{gf16, gf32, gf64};
use fgf::kernel::x86::avx512;
use fgf::kernel::x86::gf16::nibble::{
    mul_add_avx2, mul_add_ssse3, mul_assign_avx2, mul_assign_ssse3, mul_into_avx2, mul_into_ssse3,
};
use fgf::kernel::x86::gf16::scatter::mul_add_scatter_avx2;
use fgf::kernel::x86::gf16::gather::mul_add_gather_avx2;
use fgf::kernel::x86::gf16::elementwise::{mul_elementwise_assign_avx2, mul_elementwise_avx2};
use fgf::kernel::x86::gf16::matrix::mul_add_matrix_avx2;
use fgf::kernel::x86::{gf32 as k32, gf64 as k64};
use fgf::tables::{TowerCoeff, TowerTables};

fn noise(len: usize, seed: u64) -> Vec<u8> {
    let mut state = seed | 1;
    (0..len)
        .map(|_| {
            state = state.wrapping_mul(6_364_136_223_846_793_005).wrapping_add(1442695040888963407);
            (state >> 56) as u8
        })
        .collect()
}

fn mul16(c: u16, x: u16) -> u16 {
    gf16::Elem(c).mul(gf16::Elem(x)).0
}

/// `c * src` over little-endian 2-byte elements.
fn scale16(c: u16, src: &[u8]) -> Vec<u8> {
    src.chunks_exact(2)
        .flat_map(|e| mul16(c, u16::from_le_bytes([e[0], e[1]])).to_le_bytes())
        .collect()
}

fn xor(a: &[u8], b: &[u8]) -> Vec<u8> {
    a.iter().zip(b).map(|(x, y)| x ^ y).collect()
}

#[test]
fn tower16_known_products() {
    // Base-field products stay in the low byte.
    assert_eq!(mul16(0x0002, 0x0003), 0x0006);
    // The tower generator squares to itself plus the chosen constant.
    assert_eq!(mul16(0x0100, 0x0100), 0x0100 | gf16::DELTA as u16);
    assert_eq!(mul16(0x0001, 0xbeef), 0xbeef);
    assert_eq!(mul16(0, 0xbeef), 0);
    assert_eq!(gf16::Elem::from_bytes([0x34, 0x12]), gf16::Elem(0x1234));
    assert_eq!(gf16::Elem(0x1234).to_bytes(), [0x34, 0x12]);
}

#[test]
fn tower16_nibble_kernels_match_field() {
    for len in [0usize, 2, 30, 32, 34, 64, 130] {
        let src = noise(len, 5 + len as u64);
        let base = noise(len, 6 + len as u64);
        for c in [0u16, 1, 0x0100, 0x1234, 0xffff] {
            let tables = TowerTables::new(gf16::Elem(c));
            let want_add = xor(&base, &scale16(c, &src));
            if let Some(token) = X64V3Token::summon() {
                let mut got = base.clone();
                mul_add_avx2(token, &mut got, &tables, &src);
                assert_eq!(got, want_add, "avx2 add len {len} coeff {c:#x}");
                let mut got = base.clone();
                mul_into_avx2(token, &mut got, &tables, &src);
                assert_eq!(got, scale16(c, &src));
                let mut got = base.clone();
                mul_assign_avx2(token, &mut got, &tables);
                assert_eq!(got, scale16(c, &base));
                // Applied twice, the multiply-add restores the destination.
                let mut twice = base.clone();
                mul_add_avx2(token, &mut twice, &tables, &src);
                mul_add_avx2(token, &mut twice, &tables, &src);
                assert_eq!(twice, base);
            }
            if let Some(token) = X64V2Token::summon() {
                let mut got = base.clone();
                mul_add_ssse3(token, &mut got, &tables, &src);
                assert_eq!(got, want_add, "ssse3 add len {len} coeff {c:#x}");
                let mut got = base.clone();
                mul_into_ssse3(token, &mut got, &tables, &src);
                assert_eq!(got, scale16(c, &src));
                let mut got = base.clone();
                mul_assign_ssse3(token, &mut got, &tables);
                assert_eq!(got, scale16(c, &base));
            }
        }
    }
}

#[test]
fn tower16_gfni_form_without_the_token() {
    let src = noise(98, 11);
    let base = noise(98, 12);
    for c in [0u16, 1, 0x0100, 0xa5c3] {
        let coeff = TowerCoeff::new(gf16::Elem(c));
        let mut got = base.clone();
        avx512::gf16_mul_add(&mut got, coeff, &src);
        assert_eq!(got, xor(&base, &scale16(c, &src)));
        let mut got = base.clone();
        avx512::gf16_mul_into(&mut got, coeff, &src);
        assert_eq!(got, scale16(c, &src));
        let mut got = base.clone();
        avx512::gf16_mul_assign(&mut got, coeff);
        assert_eq!(got, scale16(c, &base));
    }
    let mut got = vec![0u8; 98];
    avx512::gf16_mul_elementwise(&mut got, &src, &base);
    for (e, out) in got.chunks_exact(2).enumerate() {
        let a = u16::from_le_bytes([src[2 * e], src[2 * e + 1]]);
        let b = u16::from_le_bytes([base[2 * e], base[2 * e + 1]]);
        assert_eq!(u16::from_le_bytes([out[0], out[1]]), mul16(a, b));
    }
}

#[test]
fn tower16_multi_row_kernels_match_field() {
    let Some(token) = X64V3Token::summon() else {
        return;
    };
    let row_len = 70;
    let src = noise(row_len, 21);
    let coeffs = [gf16::Elem(0x1234), gf16::Elem(0), gf16::Elem(0x0100)];
    let base = noise(row_len * 3, 22);
    let mut rows = base.clone();
    mul_add_scatter_avx2(token, &mut rows, row_len, &coeffs, &src);
    for (j, c) in coeffs.iter().enumerate() {
        assert_eq!(
            rows[j * row_len..(j + 1) * row_len],
            xor(&base[j * row_len..(j + 1) * row_len], &scale16(c.0, &src))[..]
        );
    }

    let s2 = noise(row_len, 23);
    let mut dst = base[..row_len].to_vec();
    mul_add_gather_avx2(token, &mut dst, &coeffs[..2], &[&src, &s2]);
    let want = xor(&xor(&base[..row_len], &scale16(coeffs[0].0, &src)), &scale16(coeffs[1].0, &s2));
    assert_eq!(dst, want);

    let c0 = [gf16::Elem(3), gf16::Elem(0xabcd)];
    let c1 = [gf16::Elem(0x0100), gf16::Elem(1)];
    let terms: Vec<(&[gf16::Elem], &[u8])> = vec![(&c0, &src), (&c1, &s2)];
    let mut rows = base[..2 * row_len].to_vec();
    mul_add_matrix_avx2(token, &mut rows, row_len, 2, &terms);
    for r in 0..2 {
        let want = xor(
            &xor(&base[r * row_len..(r + 1) * row_len], &scale16(c0[r].0, &src)),
            &scale16(c1[r].0, &s2),
        );
        assert_eq!(rows[r * row_len..(r + 1) * row_len], want[..]);
    }

    let mut prod = vec![0u8; row_len];
    mul_elementwise_avx2(token, &mut prod, &src, &s2);
    let mut assign = src.clone();
    mul_elementwise_assign_avx2(token, &mut assign, &s2);
    assert_eq!(prod, assign);
    for (e, out) in prod.chunks_exact(2).enumerate() {
        let a = u16::from_le_bytes([src[2 * e], src[2 * e + 1]]);
        let b = u16::from_le_bytes([s2[2 * e], s2[2 * e + 1]]);
        assert_eq!(u16::from_le_bytes([out[0], out[1]]), mul16(a, b));
    }
}

fn scale32(c: u32, src: &[u8]) -> Vec<u8> {
    src.chunks_exact(4)
        .flat_map(|e| {
            let (a, b, d, f) = gf32::mul_bytes(c, e[0], e[1], e[2], e[3]);
            [a, b, d, f]
        })
        .collect()
}

#[test]
fn tower32_known_products_and_tiles() {
    assert_eq!(gf32::Elem(2).mul(gf32::Elem(3)), gf32::Elem(6));
    assert_eq!(gf32::Elem(1).mul(gf32::Elem(0xdead_beef)), gf32::Elem(0xdead_beef));
    let c = 0x1234_5678u32;
    let x = 0x9abc_def0u32;
    let b = x.to_le_bytes();
    let (r0, r1, r2, r3) = gf32::mul_bytes(c, b[0], b[1], b[2], b[3]);
    assert_eq!(u32::from_le_bytes([r0, r1, r2, r3]), gf32::Elem(c).mul(gf32::Elem(x)).0);

    let src = noise(100, 31);
    let base = noise(100, 32);
    for c in [0u32, 1, 0x0001_0000, 0x1234_5678] {
        let coeff = gf32::Elem(c);
        let tiles = k32::gf32_tiles(coeff);
        let mut got = base.clone();
        k32::mul_add_gfni(&mut got, coeff, tiles, &src);
        assert_eq!(got, xor(&base, &scale32(c, &src)));
        let mut got = base.clone();
        k32::mul_into_gfni(&mut got, coeff, tiles, &src);
        assert_eq!(got, scale32(c, &src));
        let mut got = base.clone();
        k32::mul_assign_gfni(&mut got, coeff, tiles);
        assert_eq!(got, scale32(c, &base));
    }
}

fn scale64(c: u64, src: &[u8]) -> Vec<u8> {
    src.chunks_exact(8)
        .flat_map(|e| gf64::mul_bytes(c, [e[0], e[1], e[2], e[3], e[4], e[5], e[6], e[7]]))
        .collect()
}

#[test]
fn tower64_known_products_and_tiles() {
    assert_eq!(gf64::mul_bytes(2, 3u64.to_le_bytes()), 6u64.to_le_bytes());
    assert_eq!(gf64::mul_bytes(1, 0x0123_4567_89ab_cdefu64.to_le_bytes()), 0x0123_4567_89ab_cdefu64.to_le_bytes());
    assert_eq!(gf64::mul_bytes(0, 0x0123_4567_89ab_cdefu64.to_le_bytes()), [0u8; 8]);
    let src = noise(136, 41);
    let base = noise(136, 42);
    for c in [0u64, 1, 0x0000_0001_0000_0000, 0x0123_4567_89ab_cdef] {
        let coeff = gf64::Elem(c);
        let tiles = k64::gf64_tiles(coeff);
        let mut got = base.clone();
        k64::mul_add_gfni(&mut got, coeff, tiles, &src);
        assert_eq!(got, xor(&base, &scale64(c, &src)));
        let mut got = base.clone();
        k64::mul_into_gfni(&mut got, coeff, tiles, &src);
        assert_eq!(got, scale64(c, &src));
        let mut got = base.clone();
        k64::mul_assign_gfni(&mut got, coeff, tiles);
        assert_eq!(got, scale64(c, &base));
    }
}
