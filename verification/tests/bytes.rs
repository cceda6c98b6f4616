use archmage::{SimdToken, X64V1Token, X64V2Token, X64V3Token};
use fgf::kernel::x86::bytes::{
    xor_avx2, xor_broadcast_avx2, xor_broadcast_sse42, xor_bytes, xor_gather_avx2, xor_rows_avx2,
    xor_rows_sse2, xor_sse2,
};
use fgf::kernel::x86::{NT_STORE_MIN, PEEL_FLOOR, nt_split, nt_split_at, peel_at, peel_to_align};

fn noise(len: usize, seed: u64) -> Vec<u8> {
    let mut state = seed | 1;
    (0..len)
        .map(|_| {
            state = state.wrapping_mul(6_364_136_223_846_793_005).wrapping_add(1442695040888963407);
            (state >> 56) as u8
        })
        .collect()
}

fn xor(a: &[u8], b: &[u8]) -> Vec<u8> {
    a.iter().zip(b).map(|(x, y)| x ^ y).collect()
}

#[test]
fn xor_kernels_match_reference() {
    for len in [0usize, 1, 15, 16, 31, 32, 33, 100] {
        let a = noise(len, 1 + len as u64);
        let b = noise(len, 2 + len as u64);
        let want = xor(&a, &b);
        let mut d = a.clone();
        xor_bytes(&mut d, &b);
        assert_eq!(d, want);
        if let Some(token) = X64V3Token::summon() {
            let mut d = a.clone();
            xor_avx2(token, &mut d, &b);
            assert_eq!(d, want);
            // Twice restores the destination.
            xor_avx2(token, &mut d, &b);
            assert_eq!(d, a);
        }
        if let Some(token) = X64V1Token::summon() {
            let mut d = a.clone();
            xor_sse2(token, &mut d, &b);
            assert_eq!(d, want);
        }
    }
    let mut d = vec![0xf0u8, 0x0f];
    xor_bytes(&mut d, &[0xff, 0xff]);
    assert_eq!(d, vec![0x0f, 0xf0]);
}

#[test]
fn xor_rows_match_flat_xor() {
    let a = noise(96, 7);
    let b = noise(96, 8);
    if let Some(token) = X64V3Token::summon() {
        let mut d = a.clone();
        xor_rows_avx2(token, &mut d, &b, 24);
        assert_eq!(d, xor(&a, &b));
    }
    if let Some(token) = X64V1Token::summon() {
        let mut d = a.clone();
        xor_rows_sse2(token, &mut d, &b, 48);
        assert_eq!(d, xor(&a, &b));
    }
}

#[test]
fn xor_gather_folds_every_row() {
    let Some(token) = X64V3Token::summon() else {
        return;
    };
    let region = noise(200, 9);
    let offsets = [0u32, 50, 130];
    let base = noise(70, 10);
    let mut d = base.clone();
    xor_gather_avx2(token, &region, &mut d, &offsets);
    for k in 0..70 {
        assert_eq!(d[k], base[k] ^ region[k] ^ region[50 + k] ^ region[130 + k]);
    }
    let mut d = base.clone();
    xor_gather_avx2(token, &region, &mut d, &[]);
    assert_eq!(d, base);
}

#[test]
fn xor_broadcast_repeats_the_value() {
    let base = noise(75, 11);
    for value in [vec![0xaau8], vec![1, 2, 3], vec![1, 2, 3, 4, 5, 6, 7, 8], (0u8..16).collect()] {
        let want: Vec<u8> = base.iter().enumerate().map(|(i, x)| x ^ value[i % value.len()]).collect();
        if let Some(token) = X64V3Token::summon() {
            let mut d = base.clone();
            xor_broadcast_avx2(token, &mut d, &value);
            assert_eq!(d, want, "avx2 value {value:?}");
        }
        if let Some(token) = X64V2Token::summon() {
            let mut d = base.clone();
            xor_broadcast_sse42(token, &mut d, &value);
            assert_eq!(d, want, "sse42 value {value:?}");
        }
    }
}

#[test]
fn streaming_split_decisions() {
    assert_eq!(NT_STORE_MIN, 2 * 1024 * 1024);
    assert_eq!(nt_split_at(NT_STORE_MIN - 1, 0, 4), None);
    assert_eq!(nt_split_at(NT_STORE_MIN, 8, 4), Some(8));
    assert_eq!(nt_split_at(NT_STORE_MIN, 6, 4), None);
    assert_eq!(nt_split_at(NT_STORE_MIN, usize::MAX, 1), None);
    assert_eq!(nt_split_at(NT_STORE_MIN, 40, 4), None);
    assert_eq!(peel_at(40, PEEL_FLOOR, 4), 0);
    assert_eq!(nt_split(&[0u8; 64], 1), None);
    assert_eq!(PEEL_FLOOR, 2048);
    assert_eq!(peel_at(8, PEEL_FLOOR, 4), 8);
    assert_eq!(peel_at(8, PEEL_FLOOR - 1, 4), 0);
    assert_eq!(peel_at(6, PEEL_FLOOR, 4), 0);
    assert_eq!(peel_at(PEEL_FLOOR, PEEL_FLOOR, 1), 0);
    let row = vec![0u8; 4096];
    let p = peel_to_align(&row, 4096, 8);
    assert!(p < 32 && p % 8 == 0);
}
