use archmage::{SimdToken, X64V3GfniCryptoToken, X64V3Token};
use fgf::field::{gf8b, gf8d};
use fgf::kernel::x86::gf8::experiments::gather::{
    mul_add_gather_affine_8b, mul_add_gather_gfni_axpy_tail, mul_add_gather_gfni_split,
    mul_add_gather_gfni_tile,
};
use fgf::kernel::x86::gf8::experiments::grouped::{
    mul_into_matrix_chunk_8d, mul_into_matrix_external_grouped_8d,
};
use fgf::kernel::x86::gf8::experiments::resolve::{
    mul_into_matrix1_chunk_8d, mul_into_matrix1_external_8d, mul_into_matrix1_external_chunk_8d,
    mul_into_matrix1_fullinit_8d, resolve_probe_8d, resolve_probe_with,
};
use fgf::kernel::x86::gf8::experiments::shuffle::{
    mul_into_matrix2_shuffle_packed, mul_into_matrix6_shuffle_8b, mul_into_matrix6_shuffle_8d,
    mul_into_matrix6_shuffle_packed_8b,
};
use fgf::kernel::x86::gf8::experiments::tile::{
    mul_into_matrix1_tile_8d, mul_into_matrix2_8b, mul_into_matrix2_8d,
};
use fgf::kernel::x86::gf8::prepare_affine_8b;
use fgf::tables::affine_8d;

const B: u8 = 0x1b;
const D: u8 = 0x1d;

fn gmul(red: u8, a: u8, b: u8) -> u8 {
    let (mut a, mut b, mut p) = (a, b, 0u8);
    for _ in 0..8 {
        if b & 1 != 0 {
            p ^= a;
        }
        let carry = a & 0x80 != 0;
        a <<= 1;
        if carry {
            a ^= red;
        }
        b >>= 1;
    }
    p
}

fn noise(len: usize, seed: u64) -> Vec<u8> {
    let mut state = seed | 1;
    (0..len)
        .map(|_| {
            state = state.wrapping_mul(6_364_136_223_846_793_005).wrapping_add(1442695040888963407);
            (state >> 56) as u8
        })
        .collect()
}

/// A packed `[lo; 16, hi; 16]` record of a coefficient.
fn record(red: u8, c: u8) -> [u8; 32] {
    core::array::from_fn(|i| if i < 16 { gmul(red, c, i as u8) } else { gmul(red, c, ((i - 16) as u8) << 4) })
}

#[test]
fn resolve_probe_folds_maps_and_addresses() {
    let a = [1u8, 2, 3];
    let b = [4u8; 5];
    let c1 = [gf8d::Elem(2)];
    let c2 = [gf8d::Elem(0x57), gf8d::Elem(9)];
    let terms: Vec<(&[gf8d::Elem], &[u8])> = vec![(&c1, &a), (&c2, &b)];
    let addrs = [0x1000u64, 0x2000];
    let want = (affine_8d(gf8d::Elem(2)) ^ 0x1000) ^ (affine_8d(gf8d::Elem(0x57)) ^ 0x2000);
    assert_eq!(resolve_probe_with(&terms, &addrs), want);
    assert_eq!(resolve_probe_with(&[], &[]), 0);
    // Two terms over one source fold its address word in twice, which
    // cancels: what is left is the two maps.
    let same: Vec<(&[gf8d::Elem], &[u8])> = vec![(&c1, &a), (&c2, &a)];
    let maps_only = affine_8d(gf8d::Elem(2)) ^ affine_8d(gf8d::Elem(0x57));
    assert_eq!(resolve_probe_8d(&same), maps_only);
}

#[test]
fn packed_shuffle_matches_field_products() {
    let Some(token) = X64V3Token::summon() else {
        return;
    };
    for row_len in [0usize, 31, 32, 64, 70, 100] {
        let s0 = noise(row_len, 1);
        let s1 = noise(row_len, 2);
        let cs = [0x57u8, 0x00, 0x10, 0xff];
        let tables = [record(B, cs[0]), record(B, cs[1]), record(B, cs[2]), record(B, cs[3])];
        for lanes in [1usize, 2] {
            let mut rows = vec![0xeeu8; 2 * row_len + 3];
            mul_into_matrix2_shuffle_packed(token, &mut rows, row_len, &tables, &[&s0, &s1], lanes);
            for k in 0..row_len {
                assert_eq!(rows[k], gmul(B, cs[0], s0[k]) ^ gmul(B, cs[2], s1[k]));
                assert_eq!(rows[row_len + k], gmul(B, cs[1], s0[k]) ^ gmul(B, cs[3], s1[k]));
            }
            assert_eq!(rows[2 * row_len..], [0xee, 0xee, 0xee]);
        }
    }
}

#[test]
fn gfni_variants_match_reference_where_supported() {
    let Some(token) = X64V3GfniCryptoToken::summon() else {
        return;
    };
    let len = 300;
    let srcs_owned: Vec<Vec<u8>> = (0..5).map(|t| noise(len, 10 + t)).collect();
    let srcs: Vec<&[u8]> = srcs_owned.iter().map(|s| &s[..]).collect();
    let cs = [3u8, 0, 0x57, 0xff, 1];
    let coeffs: Vec<gf8b::Elem> = cs.iter().map(|c| gf8b::Elem(*c)).collect();
    let base = noise(len, 20);
    let want: Vec<u8> = (0..len)
        .map(|i| (0..5).fold(base[i], |acc, t| acc ^ gmul(B, cs[t], srcs[t][i])))
        .collect();
    let mut d = base.clone();
    mul_add_gather_gfni_split(token, &mut d, &coeffs, &srcs);
    assert_eq!(d, want);
    let mut d = base.clone();
    mul_add_gather_gfni_axpy_tail(token, &mut d, &coeffs, &srcs);
    assert_eq!(d, want);
    let mut d = base.clone();
    mul_add_gather_gfni_tile::<2>(token, &mut d, &coeffs, &srcs);
    assert_eq!(d, want);
    let factors: Vec<_> = cs.iter().map(|c| prepare_affine_8b(gf8b::Elem(*c))).collect();
    let mut d = base.clone();
    mul_add_gather_affine_8b(token, &mut d, &factors, &srcs);
    assert_eq!(d, want);

    let row_len = 70;
    let c0 = [gf8d::Elem(2), gf8d::Elem(3), gf8d::Elem(0), gf8d::Elem(7), gf8d::Elem(9), gf8d::Elem(1)];
    let c1 = [gf8d::Elem(0x57), gf8d::Elem(1), gf8d::Elem(5), gf8d::Elem(0), gf8d::Elem(8), gf8d::Elem(0xff)];
    let terms: Vec<(&[gf8d::Elem], &[u8])> = vec![(&c0, &srcs[0][..row_len]), (&c1, &srcs[1][..row_len])];
    let expect = |r: usize, k: usize| gmul(D, c0[r].0, srcs[0][k]) ^ gmul(D, c1[r].0, srcs[1][k]);
    for chunk in [32usize, 64, 96] {
        let mut rows = vec![0xaau8; 6 * row_len];
        mul_into_matrix_chunk_8d(token, &mut rows, row_len, 5, &terms, chunk);
        for r in 0..5 {
            for k in 0..row_len {
                assert_eq!(rows[r * row_len + k], expect(r, k));
            }
        }
        assert!(rows[5 * row_len..].iter().all(|b| *b == 0xaa));
    }
    let mut rows = vec![0u8; row_len];
    mul_into_matrix1_chunk_8d(token, &mut rows, row_len, &terms, 3, 64);
    let mut rows2 = vec![1u8; row_len];
    mul_into_matrix1_fullinit_8d(token, &mut rows2, row_len, &terms, 4);
    let mut rows3 = vec![2u8; row_len];
    mul_into_matrix1_tile_8d(token, &mut rows3, row_len, &terms, 3);
    for k in 0..row_len {
        assert_eq!(rows[k], expect(0, k));
    }
    assert_eq!(rows, rows2);
    assert_eq!(rows, rows3);
    let mut six = vec![0u8; 6 * row_len];
    mul_into_matrix6_shuffle_8d(token, &mut six, row_len, &terms);
    for r in 0..6 {
        for k in 0..row_len {
            assert_eq!(six[r * row_len + k], expect(r, k));
        }
    }
    let mut two = vec![0u8; 2 * row_len];
    mul_into_matrix2_8d(token, &mut two, row_len, &terms, false, 3);
    assert_eq!(two[..], six[..2 * row_len]);

    let b0: Vec<gf8b::Elem> = c0.iter().map(|c| gf8b::Elem(c.0)).collect();
    let b1: Vec<gf8b::Elem> = c1.iter().map(|c| gf8b::Elem(c.0)).collect();
    let bterms: Vec<(&[gf8b::Elem], &[u8])> = vec![(&b0, &srcs[0][..row_len]), (&b1, &srcs[1][..row_len])];
    let mut six_b = vec![0u8; 6 * row_len];
    mul_into_matrix6_shuffle_8b(token, &mut six_b, row_len, &bterms);
    let mut two_b = vec![0u8; 2 * row_len];
    mul_into_matrix2_8b(token, &mut two_b, row_len, &bterms, false, 4);
    assert_eq!(two_b[..], six_b[..2 * row_len]);
    let tables: Vec<[u8; 32]> = (0..2)
        .flat_map(|t| (0..6).map(move |r| (t, r)))
        .map(|(t, r)| record(B, if t == 0 { c0[r].0 } else { c1[r].0 }))
        .collect();
    let mut packed = vec![0u8; 6 * row_len];
    mul_into_matrix6_shuffle_packed_8b(token, &mut packed, row_len, &tables, &[&srcs[0][..row_len], &srcs[1][..row_len]]);
    assert_eq!(packed, six_b);

    let ext_row = 64;
    let maps = [affine_8d(c0[0]), affine_8d(c1[0])];
    let esrcs = [&srcs[0][..ext_row], &srcs[1][..ext_row]];
    let mut ext = vec![0u8; ext_row];
    mul_into_matrix1_external_8d(token, &mut ext, ext_row, &maps, &esrcs, 4);
    let mut ext2 = vec![9u8; ext_row];
    mul_into_matrix1_external_chunk_8d(token, &mut ext2, ext_row, &maps, &esrcs, 3, 0);
    for k in 0..ext_row {
        assert_eq!(ext[k], expect(0, k));
    }
    assert_eq!(ext, ext2);
    // Group-major maps for three rows: a pair, then a single row.
    let gmaps = [
        affine_8d(c0[0]), affine_8d(c0[1]), affine_8d(c1[0]), affine_8d(c1[1]),
        affine_8d(c0[2]), affine_8d(c1[2]),
    ];
    let mut grouped = vec![0u8; 3 * ext_row];
    mul_into_matrix_external_grouped_8d(token, &mut grouped, ext_row, 3, &gmaps, &esrcs, 32);
    for r in 0..3 {
        for k in 0..ext_row {
            assert_eq!(grouped[r * ext_row + k], expect(r, k));
        }
    }
}

use fgf::kernel::x86::gf8::experiments::gather::gather_split;
use fgf::kernel::x86::gf8::experiments::{rows_external_chunked, rows_resolved_chunked};
use fgf::kernel::x86::gf8::gather::mul_add_gather_impl;
use fgf::kernel::x86::gf8::{Affine8D, Gfni};

#[test]
fn split_and_narrow_gathers_match_reference() {
    for len in [0usize, 100, 128, 300, 513] {
        let srcs_owned: Vec<Vec<u8>> = (0..5).map(|t| noise(len, 30 + t)).collect();
        let srcs: Vec<&[u8]> = srcs_owned.iter().map(|s| &s[..]).collect();
        let cs = [3u8, 0, 0x57, 0xff, 1];
        let coeffs: Vec<gf8b::Elem> = cs.iter().map(|c| gf8b::Elem(*c)).collect();
        let base = noise(len, 40);
        let want: Vec<u8> = (0..len)
            .map(|i| (0..5).fold(base[i], |acc, t| acc ^ gmul(B, cs[t], srcs[t][i])))
            .collect();
        let mut d = base.clone();
        gather_split(&mut d, &coeffs, &srcs);
        assert_eq!(d, want, "split len {len}");
        for lanes in 1..=4 {
            for fused in [false, true] {
                let mut d = base.clone();
                mul_add_gather_impl::<Gfni>(&mut d, &coeffs, &srcs, fused, lanes);
                assert_eq!(d, want, "tile lanes {lanes} fused {fused} len {len}");
            }
        }
        // An even source count exercises the split without a last odd source.
        let mut d = base.clone();
        gather_split(&mut d, &coeffs[..4], &srcs[..4]);
        let want4: Vec<u8> = (0..len)
            .map(|i| (0..4).fold(base[i], |acc, t| acc ^ gmul(B, cs[t], srcs[t][i])))
            .collect();
        assert_eq!(d, want4);
    }
}

#[test]
fn resolved_chunked_walk_matches_reference() {
    let row_len = 77;
    let nterms = 70;
    let srcs: Vec<Vec<u8>> = (0..nterms).map(|t| noise(row_len, 200 + t as u64)).collect();
    let coeffs: Vec<Vec<gf8d::Elem>> = (0..nterms)
        .map(|t| (0..5).map(|r| gf8d::Elem(((t * 7 + r * 13) % 256) as u8)).collect())
        .collect();
    let terms: Vec<(&[gf8d::Elem], &[u8])> =
        coeffs.iter().zip(&srcs).map(|(c, s)| (&c[..], &s[..])).collect();
    let base = noise(5 * row_len + 4, 300);
    for (g, width) in [(0usize, 4usize), (1, 2), (4, 1)] {
        for lanes in [1usize, 2, 3, 4] {
            for chunk in [1usize, 32, 64, 96] {
                for (overwrite, by_table) in [(true, false), (false, false), (true, true)] {
                    let mut rows = base.clone();
                    rows_resolved_chunked::<Affine8D, [(&[gf8d::Elem], &[u8])]>(
                        &mut rows, row_len, g, width, lanes, &terms, chunk, overwrite, by_table,
                    );
                    let mut want = base.clone();
                    for r in g..g + width {
                        for k in 0..row_len {
                            let seed = if overwrite { 0 } else { base[r * row_len + k] };
                            want[r * row_len + k] = (0..nterms)
                                .fold(seed, |acc, t| acc ^ gmul(D, coeffs[t][r].0, srcs[t][k]));
                        }
                    }
                    assert_eq!(rows, want, "g {g} width {width} lanes {lanes} chunk {chunk}");
                }
            }
        }
    }
}

#[test]
fn external_chunked_walk_matches_reference() {
    let row_len = 64;
    let nterms = 40;
    let width = 2;
    let srcs_owned: Vec<Vec<u8>> = (0..nterms).map(|t| noise(row_len, 400 + t as u64)).collect();
    let srcs: Vec<&[u8]> = srcs_owned.iter().map(|s| &s[..]).collect();
    let cs: Vec<u8> = (0..nterms * width).map(|i| (i * 37 % 256) as u8).collect();
    let maps: Vec<u64> = cs.iter().map(|c| affine_8d(gf8d::Elem(*c))).collect();
    let base = noise(3 * row_len, 500);
    for chunk in [0usize, 32] {
        let mut rows = base.clone();
        rows_external_chunked(&mut rows, row_len, 1, width, &maps, 0, &srcs, chunk);
        let mut want = base.clone();
        for j in 0..width {
            for k in 0..row_len {
                want[(1 + j) * row_len + k] =
                    (0..nterms).fold(0, |acc, t| acc ^ gmul(D, cs[t * width + j], srcs[t][k]));
            }
        }
        assert_eq!(rows, want, "chunk {chunk}");
    }
}
