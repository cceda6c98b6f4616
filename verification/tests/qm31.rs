use archmage::{SimdToken, X64V3Token};
use fgf::field::mersenne31;
use fgf::field::quad_mersenne31::Elem;
use fgf::kernel::x86::prime::qm31_avx2::{
    add_assign_qm31_avx2, mul_add_qm31_avx2, mul_assign_qm31_avx2, mul_elementwise_qm31_avx2,
    mul_into_qm31_avx2, sub_assign_qm31_avx2,
};

/// Lengths in bytes straddling the 32-byte vector lane.
const LENS: &[usize] = &[0, 8, 16, 24, 32, 40, 64, 72, 128, 264, 1024];

fn coeffs() -> [Elem; 9] {
    [
        Elem::zero(),
        Elem::one(),
        Elem::i(),
        Elem::from_raw(mersenne31::MODULUS - 1, mersenne31::MODULUS - 1),
        Elem::from_raw(1, mersenne31::MODULUS - 1),
        Elem::from_raw(0x5555_5555, 0x1234_5678),
        Elem::from_raw(mersenne31::MODULUS, 0),
        Elem::from_raw(u32::MAX, 2),
        Elem::from_raw(1, 12),
    ]
}

fn full_work() -> Elem {
    Elem::from_raw(0x1234_5678, 0x3FFF_FFF1)
}

fn from_bytes(b: &[u8]) -> Elem {
    Elem::from_raw(
        u32::from_le_bytes([b[0], b[1], b[2], b[3]]),
        u32::from_le_bytes([b[4], b[5], b[6], b[7]]),
    )
}

fn to_bytes(e: Elem) -> [u8; 8] {
    let (re, im) = e.to_raw();
    let r = re.to_le_bytes();
    let i = im.to_le_bytes();
    [r[0], r[1], r[2], r[3], i[0], i[1], i[2], i[3]]
}

fn noise(len: usize, seed: u64) -> Vec<u8> {
    let mut state = seed | 1;
    (0..len)
        .map(|_| {
            state = state.wrapping_mul(6_364_136_223_846_793_005).wrapping_add(1);
            (state >> 33).to_le_bytes()[0]
        })
        .collect()
}

fn canonical(len: usize, seed: u64) -> Vec<u8> {
    let mut out = noise(len, seed);
    for chunk in out.chunks_exact_mut(8) {
        let e = from_bytes(chunk);
        chunk.copy_from_slice(&to_bytes(e.canonical()));
    }
    out
}

fn edges(len: usize) -> Vec<u8> {
    let edges = [
        Elem::zero(),
        Elem::from_raw(mersenne31::MODULUS - 1, mersenne31::MODULUS - 1),
        Elem::from_raw(mersenne31::MODULUS - 1, 0),
        Elem::one(),
        Elem::from_raw(0x5555_5555, 0x1234_5678),
    ];
    let mut out = Vec::with_capacity(len);
    for i in 0..len / 8 {
        out.extend_from_slice(&to_bytes(edges[i % edges.len()]));
    }
    out
}

fn o_canon(x: u32) -> u32 {
    u32::try_from(u128::from(x) % u128::from(mersenne31::MODULUS)).unwrap()
}
fn o_add(a: u32, b: u32) -> u32 {
    u32::try_from((u128::from(o_canon(a)) + u128::from(o_canon(b))) % u128::from(mersenne31::MODULUS))
        .unwrap()
}
fn o_sub(a: u32, b: u32) -> u32 {
    let d = i128::from(o_canon(a)) - i128::from(o_canon(b));
    u32::try_from(d.rem_euclid(i128::from(mersenne31::MODULUS))).unwrap()
}
fn o_mul(a: u32, b: u32) -> u32 {
    u32::try_from((u128::from(o_canon(a)) * u128::from(o_canon(b))) % u128::from(mersenne31::MODULUS))
        .unwrap()
}

fn model_elem_add(a: Elem, b: Elem) -> Elem {
    let (ar, ai) = a.to_raw();
    let (br, bi) = b.to_raw();
    Elem::from_raw(o_add(ar, br), o_add(ai, bi))
}
fn model_elem_sub(a: Elem, b: Elem) -> Elem {
    let (ar, ai) = a.to_raw();
    let (br, bi) = b.to_raw();
    Elem::from_raw(o_sub(ar, br), o_sub(ai, bi))
}
fn model_elem_mul(a: Elem, b: Elem) -> Elem {
    let (ar, ai) = a.to_raw();
    let (br, bi) = b.to_raw();
    Elem::from_raw(o_sub(o_mul(ar, br), o_mul(ai, bi)), o_add(o_mul(ar, bi), o_mul(ai, br)))
}

fn model_map(buf: &[u8], f: impl Fn(Elem) -> Elem) -> Vec<u8> {
    let mut out = buf.to_vec();
    for chunk in out.chunks_exact_mut(8) {
        let e = f(from_bytes(chunk));
        chunk.copy_from_slice(&to_bytes(e));
    }
    out
}

fn model_zip(a: &[u8], b: &[u8], f: impl Fn(Elem, Elem) -> Elem) -> Vec<u8> {
    assert_eq!(a.len(), b.len());
    let mut out = a.to_vec();
    for (ca, cb) in out.chunks_exact_mut(8).zip(b.chunks_exact(8)) {
        let e = f(from_bytes(ca), from_bytes(cb));
        ca.copy_from_slice(&to_bytes(e));
    }
    out
}

#[test]
fn qm31_avx2_matches_independent_model() {
    let Some(token) = X64V3Token::summon() else {
        println!("skipping: no AVX2 on this host");
        return;
    };
    for &len in LENS {
        for (src, base, b2) in [
            (
                canonical(len, 0xa1 + len as u64),
                canonical(len, 0xb2 + len as u64),
                canonical(len, 0xc3 + len as u64),
            ),
            (edges(len), edges(len), edges(len)),
        ] {
            let mut got = base.clone();
            add_assign_qm31_avx2(token, &mut got, &src);
            assert_eq!(got, model_zip(&base, &src, model_elem_add), "add_assign len {len}");

            let mut got = base.clone();
            sub_assign_qm31_avx2(token, &mut got, &src);
            assert_eq!(got, model_zip(&base, &src, model_elem_sub), "sub_assign len {len}");

            let mut got = vec![0u8; len];
            mul_elementwise_qm31_avx2(token, &mut got, &src, &b2);
            assert_eq!(got, model_zip(&src, &b2, model_elem_mul), "mul_elementwise len {len}");

            for coeff in coeffs() {
                let mut got = base.clone();
                mul_add_qm31_avx2(token, &mut got, coeff, &src);
                assert_eq!(
                    got,
                    model_zip(&base, &src, |d, s| model_elem_add(d, model_elem_mul(coeff, s))),
                    "mul_add len {len} coeff {coeff:?}"
                );

                let mut got = vec![0u8; len];
                mul_into_qm31_avx2(token, &mut got, coeff, &src);
                assert_eq!(
                    got,
                    model_map(&src, |e| model_elem_mul(coeff, e)),
                    "mul_into len {len} coeff {coeff:?}"
                );

                let mut got = base.clone();
                mul_assign_qm31_avx2(token, &mut got, coeff);
                assert_eq!(
                    got,
                    model_map(&base, |e| model_elem_mul(coeff, e)),
                    "mul_assign len {len} coeff {coeff:?}"
                );
            }
        }
    }
}

#[test]
fn qm31_avx2_matches_portable_reference() {
    let Some(token) = X64V3Token::summon() else {
        println!("skipping: no AVX2 on this host");
        return;
    };
    for &len in &[40usize, 64, 72] {
        let src = edges(len);
        let base = canonical(len, 0xb2 + len as u64);
        let b2 = canonical(len, 0xc3 + len as u64);

        let mut got = base.clone();
        add_assign_qm31_avx2(token, &mut got, &src);
        assert_eq!(got, model_zip(&base, &src, model_elem_add), "add_assign vs reference len {len}");

        let mut got = base.clone();
        sub_assign_qm31_avx2(token, &mut got, &src);
        assert_eq!(got, model_zip(&base, &src, model_elem_sub), "sub_assign vs reference len {len}");

        let mut got = vec![0u8; len];
        mul_elementwise_qm31_avx2(token, &mut got, &src, &b2);
        assert_eq!(
            got,
            model_zip(&src, &b2, model_elem_mul),
            "mul_elementwise vs reference len {len}"
        );

        let mut got = base.clone();
        mul_add_qm31_avx2(token, &mut got, full_work(), &src);
        assert_eq!(
            got,
            model_zip(&base, &src, |d, s| model_elem_add(d, model_elem_mul(full_work(), s))),
            "mul_add vs reference len {len}"
        );

        let mut got = vec![0u8; len];
        mul_into_qm31_avx2(token, &mut got, full_work(), &src);
        assert_eq!(
            got,
            model_map(&src, |e| model_elem_mul(full_work(), e)),
            "mul_into vs reference len {len}"
        );

        let mut got = base.clone();
        mul_assign_qm31_avx2(token, &mut got, full_work());
        assert_eq!(
            got,
            model_map(&base, |e| model_elem_mul(full_work(), e)),
            "mul_assign vs reference len {len}"
        );
    }
}

#[test]
fn qm31_avx2_zero_one_shortcuts_match_control() {
    let Some(token) = X64V3Token::summon() else {
        println!("skipping: no AVX2 on this host");
        return;
    };
    let len = 40;
    let src = canonical(len, 0x71);
    for coeff in [Elem::zero(), Elem::from_raw(mersenne31::MODULUS, 0)] {
        // A zero coefficient: mul_add leaves the destination bytes as they
        // were; mul_assign and mul_into fill it with zero elements.
        let mut got = vec![0xA5u8; len];
        mul_add_qm31_avx2(token, &mut got, coeff, &src);
        assert_eq!(got, vec![0xA5u8; len], "shortcut mul_add {coeff:?}");

        let mut got = vec![0xA5u8; len];
        mul_assign_qm31_avx2(token, &mut got, coeff);
        assert_eq!(got, vec![0u8; len], "shortcut mul_assign {coeff:?}");

        let mut got = vec![0xA5u8; len];
        mul_into_qm31_avx2(token, &mut got, coeff, &src);
        assert_eq!(got, vec![0u8; len], "shortcut mul_into {coeff:?}");
    }
    let mut got = canonical(len, 0x72);
    let want = model_zip(&got, &src, model_elem_add);
    mul_add_qm31_avx2(token, &mut got, Elem::one(), &src);
    assert_eq!(got, want, "shortcut mul_add one");

    let mut got = canonical(len, 0x72);
    let want = got.clone();
    mul_assign_qm31_avx2(token, &mut got, Elem::one());
    assert_eq!(got, want, "shortcut mul_assign one");
}

#[test]
fn qm31_avx2_unaligned_slices() {
    let Some(token) = X64V3Token::summon() else {
        println!("skipping: no AVX2 on this host");
        return;
    };
    let len = 72;
    let src_elems = edges(len);
    let dst_elems = canonical(len, 0x82);
    let coeff = Elem::from_raw(3, 5);
    for offset in [0usize, 1, 3, 5] {
        let mut src_storage = vec![0u8; len + 8];
        src_storage[offset..offset + len].copy_from_slice(&src_elems);
        let src = &src_storage[offset..offset + len];
        let mut got = vec![0u8; len];
        mul_into_qm31_avx2(token, &mut got, coeff, src);
        assert_eq!(got, model_map(src, |e| model_elem_mul(coeff, e)), "unaligned mul_into offset {offset}");

        let mut dst_storage = vec![0u8; len + 8];
        dst_storage[offset..offset + len].copy_from_slice(&dst_elems);
        let dst = &mut dst_storage[offset..offset + len];
        add_assign_qm31_avx2(token, dst, src);
        assert_eq!(
            &dst_storage[offset..offset + len],
            &model_zip(&dst_elems, &src_elems, model_elem_add)[..],
            "unaligned add_assign offset {offset}"
        );
    }
}
