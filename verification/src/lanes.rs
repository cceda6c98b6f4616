//! Fixed-width little-endian lanes of a packed byte buffer.
//!
//! Every field stores its elements as consecutive little-endian words with
//! no alignment or padding; these are the reads and writes of one such word.

use vstd::prelude::*;

verus! {

/// The little-endian `u32` whose bytes start at `off`.
pub open spec fn le32_at(s: Seq<u8>, off: int) -> u32 {
    (s[off] as u32) | ((s[off + 1] as u32) << 8u32) | ((s[off + 2] as u32) << 16u32) | ((
    s[off + 3] as u32) << 24u32)
}

/// The `e`-th `u32` lane of a packed buffer.
pub open spec fn lane32(s: Seq<u8>, e: int) -> u32 {
    le32_at(s, 4 * e)
}

/// The little-endian `u64` whose bytes start at `off`.
pub open spec fn le64_at(s: Seq<u8>, off: int) -> u64 {
    (le32_at(s, off) as u64) | ((le32_at(s, off + 4) as u64) << 32u64)
}

/// The `e`-th `u64` lane of a packed buffer.
pub open spec fn lane64(s: Seq<u8>, e: int) -> u64 {
    le64_at(s, 8 * e)
}

/// Read the little-endian `u32` at byte offset `off`.
pub fn load32(s: &[u8], off: usize) -> (r: u32)
    requires
        off + 4 <= s.len(),
    ensures
        r == le32_at(s@, off as int),
{
    (s[off] as u32) | ((s[off + 1] as u32) << 8u32) | ((s[off + 2] as u32) << 16u32) | ((s[off
        + 3] as u32) << 24u32)
}

/// Write `v` as the little-endian `u32` at byte offset `off`.
pub fn store32(d: &mut [u8], off: usize, v: u32)
    requires
        off + 4 <= old(d).len(),
    ensures
        final(d)@.len() == old(d)@.len(),
        le32_at(final(d)@, off as int) == v,
        forall|j: int|
            0 <= j < old(d)@.len() && !(off <= j < off + 4) ==> #[trigger] final(d)@[j]
                == old(d)@[j],
{
    let b0 = (v & 0xff) as u8;
    let b1 = ((v >> 8u32) & 0xff) as u8;
    let b2 = ((v >> 16u32) & 0xff) as u8;
    let b3 = ((v >> 24u32) & 0xff) as u8;
    d[off] = b0;
    d[off + 1] = b1;
    d[off + 2] = b2;
    d[off + 3] = b3;
    assert((b0 as u32) | ((b1 as u32) << 8u32) | ((b2 as u32) << 16u32) | ((b3 as u32) << 24u32)
        == v) by (bit_vector)
        requires
            b0 == (v & 0xff) as u8,
            b1 == ((v >> 8u32) & 0xff) as u8,
            b2 == ((v >> 16u32) & 0xff) as u8,
            b3 == ((v >> 24u32) & 0xff) as u8,
    ;
}

/// Read the little-endian `u64` at byte offset `off`.
pub fn load64(s: &[u8], off: usize) -> (r: u64)
    requires
        off + 8 <= s.len(),
    ensures
        r == le64_at(s@, off as int),
{
    let lo = load32(s, off);
    let hi = load32(s, off + 4);
    (lo as u64) | ((hi as u64) << 32u64)
}

/// Write `v` as the little-endian `u64` at byte offset `off`.
pub fn store64(d: &mut [u8], off: usize, v: u64)
    requires
        off + 8 <= old(d).len(),
    ensures
        final(d)@.len() == old(d)@.len(),
        le64_at(final(d)@, off as int) == v,
        forall|j: int|
            0 <= j < old(d)@.len() && !(off <= j < off + 8) ==> #[trigger] final(d)@[j]
                == old(d)@[j],
{
    let lo = (v & 0xffff_ffff) as u32;
    let hi = (v >> 32u64) as u32;
    store32(d, off, lo);
    store32(d, off + 4, hi);
    assert((lo as u64) | ((hi as u64) << 32u64) == v) by (bit_vector)
        requires
            lo == (v & 0xffff_ffff) as u32,
            hi == (v >> 32u64) as u32,
    ;
}

} // verus!

verus! {

/// Replace every `u32` lane of `dst` by `f(dst lane, src lane)`.
pub fn zip_lanes32<F: Fn(u32, u32) -> u32>(dst: &mut [u8], src: &[u8], f: F)
    requires
        old(dst)@.len() == src@.len(),
        old(dst)@.len() % 4 == 0,
        forall|a: u32, b: u32| f.requires((a, b)),
    ensures
        final(dst)@.len() == old(dst)@.len(),
        forall|e: int|
            0 <= e < old(dst)@.len() / 4 ==> f.ensures(
                (lane32(old(dst)@, e), lane32(src@, e)),
                #[trigger] lane32(final(dst)@, e),
            ),
{
    let len = dst.len();
    let n = len / 4;
    let mut e: usize = 0;
    while e < n
        invariant
            n == old(dst)@.len() / 4,
            len == old(dst)@.len(),
            e <= n,
            dst@.len() == old(dst)@.len(),
            src@.len() == old(dst)@.len(),
            old(dst)@.len() % 4 == 0,
            forall|a: u32, b: u32| f.requires((a, b)),
            forall|k: int|
                0 <= k < e ==> f.ensures(
                    (lane32(old(dst)@, k), lane32(src@, k)),
                    #[trigger] lane32(dst@, k),
                ),
            forall|j: int| 4 * e <= j < dst@.len() ==> #[trigger] dst@[j] == old(dst)@[j],
        decreases n - e,
    {
        let off = e * 4;
        let d = load32(dst, off);
        let s = load32(src, off);
        assert(d == lane32(old(dst)@, e as int)) by {
            assert(dst@[off as int] == old(dst)@[off as int]);
            assert(dst@[off + 1] == old(dst)@[off + 1]);
            assert(dst@[off + 2] == old(dst)@[off + 2]);
            assert(dst@[off + 3] == old(dst)@[off + 3]);
        }
        let r = f(d, s);
        let ghost prev = dst@;
        store32(dst, off, r);
        assert forall|k: int| 0 <= k < e + 1 implies f.ensures(
            (lane32(old(dst)@, k), lane32(src@, k)),
            #[trigger] lane32(dst@, k),
        ) by {
            if k < e {
                assert(dst@[4 * k] == prev[4 * k]);
                assert(dst@[4 * k + 1] == prev[4 * k + 1]);
                assert(dst@[4 * k + 2] == prev[4 * k + 2]);
                assert(dst@[4 * k + 3] == prev[4 * k + 3]);
                assert(lane32(dst@, k) == lane32(prev, k));
            }
        }
        e += 1;
    }
}

/// Replace every `u32` lane of `dst` by `f(dst lane)`.
pub fn map_lanes32<F: Fn(u32) -> u32>(dst: &mut [u8], f: F)
    requires
        old(dst)@.len() % 4 == 0,
        forall|a: u32| f.requires((a,)),
    ensures
        final(dst)@.len() == old(dst)@.len(),
        forall|e: int|
            0 <= e < old(dst)@.len() / 4 ==> f.ensures(
                (lane32(old(dst)@, e),),
                #[trigger] lane32(final(dst)@, e),
            ),
{
    let len = dst.len();
    let n = len / 4;
    let mut e: usize = 0;
    while e < n
        invariant
            n == old(dst)@.len() / 4,
            len == old(dst)@.len(),
            e <= n,
            dst@.len() == old(dst)@.len(),
            old(dst)@.len() % 4 == 0,
            forall|a: u32| f.requires((a,)),
            forall|k: int|
                0 <= k < e ==> f.ensures(
                    (lane32(old(dst)@, k),),
                    #[trigger] lane32(dst@, k),
                ),
            forall|j: int| 4 * e <= j < dst@.len() ==> #[trigger] dst@[j] == old(dst)@[j],
        decreases n - e,
    {
        let off = e * 4;
        let d = load32(dst, off);
        assert(d == lane32(old(dst)@, e as int)) by {
            assert(dst@[off as int] == old(dst)@[off as int]);
            assert(dst@[off + 1] == old(dst)@[off + 1]);
            assert(dst@[off + 2] == old(dst)@[off + 2]);
            assert(dst@[off + 3] == old(dst)@[off + 3]);
        }
        let r = f(d);
        let ghost prev = dst@;
        store32(dst, off, r);
        assert forall|k: int| 0 <= k < e + 1 implies f.ensures(
            (lane32(old(dst)@, k),),
            #[trigger] lane32(dst@, k),
        ) by {
            if k < e {
                assert(dst@[4 * k] == prev[4 * k]);
                assert(dst@[4 * k + 1] == prev[4 * k + 1]);
                assert(dst@[4 * k + 2] == prev[4 * k + 2]);
                assert(dst@[4 * k + 3] == prev[4 * k + 3]);
                assert(lane32(dst@, k) == lane32(prev, k));
            }
        }
        e += 1;
    }
}

/// Overwrite every `u32` lane of `dst` by `f(a lane, b lane)`.
pub fn zip3_lanes32<F: Fn(u32, u32) -> u32>(dst: &mut [u8], a: &[u8], b: &[u8], f: F)
    requires
        old(dst)@.len() == a@.len(),
        old(dst)@.len() == b@.len(),
        old(dst)@.len() % 4 == 0,
        forall|x: u32, y: u32| f.requires((x, y)),
    ensures
        final(dst)@.len() == old(dst)@.len(),
        forall|e: int|
            0 <= e < old(dst)@.len() / 4 ==> f.ensures(
                (lane32(a@, e), lane32(b@, e)),
                #[trigger] lane32(final(dst)@, e),
            ),
{
    let len = dst.len();
    let n = len / 4;
    let mut e: usize = 0;
    while e < n
        invariant
            n == old(dst)@.len() / 4,
            len == old(dst)@.len(),
            e <= n,
            dst@.len() == old(dst)@.len(),
            a@.len() == old(dst)@.len(),
            b@.len() == old(dst)@.len(),
            old(dst)@.len() % 4 == 0,
            forall|x: u32, y: u32| f.requires((x, y)),
            forall|k: int|
                0 <= k < e ==> f.ensures(
                    (lane32(a@, k), lane32(b@, k)),
                    #[trigger] lane32(dst@, k),
                ),
            forall|j: int| 4 * e <= j < dst@.len() ==> #[trigger] dst@[j] == old(dst)@[j],
        decreases n - e,
    {
        let off = e * 4;
        let x = load32(a, off);
        let y = load32(b, off);
        let r = f(x, y);
        let ghost prev = dst@;
        store32(dst, off, r);
        assert forall|k: int| 0 <= k < e + 1 implies f.ensures(
            (lane32(a@, k), lane32(b@, k)),
            #[trigger] lane32(dst@, k),
        ) by {
            if k < e {
                assert(dst@[4 * k] == prev[4 * k]);
                assert(dst@[4 * k + 1] == prev[4 * k + 1]);
                assert(dst@[4 * k + 2] == prev[4 * k + 2]);
                assert(dst@[4 * k + 3] == prev[4 * k + 3]);
                assert(lane32(dst@, k) == lane32(prev, k));
            }
        }
        e += 1;
    }
}

/// Replace every `u64` lane of `dst` by `f(dst lane, src lane)`.
pub fn zip_lanes64<F: Fn(u64, u64) -> u64>(dst: &mut [u8], src: &[u8], f: F)
    requires
        old(dst)@.len() == src@.len(),
        old(dst)@.len() % 8 == 0,
        forall|a: u64, b: u64| f.requires((a, b)),
    ensures
        final(dst)@.len() == old(dst)@.len(),
        forall|e: int|
            0 <= e < old(dst)@.len() / 8 ==> f.ensures(
                (lane64(old(dst)@, e), lane64(src@, e)),
                #[trigger] lane64(final(dst)@, e),
            ),
{
    let len = dst.len();
    let n = len / 8;
    let mut e: usize = 0;
    while e < n
        invariant
            n == old(dst)@.len() / 8,
            len == old(dst)@.len(),
            e <= n,
            dst@.len() == old(dst)@.len(),
            src@.len() == old(dst)@.len(),
            old(dst)@.len() % 8 == 0,
            forall|a: u64, b: u64| f.requires((a, b)),
            forall|k: int|
                0 <= k < e ==> f.ensures(
                    (lane64(old(dst)@, k), lane64(src@, k)),
                    #[trigger] lane64(dst@, k),
                ),
            forall|j: int| 8 * e <= j < dst@.len() ==> #[trigger] dst@[j] == old(dst)@[j],
        decreases n - e,
    {
        let off = e * 8;
        let d = load64(dst, off);
        let s = load64(src, off);
        assert(d == lane64(old(dst)@, e as int)) by {
            assert(dst@[off as int] == old(dst)@[off as int]);
            assert(dst@[off + 1] == old(dst)@[off + 1]);
            assert(dst@[off + 2] == old(dst)@[off + 2]);
            assert(dst@[off + 3] == old(dst)@[off + 3]);
            assert(dst@[off + 4] == old(dst)@[off + 4]);
            assert(dst@[off + 5] == old(dst)@[off + 5]);
            assert(dst@[off + 6] == old(dst)@[off + 6]);
            assert(dst@[off + 7] == old(dst)@[off + 7]);
        }
        let r = f(d, s);
        let ghost prev = dst@;
        store64(dst, off, r);
        assert forall|k: int| 0 <= k < e + 1 implies f.ensures(
            (lane64(old(dst)@, k), lane64(src@, k)),
            #[trigger] lane64(dst@, k),
        ) by {
            if k < e {
                assert(dst@[8 * k] == prev[8 * k]);
                assert(dst@[8 * k + 1] == prev[8 * k + 1]);
                assert(dst@[8 * k + 2] == prev[8 * k + 2]);
                assert(dst@[8 * k + 3] == prev[8 * k + 3]);
                assert(dst@[8 * k + 4] == prev[8 * k + 4]);
                assert(dst@[8 * k + 5] == prev[8 * k + 5]);
                assert(dst@[8 * k + 6] == prev[8 * k + 6]);
                assert(dst@[8 * k + 7] == prev[8 * k + 7]);
                assert(lane64(dst@, k) == lane64(prev, k));
            }
        }
        e += 1;
    }
}

/// Replace every `u64` lane of `dst` by `f(dst lane)`.
pub fn map_lanes64<F: Fn(u64) -> u64>(dst: &mut [u8], f: F)
    requires
        old(dst)@.len() % 8 == 0,
        forall|a: u64| f.requires((a,)),
    ensures
        final(dst)@.len() == old(dst)@.len(),
        forall|e: int|
            0 <= e < old(dst)@.len() / 8 ==> f.ensures(
                (lane64(old(dst)@, e),),
                #[trigger] lane64(final(dst)@, e),
            ),
{
    let len = dst.len();
    let n = len / 8;
    let mut e: usize = 0;
    while e < n
        invariant
            n == old(dst)@.len() / 8,
            len == old(dst)@.len(),
            e <= n,
            dst@.len() == old(dst)@.len(),
            old(dst)@.len() % 8 == 0,
            forall|a: u64| f.requires((a,)),
            forall|k: int|
                0 <= k < e ==> f.ensures(
                    (lane64(old(dst)@, k),),
                    #[trigger] lane64(dst@, k),
                ),
            forall|j: int| 8 * e <= j < dst@.len() ==> #[trigger] dst@[j] == old(dst)@[j],
        decreases n - e,
    {
        let off = e * 8;
        let d = load64(dst, off);
        assert(d == lane64(old(dst)@, e as int)) by {
            assert(dst@[off as int] == old(dst)@[off as int]);
            assert(dst@[off + 1] == old(dst)@[off + 1]);
            assert(dst@[off + 2] == old(dst)@[off + 2]);
            assert(dst@[off + 3] == old(dst)@[off + 3]);
            assert(dst@[off + 4] == old(dst)@[off + 4]);
            assert(dst@[off + 5] == old(dst)@[off + 5]);
            assert(dst@[off + 6] == old(dst)@[off + 6]);
            assert(dst@[off + 7] == old(dst)@[off + 7]);
        }
        let r = f(d);
        let ghost prev = dst@;
        store64(dst, off, r);
        assert forall|k: int| 0 <= k < e + 1 implies f.ensures(
            (lane64(old(dst)@, k),),
            #[trigger] lane64(dst@, k),
        ) by {
            if k < e {
                assert(dst@[8 * k] == prev[8 * k]);
                assert(dst@[8 * k + 1] == prev[8 * k + 1]);
                assert(dst@[8 * k + 2] == prev[8 * k + 2]);
                assert(dst@[8 * k + 3] == prev[8 * k + 3]);
                assert(dst@[8 * k + 4] == prev[8 * k + 4]);
                assert(dst@[8 * k + 5] == prev[8 * k + 5]);
                assert(dst@[8 * k + 6] == prev[8 * k + 6]);
                assert(dst@[8 * k + 7] == prev[8 * k + 7]);
                assert(lane64(dst@, k) == lane64(prev, k));
            }
        }
        e += 1;
    }
}

/// Overwrite every `u64` lane of `dst` by `f(a lane, b lane)`.
pub fn zip3_lanes64<F: Fn(u64, u64) -> u64>(dst: &mut [u8], a: &[u8], b: &[u8], f: F)
    requires
        old(dst)@.len() == a@.len(),
        old(dst)@.len() == b@.len(),
        old(dst)@.len() % 8 == 0,
        forall|x: u64, y: u64| f.requires((x, y)),
    ensures
        final(dst)@.len() == old(dst)@.len(),
        forall|e: int|
            0 <= e < old(dst)@.len() / 8 ==> f.ensures(
                (lane64(a@, e), lane64(b@, e)),
                #[trigger] lane64(final(dst)@, e),
            ),
{
    let len = dst.len();
    let n = len / 8;
    let mut e: usize = 0;
    while e < n
        invariant
            n == old(dst)@.len() / 8,
            len == old(dst)@.len(),
            e <= n,
            dst@.len() == old(dst)@.len(),
            a@.len() == old(dst)@.len(),
            b@.len() == old(dst)@.len(),
            old(dst)@.len() % 8 == 0,
            forall|x: u64, y: u64| f.requires((x, y)),
            forall|k: int|
                0 <= k < e ==> f.ensures(
                    (lane64(a@, k), lane64(b@, k)),
                    #[trigger] lane64(dst@, k),
                ),
            forall|j: int| 8 * e <= j < dst@.len() ==> #[trigger] dst@[j] == old(dst)@[j],
        decreases n - e,
    {
        let off = e * 8;
        let x = load64(a, off);
        let y = load64(b, off);
        let r = f(x, y);
        let ghost prev = dst@;
        store64(dst, off, r);
        assert forall|k: int| 0 <= k < e + 1 implies f.ensures(
            (lane64(a@, k), lane64(b@, k)),
            #[trigger] lane64(dst@, k),
        ) by {
            if k < e {
                assert(dst@[8 * k] == prev[8 * k]);
                assert(dst@[8 * k + 1] == prev[8 * k + 1]);
                assert(dst@[8 * k + 2] == prev[8 * k + 2]);
                assert(dst@[8 * k + 3] == prev[8 * k + 3]);
                assert(dst@[8 * k + 4] == prev[8 * k + 4]);
                assert(dst@[8 * k + 5] == prev[8 * k + 5]);
                assert(dst@[8 * k + 6] == prev[8 * k + 6]);
                assert(dst@[8 * k + 7] == prev[8 * k + 7]);
                assert(lane64(dst@, k) == lane64(prev, k));
            }
        }
        e += 1;
    }
}

} // verus!

verus! {

/// Replace every byte of `dst` by `f(dst byte, src byte)`.
pub fn zip_bytes<F: Fn(u8, u8) -> u8>(dst: &mut [u8], src: &[u8], f: F)
    requires
        old(dst)@.len() == src@.len(),
        forall|a: u8, b: u8| f.requires((a, b)),
    ensures
        final(dst)@.len() == old(dst)@.len(),
        forall|i: int|
            0 <= i < old(dst)@.len() ==> f.ensures((old(dst)@[i], src@[i]), #[trigger] final(dst)@[i]),
{
    let n = dst.len();
    let mut i: usize = 0;
    while i < n
        invariant
            n == old(dst)@.len(),
            i <= n,
            dst@.len() == n,
            src@.len() == n,
            forall|a: u8, b: u8| f.requires((a, b)),
            forall|k: int| 0 <= k < i ==> f.ensures((old(dst)@[k], src@[k]), #[trigger] dst@[k]),
            forall|k: int| i <= k < n ==> #[trigger] dst@[k] == old(dst)@[k],
        decreases n - i,
    {
        let r = f(dst[i], src[i]);
        dst[i] = r;
        i += 1;
    }
}

/// Replace every byte of `dst` by `f(dst byte)`.
pub fn map_bytes<F: Fn(u8) -> u8>(dst: &mut [u8], f: F)
    requires
        forall|a: u8| f.requires((a,)),
    ensures
        final(dst)@.len() == old(dst)@.len(),
        forall|i: int| 0 <= i < old(dst)@.len() ==> f.ensures((old(dst)@[i],), #[trigger] final(dst)@[i]),
{
    let n = dst.len();
    let mut i: usize = 0;
    while i < n
        invariant
            n == old(dst)@.len(),
            i <= n,
            dst@.len() == n,
            forall|a: u8| f.requires((a,)),
            forall|k: int| 0 <= k < i ==> f.ensures((old(dst)@[k],), #[trigger] dst@[k]),
            forall|k: int| i <= k < n ==> #[trigger] dst@[k] == old(dst)@[k],
        decreases n - i,
    {
        let r = f(dst[i]);
        dst[i] = r;
        i += 1;
    }
}

/// Overwrite every byte of `dst` by `f(a byte, b byte)`.
pub fn zip3_bytes<F: Fn(u8, u8) -> u8>(dst: &mut [u8], a: &[u8], b: &[u8], f: F)
    requires
        old(dst)@.len() == a@.len(),
        old(dst)@.len() == b@.len(),
        forall|x: u8, y: u8| f.requires((x, y)),
    ensures
        final(dst)@.len() == old(dst)@.len(),
        forall|i: int| 0 <= i < old(dst)@.len() ==> f.ensures((a@[i], b@[i]), #[trigger] final(dst)@[i]),
{
    let n = dst.len();
    let mut i: usize = 0;
    while i < n
        invariant
            n == old(dst)@.len(),
            i <= n,
            dst@.len() == n,
            a@.len() == n,
            b@.len() == n,
            forall|x: u8, y: u8| f.requires((x, y)),
            forall|k: int| 0 <= k < i ==> f.ensures((a@[k], b@[k]), #[trigger] dst@[k]),
        decreases n - i,
    {
        let r = f(a[i], b[i]);
        dst[i] = r;
        i += 1;
    }
}

/// Replace the bytes `dst[base .. base + src.len()]` by
/// `f(dst byte, src byte)`; every other byte is left as it was.
pub fn zip_bytes_at<F: Fn(u8, u8) -> u8>(dst: &mut [u8], base: usize, src: &[u8], f: F)
    requires
        base + src@.len() <= old(dst)@.len(),
        forall|a: u8, b: u8| f.requires((a, b)),
    ensures
        final(dst)@.len() == old(dst)@.len(),
        forall|k: int|
            0 <= k < src@.len() ==> f.ensures(
                (old(dst)@[base + k], src@[k]),
                #[trigger] final(dst)@[base + k],
            ),
        forall|j: int|
            0 <= j < old(dst)@.len() && !(base <= j < base + src@.len())
                ==> #[trigger] final(dst)@[j] == old(dst)@[j],
{
    let n = src.len();
    let len = dst.len();
    let mut k: usize = 0;
    while k < n
        invariant
            n == src@.len(),
            len == old(dst)@.len(),
            k <= n,
            base + n <= old(dst)@.len(),
            dst@.len() == old(dst)@.len(),
            forall|a: u8, b: u8| f.requires((a, b)),
            forall|t: int|
                0 <= t < k ==> f.ensures((old(dst)@[base + t], src@[t]), #[trigger] dst@[base + t]),
            forall|j: int|
                0 <= j < dst@.len() && !(base <= j < base + k) ==> #[trigger] dst@[j]
                    == old(dst)@[j],
        decreases n - k,
    {
        let r = f(dst[base + k], src[k]);
        dst[base + k] = r;
        k += 1;
    }
}

/// Replace `dst[dbase + k]` by `f(dst[dbase + k], src[sbase + k])` for every
/// `k < width`, leaving every other byte of `dst` as it was.
pub fn zip_bytes_span<F: Fn(u8, u8) -> u8>(
    dst: &mut [u8],
    dbase: usize,
    src: &[u8],
    sbase: usize,
    width: usize,
    f: F,
)
    requires
        dbase + width <= old(dst)@.len(),
        sbase + width <= src@.len(),
        forall|a: u8, b: u8| f.requires((a, b)),
    ensures
        final(dst)@.len() == old(dst)@.len(),
        forall|k: int|
            0 <= k < width ==> f.ensures(
                (old(dst)@[dbase + k], src@[sbase + k]),
                #[trigger] final(dst)@[dbase + k],
            ),
        forall|j: int|
            0 <= j < old(dst)@.len() && !(dbase <= j < dbase + width)
                ==> #[trigger] final(dst)@[j] == old(dst)@[j],
{
    let len = dst.len();
    let slen = src.len();
    let mut k: usize = 0;
    while k < width
        invariant
            len == old(dst)@.len(),
            slen == src@.len(),
            k <= width,
            dbase + width <= old(dst)@.len(),
            sbase + width <= src@.len(),
            dst@.len() == old(dst)@.len(),
            forall|a: u8, b: u8| f.requires((a, b)),
            forall|t: int|
                0 <= t < k ==> f.ensures(
                    (old(dst)@[dbase + t], src@[sbase + t]),
                    #[trigger] dst@[dbase + t],
                ),
            forall|j: int|
                0 <= j < dst@.len() && !(dbase <= j < dbase + k) ==> #[trigger] dst@[j]
                    == old(dst)@[j],
        decreases width - k,
    {
        let r = f(dst[dbase + k], src[sbase + k]);
        dst[dbase + k] = r;
        k += 1;
    }
}

} // verus!
