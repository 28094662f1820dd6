//! Reversing the byte order of each item of a slice of integers.
use vstd::prelude::*;

use crate::bits::{
    lemma_u16_bits, lemma_u32_bits, lemma_u64_pack, lemma_u64_swap, swap16, swap32, swap64, u64_of_bytes,
};
use crate::isa::SIMD256;
use crate::scalar::Scalar;
use crate::vector::{
    lane16, lane32, lane64, lemma_u16_bytes, lemma_u32_bytes, lemma_u64_bytes, v256_byte, v256_from_bytes, V256,
};

verus! {

/// Integers whose byte order can be reversed, one at a time or a vector of
/// them at a time.
pub trait BSwapExt: Scalar {
    /// `x` with its bytes in reverse order.
    spec fn spec_swap(x: Self) -> Self;

    /// How many items a 256-bit vector holds.
    spec fn spec_lanes() -> nat;

    /// The item held in lane `k` of the 32 bytes `v`, least significant byte
    /// first.
    spec fn spec_lane(v: Seq<u8>, k: int) -> Self;

    /// Reversing the bytes twice gives the item back.
    proof fn lemma_swap_twice(x: Self)
        ensures
            Self::spec_swap(Self::spec_swap(x)) == x,
    ;

    /// How many items a 256-bit vector holds.
    fn lanes() -> (r: usize)
        ensures
            r == Self::spec_lanes(),
            1 <= r <= 32,
    ;

    /// `x` with its bytes in reverse order.
    fn swap_single(x: Self) -> (r: Self)
        ensures
            r == Self::spec_swap(x),
    ;

    /// Every lane of `a` with its bytes in reverse order.
    fn swap_simd<S: SIMD256>(s: S, a: V256) -> (r: V256)
        ensures
            forall|k: int| 0 <= k < Self::spec_lanes() ==> #[trigger] Self::spec_lane(r@, k) == Self::spec_swap(
                Self::spec_lane(a@, k),
            ),
    ;

    /// A vector holding `src[pos..]`, one item per lane.
    fn load(src: &[Self], pos: usize) -> (r: V256)
        requires
            pos + Self::spec_lanes() <= src@.len(),
        ensures
            forall|k: int| 0 <= k < Self::spec_lanes() ==> #[trigger] Self::spec_lane(r@, k) == src@[pos + k],
    ;

    /// Writes the lanes of `a` into `dst[pos..]`.
    fn store(dst: &mut [Self], pos: usize, a: V256)
        requires
            pos + Self::spec_lanes() <= old(dst)@.len(),
        ensures
            final(dst)@.len() == old(dst)@.len(),
            forall|k: int| 0 <= k < Self::spec_lanes() ==> #[trigger] final(dst)@[pos + k] == Self::spec_lane(a@, k),
            forall|i: int|
                0 <= i < old(dst)@.len() && !(pos <= i < pos + Self::spec_lanes()) ==> #[trigger] final(dst)@[i]
                    == old(dst)@[i],
    ;
}

impl BSwapExt for u16 {
    open spec fn spec_swap(x: u16) -> u16 {
        swap16(x)
    }

    open spec fn spec_lanes() -> nat {
        16
    }

    open spec fn spec_lane(v: Seq<u8>, k: int) -> u16 {
        lane16(v, k) as u16
    }

    proof fn lemma_swap_twice(x: u16) {
        lemma_u16_bits(x, 0, 0);
    }

    fn lanes() -> (r: usize) {
        16
    }

    fn swap_single(x: u16) -> (r: u16) {
        ((x & 0xff) << 8u16) | (x >> 8u16)
    }

    fn swap_simd<S: SIMD256>(s: S, a: V256) -> (r: V256) {
        let r = s.u16x16_bswap(a);
        assert forall|k: int| 0 <= k < 16 implies #[trigger] Self::spec_lane(r@, k) == Self::spec_swap(
            Self::spec_lane(a@, k),
        ) by {
            assert(r@[2 * k] == a@[2 * k + 1]);
            assert(r@[2 * k + 1] == a@[2 * k]);
            lemma_u16_bits(0, a@[2 * k], a@[2 * k + 1]);
        }
        r
    }

    fn load(src: &[u16], pos: usize) -> (r: V256) {
        let mut b = [0u8; 32];
        let mut k: usize = 0;
        while k < 16
            invariant
                k <= 16,
                pos + 16 <= src@.len(),
                forall|j: int| 0 <= j < k ==> #[trigger] lane16(b@, j) == src@[pos + j],
            decreases 16 - k,
        {
            let x = src[pos + k];
            proof {
                lemma_u16_bytes(x);
            }
            let ghost b0 = b@;
            b[2 * k] = #[verifier::truncate] ((x & 0xff) as u8);
            b[2 * k + 1] = #[verifier::truncate] ((x >> 8u16) as u8);
            assert forall|j: int| 0 <= j < k implies #[trigger] lane16(b@, j) == lane16(b0, j) by {
                assert(b@[2 * j] == b0[2 * j] && b@[2 * j + 1] == b0[2 * j + 1]);
            }
            k += 1;
        }
        v256_from_bytes(b)
    }

    fn store(dst: &mut [u16], pos: usize, a: V256) {
        let ghost d0 = dst@;
        let mut k: usize = 0;
        while k < 16
            invariant
                k <= 16,
                pos + 16 <= d0.len(),
                dst@.len() == d0.len(),
                dst.len() == d0.len(),
                forall|j: int| 0 <= j < k ==> #[trigger] dst@[pos + j] == lane16(a@, j) as u16,
                forall|i: int| 0 <= i < d0.len() && !(pos <= i < pos + k) ==> #[trigger] dst@[i] == d0[i],
            decreases 16 - k,
        {
            let b0 = v256_byte(&a, 2 * k);
            let b1 = v256_byte(&a, 2 * k + 1);
            let x = (b0 as u16) | ((b1 as u16) << 8u16);
            proof {
                lemma_u16_bits(0, b0, b1);
            }
            dst[pos + k] = x;
            k += 1;
        }
    }
}

impl BSwapExt for u32 {
    open spec fn spec_swap(x: u32) -> u32 {
        swap32(x)
    }

    open spec fn spec_lanes() -> nat {
        8
    }

    open spec fn spec_lane(v: Seq<u8>, k: int) -> u32 {
        lane32(v, k) as u32
    }

    proof fn lemma_swap_twice(x: u32) {
        lemma_u32_bits(x, 0, 0, 0, 0);
    }

    fn lanes() -> (r: usize) {
        8
    }

    fn swap_single(x: u32) -> (r: u32) {
        ((x & 0xff) << 24u32) | (((x >> 8u32) & 0xff) << 16u32) | (((x >> 16u32) & 0xff) << 8u32) | (x >> 24u32)
    }

    fn swap_simd<S: SIMD256>(s: S, a: V256) -> (r: V256) {
        let r = s.u32x8_bswap(a);
        assert forall|k: int| 0 <= k < 8 implies #[trigger] Self::spec_lane(r@, k) == Self::spec_swap(
            Self::spec_lane(a@, k),
        ) by {
            assert(r@[4 * k] == a@[4 * k + 3]);
            assert(r@[4 * k + 1] == a@[4 * k + 2]);
            assert(r@[4 * k + 2] == a@[4 * k + 1]);
            assert(r@[4 * k + 3] == a@[4 * k]);
            lemma_u32_bits(0, a@[4 * k], a@[4 * k + 1], a@[4 * k + 2], a@[4 * k + 3]);
        }
        r
    }

    fn load(src: &[u32], pos: usize) -> (r: V256) {
        let mut b = [0u8; 32];
        let mut k: usize = 0;
        while k < 8
            invariant
                k <= 8,
                pos + 8 <= src.len(),
                forall|j: int| 0 <= j < k ==> #[trigger] lane32(b@, j) == src@[pos + j],
            decreases 8 - k,
        {
            let x = src[pos + k];
            proof {
                lemma_u32_bytes(x);
            }
            let ghost b0 = b@;
            b[4 * k] = #[verifier::truncate] ((x & 0xff) as u8);
            b[4 * k + 1] = #[verifier::truncate] (((x >> 8u32) & 0xff) as u8);
            b[4 * k + 2] = #[verifier::truncate] (((x >> 16u32) & 0xff) as u8);
            b[4 * k + 3] = #[verifier::truncate] ((x >> 24u32) as u8);
            assert forall|j: int| 0 <= j < k implies #[trigger] lane32(b@, j) == lane32(b0, j) by {
                assert(b@[4 * j] == b0[4 * j] && b@[4 * j + 1] == b0[4 * j + 1] && b@[4 * j + 2] == b0[4 * j + 2]
                    && b@[4 * j + 3] == b0[4 * j + 3]);
            }
            k += 1;
        }
        v256_from_bytes(b)
    }

    fn store(dst: &mut [u32], pos: usize, a: V256) {
        let ghost d0 = dst@;
        let mut k: usize = 0;
        while k < 8
            invariant
                k <= 8,
                pos + 8 <= d0.len(),
                dst@.len() == d0.len(),
                dst.len() == d0.len(),
                forall|j: int| 0 <= j < k ==> #[trigger] dst@[pos + j] == lane32(a@, j) as u32,
                forall|i: int| 0 <= i < d0.len() && !(pos <= i < pos + k) ==> #[trigger] dst@[i] == d0[i],
            decreases 8 - k,
        {
            let b0 = v256_byte(&a, 4 * k);
            let b1 = v256_byte(&a, 4 * k + 1);
            let b2 = v256_byte(&a, 4 * k + 2);
            let b3 = v256_byte(&a, 4 * k + 3);
            let x = (b0 as u32) | ((b1 as u32) << 8u32) | ((b2 as u32) << 16u32) | ((b3 as u32) << 24u32);
            proof {
                lemma_u32_bits(0, b0, b1, b2, b3);
            }
            dst[pos + k] = x;
            k += 1;
        }
    }
}

/// A 64-bit lane is the number its eight bytes spell, least significant first.
proof fn lemma_lane64_bytes(v: Seq<u8>, k: int)
    requires
        0 <= k,
        8 * k + 8 <= v.len(),
    ensures
        lane64(v, k) == u64_of_bytes(
            v[8 * k],
            v[8 * k + 1],
            v[8 * k + 2],
            v[8 * k + 3],
            v[8 * k + 4],
            v[8 * k + 5],
            v[8 * k + 6],
            v[8 * k + 7],
        ),
{
}

impl BSwapExt for u64 {
    open spec fn spec_swap(x: u64) -> u64 {
        swap64(x)
    }

    open spec fn spec_lanes() -> nat {
        4
    }

    open spec fn spec_lane(v: Seq<u8>, k: int) -> u64 {
        lane64(v, k) as u64
    }

    proof fn lemma_swap_twice(x: u64) {
        lemma_u64_swap(x, 0, 0, 0, 0, 0, 0, 0, 0);
    }

    fn lanes() -> (r: usize) {
        4
    }

    fn swap_single(x: u64) -> (r: u64) {
        ((x & 0xff) << 56u64) | (((x >> 8u64) & 0xff) << 48u64) | (((x >> 16u64) & 0xff) << 40u64) | (((x >> 24u64)
            & 0xff) << 32u64) | (((x >> 32u64) & 0xff) << 24u64) | (((x >> 40u64) & 0xff) << 16u64) | (((x
            >> 48u64) & 0xff) << 8u64) | (x >> 56u64)
    }

    #[verifier::spinoff_prover]
    #[verifier::rlimit(60)]
    fn swap_simd<S: SIMD256>(s: S, a: V256) -> (r: V256) {
        let r = s.u64x4_bswap(a);
        assert forall|k: int| 0 <= k < 4 implies #[trigger] Self::spec_lane(r@, k) == Self::spec_swap(
            Self::spec_lane(a@, k),
        ) by {
            assert forall|j: int| 0 <= j < 8 implies #[trigger] r@[8 * k + j] == a@[8 * k + 7 - j] by {
                assert(r@[8 * k + j] == a@[(8 * k + j) + 8 - 1 - 2 * ((8 * k + j) % 8)]);
            }
            lemma_lane64_bytes(r@, k);
            lemma_lane64_bytes(a@, k);
            assert(r@[8 * k] == a@[8 * k + 7]);
            assert(r@[8 * k + 1] == a@[8 * k + 6]);
            assert(r@[8 * k + 2] == a@[8 * k + 5]);
            assert(r@[8 * k + 3] == a@[8 * k + 4]);
            assert(r@[8 * k + 4] == a@[8 * k + 3]);
            assert(r@[8 * k + 5] == a@[8 * k + 2]);
            assert(r@[8 * k + 6] == a@[8 * k + 1]);
            assert(r@[8 * k + 7] == a@[8 * k]);
            lemma_u64_swap(
                0,
                a@[8 * k],
                a@[8 * k + 1],
                a@[8 * k + 2],
                a@[8 * k + 3],
                a@[8 * k + 4],
                a@[8 * k + 5],
                a@[8 * k + 6],
                a@[8 * k + 7],
            );
        }
        r
    }

    #[verifier::spinoff_prover]
    #[verifier::rlimit(60)]
    fn load(src: &[u64], pos: usize) -> (r: V256) {
        let mut b = [0u8; 32];
        let mut k: usize = 0;
        while k < 4
            invariant
                k <= 4,
                pos + 4 <= src.len(),
                forall|j: int| 0 <= j < k ==> #[trigger] lane64(b@, j) == src@[pos + j],
            decreases 4 - k,
        {
            let x = src[pos + k];
            proof {
                lemma_u64_bytes(x);
            }
            let ghost b0 = b@;
            b[8 * k] = #[verifier::truncate] ((x & 0xff) as u8);
            b[8 * k + 1] = #[verifier::truncate] (((x >> 8u64) & 0xff) as u8);
            b[8 * k + 2] = #[verifier::truncate] (((x >> 16u64) & 0xff) as u8);
            b[8 * k + 3] = #[verifier::truncate] (((x >> 24u64) & 0xff) as u8);
            b[8 * k + 4] = #[verifier::truncate] (((x >> 32u64) & 0xff) as u8);
            b[8 * k + 5] = #[verifier::truncate] (((x >> 40u64) & 0xff) as u8);
            b[8 * k + 6] = #[verifier::truncate] (((x >> 48u64) & 0xff) as u8);
            b[8 * k + 7] = #[verifier::truncate] ((x >> 56u64) as u8);
            proof {
                assert forall|j: int| 0 <= j < k implies #[trigger] lane64(b@, j) == lane64(b0, j) by {
                    lemma_lane64_bytes(b@, j);
                    lemma_lane64_bytes(b0, j);
                    assert(b@[8 * j] == b0[8 * j] && b@[8 * j + 1] == b0[8 * j + 1] && b@[8 * j + 2] == b0[8 * j + 2]
                        && b@[8 * j + 3] == b0[8 * j + 3]);
                    assert(b@[8 * j + 4] == b0[8 * j + 4] && b@[8 * j + 5] == b0[8 * j + 5] && b@[8 * j + 6] == b0[8
                        * j + 6] && b@[8 * j + 7] == b0[8 * j + 7]);
                }
                lemma_lane64_bytes(b@, k as int);
            }
            k += 1;
        }
        v256_from_bytes(b)
    }

    #[verifier::spinoff_prover]
    #[verifier::rlimit(60)]
    fn store(dst: &mut [u64], pos: usize, a: V256) {
        let ghost d0 = dst@;
        let mut k: usize = 0;
        while k < 4
            invariant
                k <= 4,
                pos + 4 <= d0.len(),
                dst@.len() == d0.len(),
                dst.len() == d0.len(),
                forall|j: int| 0 <= j < k ==> #[trigger] dst@[pos + j] == lane64(a@, j) as u64,
                forall|i: int| 0 <= i < d0.len() && !(pos <= i < pos + k) ==> #[trigger] dst@[i] == d0[i],
            decreases 4 - k,
        {
            let b0 = v256_byte(&a, 8 * k);
            let b1 = v256_byte(&a, 8 * k + 1);
            let b2 = v256_byte(&a, 8 * k + 2);
            let b3 = v256_byte(&a, 8 * k + 3);
            let b4 = v256_byte(&a, 8 * k + 4);
            let b5 = v256_byte(&a, 8 * k + 5);
            let b6 = v256_byte(&a, 8 * k + 6);
            let b7 = v256_byte(&a, 8 * k + 7);
            let x = (b0 as u64) | ((b1 as u64) << 8u64) | ((b2 as u64) << 16u64) | ((b3 as u64) << 24u64) | ((
            b4 as u64) << 32u64) | ((b5 as u64) << 40u64) | ((b6 as u64) << 48u64) | ((b7 as u64) << 56u64);
            proof {
                lemma_u64_pack(x, b0, b1, b2, b3, b4, b5, b6, b7);
            }
            proof {
                lemma_lane64_bytes(a@, k as int);
            }
            dst[pos + k] = x;
            k += 1;
        }
    }
}

/// Writes `src[from..]` with the bytes of each item reversed into
/// `dst[from..src.len()]`.
fn swap_range<T: BSwapExt>(src: &[T], dst: &mut [T], from: usize)
    requires
        from <= src@.len() <= old(dst)@.len(),
    ensures
        final(dst)@.len() == old(dst)@.len(),
        forall|i: int| from <= i < src@.len() ==> #[trigger] final(dst)@[i] == T::spec_swap(src@[i]),
        forall|i: int|
            0 <= i < old(dst)@.len() && !(from <= i < src@.len()) ==> #[trigger] final(dst)@[i] == old(dst)@[i],
{
    let ghost d0 = dst@;
    let n = src.len();
    let mut i = from;
    while i < n
        invariant
            from <= i <= n,
            n == src@.len(),
            n <= d0.len(),
            dst@.len() == d0.len(),
            forall|j: int| from <= j < i ==> #[trigger] dst@[j] == T::spec_swap(src@[j]),
            forall|j: int| 0 <= j < d0.len() && !(from <= j < i) ==> #[trigger] dst@[j] == d0[j],
        decreases n - i,
    {
        dst[i] = T::swap_single(src[i]);
        i += 1;
    }
}

/// Writes the items of `src` with their bytes reversed into
/// `dst[..src.len()]`, one item at a time. The rest of `dst` is left as it
/// was.
pub fn bswap_fallback<T: BSwapExt>(src: &[T], dst: &mut [T])
    requires
        src@.len() <= old(dst)@.len(),
    ensures
        final(dst)@.len() == old(dst)@.len(),
        forall|i: int| 0 <= i < src@.len() ==> #[trigger] final(dst)@[i] == T::spec_swap(src@[i]),
        forall|i: int| src@.len() <= i < old(dst)@.len() ==> #[trigger] final(dst)@[i] == old(dst)@[i],
{
    swap_range(src, dst, 0);
}

/// Writes the items of `src` with their bytes reversed into
/// `dst[..src.len()]`, a vector of items at a time while whole vectors
/// remain, then one item at a time. The rest of `dst` is left as it was.
/// After each 32-byte vector the output moves on by as many items as the
/// vector holds (16 for `u16`, 8 for `u32`, 4 for `u64`), so every item lands
/// at its own index, whatever its width, and nothing is written past
/// `dst[..src.len()]`.
pub fn bswap_simd<S: SIMD256, T: BSwapExt>(s: S, src: &[T], dst: &mut [T])
    requires
        src@.len() <= old(dst)@.len(),
    ensures
        final(dst)@.len() == old(dst)@.len(),
        forall|i: int| 0 <= i < src@.len() ==> #[trigger] final(dst)@[i] == T::spec_swap(src@[i]),
        forall|i: int| src@.len() <= i < old(dst)@.len() ==> #[trigger] final(dst)@[i] == old(dst)@[i],
{
    let ghost d0 = dst@;
    let n = src.len();
    let lanes = T::lanes();
    let mut pos: usize = 0;
    while lanes <= n - pos
        invariant
            pos <= n,
            n == src@.len(),
            n <= d0.len(),
            lanes == T::spec_lanes(),
            1 <= lanes <= 32,
            dst@.len() == d0.len(),
            forall|j: int| 0 <= j < pos ==> #[trigger] dst@[j] == T::spec_swap(src@[j]),
            forall|j: int| pos <= j < d0.len() ==> #[trigger] dst@[j] == d0[j],
        decreases n - pos,
    {
        let x = T::load(src, pos);
        let y = T::swap_simd(s, x);
        let ghost before = dst@;
        T::store(dst, pos, y);
        proof {
            assert forall|j: int| pos <= j < pos + lanes implies #[trigger] dst@[j] == T::spec_swap(src@[j]) by {
                let k = j - pos;
                assert(dst@[pos + k] == T::spec_lane(y@, k));
            }
            assert forall|j: int| 0 <= j < pos implies #[trigger] dst@[j] == T::spec_swap(src@[j]) by {
                assert(dst@[j] == before[j]);
            }
        }
        pos += lanes;
    }
    swap_range(src, dst, pos);
}

} // verus!
