use vstd::arithmetic::power2::{lemma2_to64, lemma_pow2_strictly_increases, lemma_pow2_unfold, pow2};
use vstd::prelude::*;

use super::{Fallback, InstructionSet};
use crate::bits::{lemma_byte_bits, lemma_byte_bits3, lemma_u32_halves};
use crate::scalar::Bytes16;
use crate::vector::{
    lemma_bytes2, op2, V256, all_zero, any_zero, bytes_reversed_in_lanes, from_signed, lane, lanes1, lanes2, map1_not, map1_u16,
    map1_u32, map2_u16, map2_u32, map2_u64, map2_u8, reverse_lane_bytes, shuffle_bytes, splat,
    splat_u16, splat_u32, splat_u64, splat_u8, swizzled, test_all_zero, test_any_zero, Op1, Op2, V128,
};

verus! {

/// 128-bit vector operations.
pub trait SIMD128: InstructionSet {
    /// The bytes of `a`.
    fn v128_to_bytes(self, a: V128) -> (r: [u8; 16])
        ensures
            r@ == a@,
    ;

    /// The vector of 16 zero bytes.
    fn v128_create_zero(self) -> (r: V128)
        ensures
            all_zero(r@),
    ;

    /// Whether every byte of `a` is zero.
    fn v128_all_zero(self, a: V128) -> (r: bool)
        ensures
            r == all_zero(a@),
    ;

    /// Loads an aligned block.
    fn v128_load(self, src: &Bytes16) -> (r: V128)
        ensures
            r@ == src.0@,
    ;

    /// Stores `a` into an aligned block.
    fn v128_store(self, dst: &mut Bytes16, a: V128)
        ensures
            final(dst).0@ == a@,
    ;

    /// Loads 16 bytes of `src` from `pos` on.
    fn v128_load_unaligned(self, src: &[u8], pos: usize) -> (r: V128)
        requires
            pos + 16 <= src@.len(),
        ensures
            r@ == src@.subrange(pos as int, pos + 16),
    ;

    /// Stores `a` into `dst` from `pos` on.
    fn v128_store_unaligned(self, dst: &mut [u8], pos: usize, a: V128)
        requires
            pos + 16 <= old(dst)@.len(),
        ensures
            final(dst)@ == old(dst)@.subrange(0, pos as int) + a@ + old(dst)@.subrange(
                pos + 16,
                old(dst)@.len() as int,
            ),
    ;

    fn v128_not(self, a: V128) -> (r: V128)
        ensures
            lanes1(Op1::Not, 1, a@, r@),
    ;

    fn u16x8_shl<const IMM8: u32>(self, a: V128) -> (r: V128)
        requires
            IMM8 < 16,
        ensures
            lanes1(Op1::Shl(IMM8), 2, a@, r@),
    ;

    fn u32x4_shl<const IMM8: u32>(self, a: V128) -> (r: V128)
        requires
            IMM8 < 32,
        ensures
            lanes1(Op1::Shl(IMM8), 4, a@, r@),
    ;

    fn u16x8_shr<const IMM8: u32>(self, a: V128) -> (r: V128)
        requires
            IMM8 < 16,
        ensures
            lanes1(Op1::Shr(IMM8), 2, a@, r@),
    ;

    fn u32x4_shr<const IMM8: u32>(self, a: V128) -> (r: V128)
        requires
            IMM8 < 32,
        ensures
            lanes1(Op1::Shr(IMM8), 4, a@, r@),
    ;

    fn u8x16_splat(self, x: u8) -> (r: V128)
        ensures
            splat(1, x as int, r@),
    ;

    fn u16x8_splat(self, x: u16) -> (r: V128)
        ensures
            splat(2, x as int, r@),
    ;

    fn u32x4_splat(self, x: u32) -> (r: V128)
        ensures
            splat(4, x as int, r@),
    ;

    fn u64x2_splat(self, x: u64) -> (r: V128)
        ensures
            splat(8, x as int, r@),
    ;

    fn i8x16_splat(self, x: i8) -> (r: V128)
        ensures
            splat(1, from_signed(1, x as int), r@),
    ;

    fn i16x8_splat(self, x: i16) -> (r: V128)
        ensures
            splat(2, from_signed(2, x as int), r@),
    ;

    fn i32x4_splat(self, x: i32) -> (r: V128)
        ensures
            splat(4, from_signed(4, x as int), r@),
    ;

    fn i64x2_splat(self, x: i64) -> (r: V128)
        ensures
            splat(8, from_signed(8, x as int), r@),
    ;

    fn v128_and(self, a: V128, b: V128) -> (r: V128)
        ensures
            lanes2(Op2::And, 1, a@, b@, r@),
    ;

    fn v128_or(self, a: V128, b: V128) -> (r: V128)
        ensures
            lanes2(Op2::Or, 1, a@, b@, r@),
    ;

    fn v128_xor(self, a: V128, b: V128) -> (r: V128)
        ensures
            lanes2(Op2::Xor, 1, a@, b@, r@),
    ;

    fn v128_andnot(self, a: V128, b: V128) -> (r: V128)
        ensures
            lanes2(Op2::AndNot, 1, a@, b@, r@),
    ;

    fn u8x16_add(self, a: V128, b: V128) -> (r: V128)
        ensures
            lanes2(Op2::Add, 1, a@, b@, r@),
    ;

    fn u16x8_add(self, a: V128, b: V128) -> (r: V128)
        ensures
            lanes2(Op2::Add, 2, a@, b@, r@),
    ;

    fn u32x4_add(self, a: V128, b: V128) -> (r: V128)
        ensures
            lanes2(Op2::Add, 4, a@, b@, r@),
    ;

    fn u64x2_add(self, a: V128, b: V128) -> (r: V128)
        ensures
            lanes2(Op2::Add, 8, a@, b@, r@),
    ;

    fn u8x16_sub(self, a: V128, b: V128) -> (r: V128)
        ensures
            lanes2(Op2::Sub, 1, a@, b@, r@),
    ;

    fn u16x8_sub(self, a: V128, b: V128) -> (r: V128)
        ensures
            lanes2(Op2::Sub, 2, a@, b@, r@),
    ;

    fn u32x4_sub(self, a: V128, b: V128) -> (r: V128)
        ensures
            lanes2(Op2::Sub, 4, a@, b@, r@),
    ;

    fn u64x2_sub(self, a: V128, b: V128) -> (r: V128)
        ensures
            lanes2(Op2::Sub, 8, a@, b@, r@),
    ;

    fn u8x16_sub_sat(self, a: V128, b: V128) -> (r: V128)
        ensures
            lanes2(Op2::SubSatU, 1, a@, b@, r@),
    ;

    fn u16x8_sub_sat(self, a: V128, b: V128) -> (r: V128)
        ensures
            lanes2(Op2::SubSatU, 2, a@, b@, r@),
    ;

    fn i8x16_sub_sat(self, a: V128, b: V128) -> (r: V128)
        ensures
            lanes2(Op2::SubSatS, 1, a@, b@, r@),
    ;

    fn i16x8_sub_sat(self, a: V128, b: V128) -> (r: V128)
        ensures
            lanes2(Op2::SubSatS, 2, a@, b@, r@),
    ;

    fn i16x8_mul_lo(self, a: V128, b: V128) -> (r: V128)
        ensures
            lanes2(Op2::MulLo, 2, a@, b@, r@),
    ;

    fn i32x4_mul_lo(self, a: V128, b: V128) -> (r: V128)
        ensures
            lanes2(Op2::MulLo, 4, a@, b@, r@),
    ;

    fn u8x16_eq(self, a: V128, b: V128) -> (r: V128)
        ensures
            lanes2(Op2::Eq, 1, a@, b@, r@),
    ;

    fn u16x8_eq(self, a: V128, b: V128) -> (r: V128)
        ensures
            lanes2(Op2::Eq, 2, a@, b@, r@),
    ;

    fn u32x4_eq(self, a: V128, b: V128) -> (r: V128)
        ensures
            lanes2(Op2::Eq, 4, a@, b@, r@),
    ;

    fn u8x16_lt(self, a: V128, b: V128) -> (r: V128)
        ensures
            lanes2(Op2::LtU, 1, a@, b@, r@),
    ;

    fn u16x8_lt(self, a: V128, b: V128) -> (r: V128)
        ensures
            lanes2(Op2::LtU, 2, a@, b@, r@),
    ;

    fn u32x4_lt(self, a: V128, b: V128) -> (r: V128)
        ensures
            lanes2(Op2::LtU, 4, a@, b@, r@),
    ;

    fn i8x16_lt(self, a: V128, b: V128) -> (r: V128)
        ensures
            lanes2(Op2::LtS, 1, a@, b@, r@),
    ;

    fn i16x8_lt(self, a: V128, b: V128) -> (r: V128)
        ensures
            lanes2(Op2::LtS, 2, a@, b@, r@),
    ;

    fn i32x4_lt(self, a: V128, b: V128) -> (r: V128)
        ensures
            lanes2(Op2::LtS, 4, a@, b@, r@),
    ;

    fn u8x16_max(self, a: V128, b: V128) -> (r: V128)
        ensures
            lanes2(Op2::MaxU, 1, a@, b@, r@),
    ;

    fn u16x8_max(self, a: V128, b: V128) -> (r: V128)
        ensures
            lanes2(Op2::MaxU, 2, a@, b@, r@),
    ;

    fn u32x4_max(self, a: V128, b: V128) -> (r: V128)
        ensures
            lanes2(Op2::MaxU, 4, a@, b@, r@),
    ;

    fn i8x16_max(self, a: V128, b: V128) -> (r: V128)
        ensures
            lanes2(Op2::MaxS, 1, a@, b@, r@),
    ;

    fn i16x8_max(self, a: V128, b: V128) -> (r: V128)
        ensures
            lanes2(Op2::MaxS, 2, a@, b@, r@),
    ;

    fn i32x4_max(self, a: V128, b: V128) -> (r: V128)
        ensures
            lanes2(Op2::MaxS, 4, a@, b@, r@),
    ;

    fn u8x16_min(self, a: V128, b: V128) -> (r: V128)
        ensures
            lanes2(Op2::MinU, 1, a@, b@, r@),
    ;

    fn u16x8_min(self, a: V128, b: V128) -> (r: V128)
        ensures
            lanes2(Op2::MinU, 2, a@, b@, r@),
    ;

    fn u32x4_min(self, a: V128, b: V128) -> (r: V128)
        ensures
            lanes2(Op2::MinU, 4, a@, b@, r@),
    ;

    fn i8x16_min(self, a: V128, b: V128) -> (r: V128)
        ensures
            lanes2(Op2::MinS, 1, a@, b@, r@),
    ;

    fn i16x8_min(self, a: V128, b: V128) -> (r: V128)
        ensures
            lanes2(Op2::MinS, 2, a@, b@, r@),
    ;

    fn i32x4_min(self, a: V128, b: V128) -> (r: V128)
        ensures
            lanes2(Op2::MinS, 4, a@, b@, r@),
    ;

    fn u16x8_bswap(self, a: V128) -> (r: V128)
        ensures
            bytes_reversed_in_lanes(2, a@, r@),
    ;

    fn u32x4_bswap(self, a: V128) -> (r: V128)
        ensures
            bytes_reversed_in_lanes(4, a@, r@),
    ;

    fn u64x2_bswap(self, a: V128) -> (r: V128)
        ensures
            bytes_reversed_in_lanes(8, a@, r@),
    ;

    /// Picks bytes of `a` by the indices in `b`. Indices from 16 to 127 give an
    /// instruction-set dependent byte.
    fn u8x16_swizzle(self, a: V128, b: V128) -> (r: V128)
        ensures
            swizzled(a@, b@, r@),
    ;

    /// Whether some byte of `a` is zero.
    fn u8x16_any_zero(self, a: V128) -> (r: bool)
        ensures
            r == any_zero(a@),
    ;

    /// The high bits of the bytes of `a`, byte 0 in bit 0.
    fn u8x16_bitmask(self, a: V128) -> (r: u16)
        ensures
            r == high_bits(a@, 0),
    {
        let b = self.v128_to_bytes(a);
        let mut m: u32 = 0;
        let mut i: usize = 16;
        proof {
            lemma2_to64();
        }
        while i > 0
            invariant
                i <= 16,
                b@ == a@,
                m == high_bits(a@, i as int),
                m < pow2((16 - i) as nat),
            decreases i,
        {
            i -= 1;
            proof {
                lemma_pow2_unfold((16 - i) as nat);
                if 16 - i < 16 {
                    lemma_pow2_strictly_increases((16 - i) as nat, 16);
                }
                lemma2_to64();
                lemma_byte_bits(b[i as int], 0);
            }
            m = 2 * m + (b[i] >> 7u8) as u32;
        }
        proof {
            lemma2_to64();
        }
        m as u16
    }

    /// The high bits of the bytes of `a`, byte 0 in bit 0.
    fn u8x32_bitmask(self, a: V256) -> (r: u32)
        ensures
            r == high_bits(a@, 0),
    {
        let m0 = self.u8x16_bitmask(a.lo) as u32;
        let m1 = self.u8x16_bitmask(a.hi) as u32;
        proof {
            lemma_high_bits_concat(a.lo@, a.hi@);
        }
        proof {
            lemma_u32_halves(m0, m1);
        }
        (m1 << 16u32) | m0
    }

    /// Bitwise select: each bit from `b` where the bit of `a` is set, else
    /// from `c`.
    fn v256_bsl(self, a: V256, b: V256, c: V256) -> (r: V256)
        ensures
            forall|i: int| 0 <= i < 32 ==> #[trigger] r@[i] == ((a@[i] & b@[i]) | (!a@[i] & c@[i])),
    {
        let t0 = self.v128_xor(b.lo, c.lo);
        let u0 = self.v128_and(t0, a.lo);
        let lo = self.v128_xor(u0, c.lo);
        let t1 = self.v128_xor(b.hi, c.hi);
        let u1 = self.v128_and(t1, a.hi);
        let hi = self.v128_xor(u1, c.hi);
        proof {
            lemma_select_bytes(a.lo@, b.lo@, c.lo@, t0@, u0@, lo@);
            lemma_select_bytes(a.hi@, b.hi@, c.hi@, t1@, u1@, hi@);
        }
        let r = V256 { lo, hi };
        assert forall|i: int| 0 <= i < 32 implies #[trigger] r@[i] == ((a@[i] & b@[i]) | (!a@[i] & c@[i])) by {
            if i >= 16 {
                assert(hi@[i - 16] == ((a.hi@[i - 16] & b.hi@[i - 16]) | (!a.hi@[i - 16] & c.hi@[i - 16])));
            } else {
                assert(lo@[i] == ((a.lo@[i] & b.lo@[i]) | (!a.lo@[i] & c.lo@[i])));
            }
        }
        r
    }
}


impl SIMD128 for Fallback {
    fn v128_to_bytes(self, a: V128) -> (r: [u8; 16]) {
        a.0
    }

    fn v128_create_zero(self) -> (r: V128) {
        let r = splat_u8(0);
        proof {
            reveal(lane);
        }
        assert forall|i: int| 0 <= i < 16 implies #[trigger] r@[i] == 0 by {
            assert(lane(1, r@, i) == 0);
        }
        r
    }

    fn v128_all_zero(self, a: V128) -> (r: bool) {
        test_all_zero(&a)
    }

    fn v128_load(self, src: &Bytes16) -> (r: V128) {
        V128(src.0)
    }

    fn v128_store(self, dst: &mut Bytes16, a: V128) {
        dst.0 = a.0;
    }

    fn v128_load_unaligned(self, src: &[u8], pos: usize) -> (r: V128) {
        let mut out = [0u8; 16];
        let mut i: usize = 0;
        while i < 16
            invariant
                i <= 16,
                pos + 16 <= src@.len(),
                forall|j: int| 0 <= j < i ==> out@[j] == src@[pos + j],
            decreases 16 - i,
        {
            out[i] = src[pos + i];
            i += 1;
        }
        assert(out@ =~= src@.subrange(pos as int, pos + 16));
        V128(out)
    }

    fn v128_store_unaligned(self, dst: &mut [u8], pos: usize, a: V128) {
        let ghost d0 = dst@;
        let n = dst.len();
        let mut i: usize = 0;
        while i < 16
            invariant
                i <= 16,
                n == d0.len(),
                pos + 16 <= d0.len(),
                dst@.len() == d0.len(),
                forall|j: int| 0 <= j < dst@.len() && !(pos <= j < pos + i) ==> dst@[j] == d0[j],
                forall|j: int| pos <= j < pos + i ==> dst@[j] == a@[j - pos],
            decreases 16 - i,
        {
            dst[pos + i] = a.0[i];
            i += 1;
        }
        assert(dst@ =~= d0.subrange(0, pos as int) + a@ + d0.subrange(pos + 16, d0.len() as int));
    }

    fn v128_not(self, a: V128) -> (r: V128) {
        map1_not(&a)
    }

    fn u16x8_shl<const IMM8: u32>(self, a: V128) -> (r: V128) {
        map1_u16(Op1::Shl(IMM8), &a)
    }

    fn u32x4_shl<const IMM8: u32>(self, a: V128) -> (r: V128) {
        map1_u32(Op1::Shl(IMM8), &a)
    }

    fn u16x8_shr<const IMM8: u32>(self, a: V128) -> (r: V128) {
        map1_u16(Op1::Shr(IMM8), &a)
    }

    fn u32x4_shr<const IMM8: u32>(self, a: V128) -> (r: V128) {
        map1_u32(Op1::Shr(IMM8), &a)
    }

    fn u8x16_splat(self, x: u8) -> (r: V128) {
        splat_u8(x)
    }

    fn u16x8_splat(self, x: u16) -> (r: V128) {
        splat_u16(x)
    }

    fn u32x4_splat(self, x: u32) -> (r: V128) {
        splat_u32(x)
    }

    fn u64x2_splat(self, x: u64) -> (r: V128) {
        splat_u64(x)
    }

    fn i8x16_splat(self, x: i8) -> (r: V128) {
        let y: u8 = if x < 0 { (x as i16 + 0x100) as u8 } else { x as u8 };
        splat_u8(y)
    }

    fn i16x8_splat(self, x: i16) -> (r: V128) {
        let y: u16 = if x < 0 { (x as i32 + 0x1_0000) as u16 } else { x as u16 };
        splat_u16(y)
    }

    fn i32x4_splat(self, x: i32) -> (r: V128) {
        let y: u32 = if x < 0 { (x as i64 + 0x1_0000_0000) as u32 } else { x as u32 };
        splat_u32(y)
    }

    fn i64x2_splat(self, x: i64) -> (r: V128) {
        let y: u64 = if x < 0 { (x as i128 + 0x1_0000_0000_0000_0000) as u64 } else { x as u64 };
        splat_u64(y)
    }

    fn v128_and(self, a: V128, b: V128) -> (r: V128) {
        map2_u8(Op2::And, &a, &b)
    }

    fn v128_or(self, a: V128, b: V128) -> (r: V128) {
        map2_u8(Op2::Or, &a, &b)
    }

    fn v128_xor(self, a: V128, b: V128) -> (r: V128) {
        map2_u8(Op2::Xor, &a, &b)
    }

    fn v128_andnot(self, a: V128, b: V128) -> (r: V128) {
        map2_u8(Op2::AndNot, &a, &b)
    }

    fn u8x16_add(self, a: V128, b: V128) -> (r: V128) {
        map2_u8(Op2::Add, &a, &b)
    }

    fn u16x8_add(self, a: V128, b: V128) -> (r: V128) {
        map2_u16(Op2::Add, &a, &b)
    }

    fn u32x4_add(self, a: V128, b: V128) -> (r: V128) {
        map2_u32(Op2::Add, &a, &b)
    }

    fn u64x2_add(self, a: V128, b: V128) -> (r: V128) {
        map2_u64(Op2::Add, &a, &b)
    }

    fn u8x16_sub(self, a: V128, b: V128) -> (r: V128) {
        map2_u8(Op2::Sub, &a, &b)
    }

    fn u16x8_sub(self, a: V128, b: V128) -> (r: V128) {
        map2_u16(Op2::Sub, &a, &b)
    }

    fn u32x4_sub(self, a: V128, b: V128) -> (r: V128) {
        map2_u32(Op2::Sub, &a, &b)
    }

    fn u64x2_sub(self, a: V128, b: V128) -> (r: V128) {
        map2_u64(Op2::Sub, &a, &b)
    }

    fn u8x16_sub_sat(self, a: V128, b: V128) -> (r: V128) {
        map2_u8(Op2::SubSatU, &a, &b)
    }

    fn u16x8_sub_sat(self, a: V128, b: V128) -> (r: V128) {
        map2_u16(Op2::SubSatU, &a, &b)
    }

    fn i8x16_sub_sat(self, a: V128, b: V128) -> (r: V128) {
        map2_u8(Op2::SubSatS, &a, &b)
    }

    fn i16x8_sub_sat(self, a: V128, b: V128) -> (r: V128) {
        map2_u16(Op2::SubSatS, &a, &b)
    }

    fn i16x8_mul_lo(self, a: V128, b: V128) -> (r: V128) {
        map2_u16(Op2::MulLo, &a, &b)
    }

    fn i32x4_mul_lo(self, a: V128, b: V128) -> (r: V128) {
        map2_u32(Op2::MulLo, &a, &b)
    }

    fn u8x16_eq(self, a: V128, b: V128) -> (r: V128) {
        map2_u8(Op2::Eq, &a, &b)
    }

    fn u16x8_eq(self, a: V128, b: V128) -> (r: V128) {
        map2_u16(Op2::Eq, &a, &b)
    }

    fn u32x4_eq(self, a: V128, b: V128) -> (r: V128) {
        map2_u32(Op2::Eq, &a, &b)
    }

    fn u8x16_lt(self, a: V128, b: V128) -> (r: V128) {
        map2_u8(Op2::LtU, &a, &b)
    }

    fn u16x8_lt(self, a: V128, b: V128) -> (r: V128) {
        map2_u16(Op2::LtU, &a, &b)
    }

    fn u32x4_lt(self, a: V128, b: V128) -> (r: V128) {
        map2_u32(Op2::LtU, &a, &b)
    }

    fn i8x16_lt(self, a: V128, b: V128) -> (r: V128) {
        map2_u8(Op2::LtS, &a, &b)
    }

    fn i16x8_lt(self, a: V128, b: V128) -> (r: V128) {
        map2_u16(Op2::LtS, &a, &b)
    }

    fn i32x4_lt(self, a: V128, b: V128) -> (r: V128) {
        map2_u32(Op2::LtS, &a, &b)
    }

    fn u8x16_max(self, a: V128, b: V128) -> (r: V128) {
        map2_u8(Op2::MaxU, &a, &b)
    }

    fn u16x8_max(self, a: V128, b: V128) -> (r: V128) {
        map2_u16(Op2::MaxU, &a, &b)
    }

    fn u32x4_max(self, a: V128, b: V128) -> (r: V128) {
        map2_u32(Op2::MaxU, &a, &b)
    }

    fn i8x16_max(self, a: V128, b: V128) -> (r: V128) {
        map2_u8(Op2::MaxS, &a, &b)
    }

    fn i16x8_max(self, a: V128, b: V128) -> (r: V128) {
        map2_u16(Op2::MaxS, &a, &b)
    }

    fn i32x4_max(self, a: V128, b: V128) -> (r: V128) {
        map2_u32(Op2::MaxS, &a, &b)
    }

    fn u8x16_min(self, a: V128, b: V128) -> (r: V128) {
        map2_u8(Op2::MinU, &a, &b)
    }

    fn u16x8_min(self, a: V128, b: V128) -> (r: V128) {
        map2_u16(Op2::MinU, &a, &b)
    }

    fn u32x4_min(self, a: V128, b: V128) -> (r: V128) {
        map2_u32(Op2::MinU, &a, &b)
    }

    fn i8x16_min(self, a: V128, b: V128) -> (r: V128) {
        map2_u8(Op2::MinS, &a, &b)
    }

    fn i16x8_min(self, a: V128, b: V128) -> (r: V128) {
        map2_u16(Op2::MinS, &a, &b)
    }

    fn i32x4_min(self, a: V128, b: V128) -> (r: V128) {
        map2_u32(Op2::MinS, &a, &b)
    }

    fn u16x8_bswap(self, a: V128) -> (r: V128) {
        reverse_lane_bytes(2, &a)
    }

    fn u32x4_bswap(self, a: V128) -> (r: V128) {
        reverse_lane_bytes(4, &a)
    }

    fn u64x2_bswap(self, a: V128) -> (r: V128) {
        reverse_lane_bytes(8, &a)
    }

    fn u8x16_swizzle(self, a: V128, b: V128) -> (r: V128) {
        shuffle_bytes(&a, &b)
    }

    fn u8x16_any_zero(self, a: V128) -> (r: bool) {
        test_any_zero(&a)
    }
}

/// The high bits of the bytes of `s` from position `i` on, as a number with
/// byte `i` in its lowest bit.
pub open spec fn high_bits(s: Seq<u8>, i: int) -> int
    decreases s.len() - i,
{
    if i < 0 || i >= s.len() {
        0
    } else {
        s[i] / 128 + 2 * high_bits(s, i + 1)
    }
}

/// Past the first block, the high bits of two concatenated blocks are those
/// of the second.
proof fn lemma_high_bits_shift(x: Seq<u8>, y: Seq<u8>, j: int)
    requires
        x.len() == 16,
        y.len() == 16,
        0 <= j <= 16,
    ensures
        high_bits(x + y, 16 + j) == high_bits(y, j),
    decreases 16 - j,
{
    if j < 16 {
        lemma_high_bits_shift(x, y, j + 1);
        assert((x + y)[16 + j] == y[j]);
    }
}

/// The high bits of two concatenated blocks from position `i` of the first.
proof fn lemma_high_bits_prefix(x: Seq<u8>, y: Seq<u8>, i: int)
    requires
        x.len() == 16,
        y.len() == 16,
        0 <= i <= 16,
    ensures
        high_bits(x + y, i) == high_bits(x, i) + pow2((16 - i) as nat) * high_bits(y, 0),
    decreases 16 - i,
{
    if i == 16 {
        lemma_high_bits_shift(x, y, 0);
        lemma2_to64();
        assert(high_bits(x, 16) == 0);
        assert(pow2(0) == 1);
        assert((16 - i) as nat == 0);
        let h = high_bits(y, 0);
        assert(pow2(0) * h == h) by (nonlinear_arith)
            requires
                pow2(0) == 1,
        ;
    } else {
        lemma_high_bits_prefix(x, y, i + 1);
        assert((x + y)[i] == x[i]);
        assert(high_bits(x + y, i) == (x + y)[i] / 128 + 2 * high_bits(x + y, i + 1));
        assert(high_bits(x, i) == x[i] / 128 + 2 * high_bits(x, i + 1));
        lemma_pow2_unfold((16 - i) as nat);
        let h = high_bits(y, 0);
        assert(2 * (pow2((15 - i) as nat) * h) == pow2((16 - i) as nat) * h) by (nonlinear_arith)
            requires
                pow2((16 - i) as nat) == 2 * pow2((15 - i) as nat),
        ;
        assert(high_bits(x + y, i + 1) == high_bits(x, i + 1) + pow2((16 - (i + 1)) as nat) * h);
        assert((16 - (i + 1)) as nat == (15 - i) as nat);
    }
}

/// The high bits of two concatenated blocks of 16 bytes.
proof fn lemma_high_bits_concat(x: Seq<u8>, y: Seq<u8>)
    requires
        x.len() == 16,
        y.len() == 16,
    ensures
        high_bits(x + y, 0) == high_bits(x, 0) + 0x1_0000 * high_bits(y, 0),
{
    lemma_high_bits_prefix(x, y, 0);
    lemma2_to64();
}

/// Byte-wise bitwise select from `xor`, `and`, `xor`.
proof fn lemma_select_bytes(a: Seq<u8>, b: Seq<u8>, c: Seq<u8>, t: Seq<u8>, u: Seq<u8>, r: Seq<u8>)
    requires
        lanes2(Op2::Xor, 1, b, c, t),
        lanes2(Op2::And, 1, t, a, u),
        lanes2(Op2::Xor, 1, u, c, r),
    ensures
        forall|i: int| 0 <= i < r.len() ==> #[trigger] r[i] == ((a[i] & b[i]) | (!a[i] & c[i])),
{
    lemma_bytes2(Op2::Xor, b, c, t);
    lemma_bytes2(Op2::And, t, a, u);
    lemma_bytes2(Op2::Xor, u, c, r);
    reveal(op2);
    assert forall|i: int| 0 <= i < r.len() implies #[trigger] r[i] == ((a[i] & b[i]) | (!a[i] & c[i])) by {
        lemma_byte_bits3(a[i], b[i], c[i]);
    }
}

} // verus!
