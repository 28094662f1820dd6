use vstd::prelude::*;

use super::{Fallback, SIMD256};
use crate::vector::{
    all_zero, any_zero, bytes_reversed_in_lanes, from_signed, lanes1, lanes2, lemma_all_zero_concat,
    lemma_all_zero_or, lemma_any_zero_min, lemma_lanes1_concat_1, lemma_lanes1_concat_2,
    lemma_lanes1_concat_4, lemma_lanes2_concat_1, lemma_lanes2_concat_2, lemma_lanes2_concat_4,
    lemma_lanes2_concat_8, lemma_reversed_concat_2, lemma_reversed_concat_4,
    lemma_reversed_concat_8, lemma_splat_concat_1, lemma_splat_concat_2, lemma_splat_concat_4,
    lemma_splat_concat_8, lemma_swizzled_concat, splat, swizzled, Op1, Op2, V256, V512,
};

verus! {

/// 512-bit vector operations, built from pairs of 256-bit ones.
pub trait SIMD512: SIMD256 {
    /// Joins two halves; `a` becomes bytes 0..32.
    fn v512_from_v256x2(self, a: V256, b: V256) -> (r: V512)
        ensures
            r == (V512 { lo: a, hi: b }),
    ;

    /// Splits into halves.
    fn v512_to_v256x2(self, a: V512) -> (r: (V256, V256))
        ensures
            r == (a.lo, a.hi),
    ;

    /// The bytes of `a`.
    fn v512_to_bytes(self, a: V512) -> (r: [u8; 64])
        ensures
            r@ == a@,
    ;

    /// Loads bytes `pos..pos + 32` of `src` as the low half and bytes
    /// `pos + 16..pos + 48` as the high half.
    fn v512_load_unaligned(self, src: &[u8], pos: usize) -> (r: V512)
        requires
            pos + 48 <= src@.len(),
        ensures
            r@ == src@.subrange(pos as int, pos + 32) + src@.subrange(pos + 16, pos + 48),
    {
        let _n = src.len();
        let a0 = self.v256_load_unaligned(src, pos);
        let a1 = self.v256_load_unaligned(src, pos + 16);
        self.v512_from_v256x2(a0, a1)
    }

    /// Stores the low half of `a` at `pos` and then the high half at
    /// `pos + 16`, over the second half of the first.
    fn v512_store_unaligned(self, dst: &mut [u8], pos: usize, a: V512)
        requires
            pos + 48 <= old(dst)@.len(),
        ensures
            final(dst)@ == old(dst)@.subrange(0, pos as int) + a@.subrange(0, 16) + a@.subrange(32, 64) + old(
                dst,
            )@.subrange(pos + 48, old(dst)@.len() as int),
    {
        let ghost d0 = dst@;
        let _n = dst.len();
        let (a0, a1) = self.v512_to_v256x2(a);
        self.v256_store_unaligned(dst, pos, a0);
        let ghost d1 = dst@;
        self.v256_store_unaligned(dst, pos + 16, a1);
        proof {
            assert(a@.subrange(0, 16) =~= a0@.subrange(0, 16));
            assert(a@.subrange(32, 64) =~= a1@);
            assert(d1.subrange(0, pos + 16) =~= d0.subrange(0, pos as int) + a0@.subrange(0, 16));
            assert(d1.subrange(pos + 48, d1.len() as int) =~= d0.subrange(pos + 48, d0.len() as int));
            assert(dst@ =~= d0.subrange(0, pos as int) + a@.subrange(0, 16) + a@.subrange(32, 64) + d0.subrange(
                pos + 48,
                d0.len() as int,
            ));
        }
    }

    /// The vector of 64 zero bytes.
    fn v512_create_zero(self) -> (r: V512)
        ensures
            all_zero(r@),
    {
        let z = self.v256_create_zero();
        proof {
            lemma_all_zero_concat(z@, z@);
        }
        self.v512_from_v256x2(z, z)
    }

    /// Bytes 0..32.
    fn v512_get_low(self, a: V512) -> (r: V256)
        ensures
            r == a.lo,
    {
        self.v512_to_v256x2(a).0
    }

    /// Bytes 32..64.
    fn v512_get_high(self, a: V512) -> (r: V256)
        ensures
            r == a.hi,
    {
        self.v512_to_v256x2(a).1
    }

    /// Whether every byte of `a` is zero.
    fn v512_all_zero(self, a: V512) -> (r: bool)
        ensures
            r == all_zero(a@),
    {
        let a = self.v512_to_v256x2(a);
        let o = self.v256_or(a.0, a.1);
        proof {
            lemma_all_zero_or(a.0@, a.1@, o@);
        }
        self.v256_all_zero(o)
    }

    /// Whether some byte of `a` is zero.
    fn u8x64_any_zero(self, a: V512) -> (r: bool)
        ensures
            r == any_zero(a@),
    {
        let a = self.v512_to_v256x2(a);
        let m = self.u8x32_min(a.0, a.1);
        proof {
            lemma_any_zero_min(a.0@, a.1@, m@);
        }
        self.u8x32_any_zero(m)
    }

    /// Byte shuffle of each 16-byte quarter of `a` by the matching quarter of `b`.
    fn u8x16x4_swizzle(self, a: V512, b: V512) -> (r: V512)
        ensures
            swizzled(a@, b@, r@),
    {
        let a = self.v512_to_v256x2(a);
        let b = self.v512_to_v256x2(b);
        let c0 = self.u8x16x2_swizzle(a.0, b.0);
        let c1 = self.u8x16x2_swizzle(a.1, b.1);
        proof {
            lemma_swizzled_concat(a.0@, b.0@, c0@, a.1@, b.1@, c1@);
        }
        self.v512_from_v256x2(c0, c1)
    }

    fn v512_not(self, a: V512) -> (r: V512)
        ensures
            lanes1(Op1::Not, 1, a@, r@),
    {
        let a = self.v512_to_v256x2(a);
        let c0 = self.v256_not(a.0);
        let c1 = self.v256_not(a.1);
        proof {
            lemma_lanes1_concat_1(Op1::Not, a.0@, c0@, a.1@, c1@);
        }
        self.v512_from_v256x2(c0, c1)
    }

    fn u16x32_shl<const IMM8: u32>(self, a: V512) -> (r: V512)
        requires
            IMM8 < 16,
        ensures
            lanes1(Op1::Shl(IMM8), 2, a@, r@),
    {
        let a = self.v512_to_v256x2(a);
        let c0 = self.u16x16_shl::<IMM8>(a.0);
        let c1 = self.u16x16_shl::<IMM8>(a.1);
        proof {
            lemma_lanes1_concat_2(Op1::Shl(IMM8), a.0@, c0@, a.1@, c1@);
        }
        self.v512_from_v256x2(c0, c1)
    }

    fn u32x16_shl<const IMM8: u32>(self, a: V512) -> (r: V512)
        requires
            IMM8 < 32,
        ensures
            lanes1(Op1::Shl(IMM8), 4, a@, r@),
    {
        let a = self.v512_to_v256x2(a);
        let c0 = self.u32x8_shl::<IMM8>(a.0);
        let c1 = self.u32x8_shl::<IMM8>(a.1);
        proof {
            lemma_lanes1_concat_4(Op1::Shl(IMM8), a.0@, c0@, a.1@, c1@);
        }
        self.v512_from_v256x2(c0, c1)
    }

    fn u16x32_shr<const IMM8: u32>(self, a: V512) -> (r: V512)
        requires
            IMM8 < 16,
        ensures
            lanes1(Op1::Shr(IMM8), 2, a@, r@),
    {
        let a = self.v512_to_v256x2(a);
        let c0 = self.u16x16_shr::<IMM8>(a.0);
        let c1 = self.u16x16_shr::<IMM8>(a.1);
        proof {
            lemma_lanes1_concat_2(Op1::Shr(IMM8), a.0@, c0@, a.1@, c1@);
        }
        self.v512_from_v256x2(c0, c1)
    }

    fn u32x16_shr<const IMM8: u32>(self, a: V512) -> (r: V512)
        requires
            IMM8 < 32,
        ensures
            lanes1(Op1::Shr(IMM8), 4, a@, r@),
    {
        let a = self.v512_to_v256x2(a);
        let c0 = self.u32x8_shr::<IMM8>(a.0);
        let c1 = self.u32x8_shr::<IMM8>(a.1);
        proof {
            lemma_lanes1_concat_4(Op1::Shr(IMM8), a.0@, c0@, a.1@, c1@);
        }
        self.v512_from_v256x2(c0, c1)
    }

    fn u8x64_splat(self, x: u8) -> (r: V512)
        ensures
            splat(1, x as int, r@),
    {
        let c = self.u8x32_splat(x);
        proof {
            lemma_splat_concat_1(x as int, c@, c@);
        }
        self.v512_from_v256x2(c, c)
    }

    fn u16x32_splat(self, x: u16) -> (r: V512)
        ensures
            splat(2, x as int, r@),
    {
        let c = self.u16x16_splat(x);
        proof {
            lemma_splat_concat_2(x as int, c@, c@);
        }
        self.v512_from_v256x2(c, c)
    }

    fn u32x16_splat(self, x: u32) -> (r: V512)
        ensures
            splat(4, x as int, r@),
    {
        let c = self.u32x8_splat(x);
        proof {
            lemma_splat_concat_4(x as int, c@, c@);
        }
        self.v512_from_v256x2(c, c)
    }

    fn u64x8_splat(self, x: u64) -> (r: V512)
        ensures
            splat(8, x as int, r@),
    {
        let c = self.u64x4_splat(x);
        proof {
            lemma_splat_concat_8(x as int, c@, c@);
        }
        self.v512_from_v256x2(c, c)
    }

    fn i8x64_splat(self, x: i8) -> (r: V512)
        ensures
            splat(1, from_signed(1, x as int), r@),
    {
        let c = self.i8x32_splat(x);
        proof {
            lemma_splat_concat_1(from_signed(1, x as int), c@, c@);
        }
        self.v512_from_v256x2(c, c)
    }

    fn i16x32_splat(self, x: i16) -> (r: V512)
        ensures
            splat(2, from_signed(2, x as int), r@),
    {
        let c = self.i16x16_splat(x);
        proof {
            lemma_splat_concat_2(from_signed(2, x as int), c@, c@);
        }
        self.v512_from_v256x2(c, c)
    }

    fn i32x16_splat(self, x: i32) -> (r: V512)
        ensures
            splat(4, from_signed(4, x as int), r@),
    {
        let c = self.i32x8_splat(x);
        proof {
            lemma_splat_concat_4(from_signed(4, x as int), c@, c@);
        }
        self.v512_from_v256x2(c, c)
    }

    fn i64x8_splat(self, x: i64) -> (r: V512)
        ensures
            splat(8, from_signed(8, x as int), r@),
    {
        let c = self.i64x4_splat(x);
        proof {
            lemma_splat_concat_8(from_signed(8, x as int), c@, c@);
        }
        self.v512_from_v256x2(c, c)
    }

    fn v512_and(self, a: V512, b: V512) -> (r: V512)
        ensures
            lanes2(Op2::And, 1, a@, b@, r@),
    {
        let a = self.v512_to_v256x2(a);
        let b = self.v512_to_v256x2(b);
        let c0 = self.v256_and(a.0, b.0);
        let c1 = self.v256_and(a.1, b.1);
        proof {
            lemma_lanes2_concat_1(Op2::And, a.0@, b.0@, c0@, a.1@, b.1@, c1@);
        }
        self.v512_from_v256x2(c0, c1)
    }

    fn v512_or(self, a: V512, b: V512) -> (r: V512)
        ensures
            lanes2(Op2::Or, 1, a@, b@, r@),
    {
        let a = self.v512_to_v256x2(a);
        let b = self.v512_to_v256x2(b);
        let c0 = self.v256_or(a.0, b.0);
        let c1 = self.v256_or(a.1, b.1);
        proof {
            lemma_lanes2_concat_1(Op2::Or, a.0@, b.0@, c0@, a.1@, b.1@, c1@);
        }
        self.v512_from_v256x2(c0, c1)
    }

    fn v512_xor(self, a: V512, b: V512) -> (r: V512)
        ensures
            lanes2(Op2::Xor, 1, a@, b@, r@),
    {
        let a = self.v512_to_v256x2(a);
        let b = self.v512_to_v256x2(b);
        let c0 = self.v256_xor(a.0, b.0);
        let c1 = self.v256_xor(a.1, b.1);
        proof {
            lemma_lanes2_concat_1(Op2::Xor, a.0@, b.0@, c0@, a.1@, b.1@, c1@);
        }
        self.v512_from_v256x2(c0, c1)
    }

    fn v512_andnot(self, a: V512, b: V512) -> (r: V512)
        ensures
            lanes2(Op2::AndNot, 1, a@, b@, r@),
    {
        let a = self.v512_to_v256x2(a);
        let b = self.v512_to_v256x2(b);
        let c0 = self.v256_andnot(a.0, b.0);
        let c1 = self.v256_andnot(a.1, b.1);
        proof {
            lemma_lanes2_concat_1(Op2::AndNot, a.0@, b.0@, c0@, a.1@, b.1@, c1@);
        }
        self.v512_from_v256x2(c0, c1)
    }

    fn u8x64_add(self, a: V512, b: V512) -> (r: V512)
        ensures
            lanes2(Op2::Add, 1, a@, b@, r@),
    {
        let a = self.v512_to_v256x2(a);
        let b = self.v512_to_v256x2(b);
        let c0 = self.u8x32_add(a.0, b.0);
        let c1 = self.u8x32_add(a.1, b.1);
        proof {
            lemma_lanes2_concat_1(Op2::Add, a.0@, b.0@, c0@, a.1@, b.1@, c1@);
        }
        self.v512_from_v256x2(c0, c1)
    }

    fn u16x32_add(self, a: V512, b: V512) -> (r: V512)
        ensures
            lanes2(Op2::Add, 2, a@, b@, r@),
    {
        let a = self.v512_to_v256x2(a);
        let b = self.v512_to_v256x2(b);
        let c0 = self.u16x16_add(a.0, b.0);
        let c1 = self.u16x16_add(a.1, b.1);
        proof {
            lemma_lanes2_concat_2(Op2::Add, a.0@, b.0@, c0@, a.1@, b.1@, c1@);
        }
        self.v512_from_v256x2(c0, c1)
    }

    fn u32x16_add(self, a: V512, b: V512) -> (r: V512)
        ensures
            lanes2(Op2::Add, 4, a@, b@, r@),
    {
        let a = self.v512_to_v256x2(a);
        let b = self.v512_to_v256x2(b);
        let c0 = self.u32x8_add(a.0, b.0);
        let c1 = self.u32x8_add(a.1, b.1);
        proof {
            lemma_lanes2_concat_4(Op2::Add, a.0@, b.0@, c0@, a.1@, b.1@, c1@);
        }
        self.v512_from_v256x2(c0, c1)
    }

    fn u64x8_add(self, a: V512, b: V512) -> (r: V512)
        ensures
            lanes2(Op2::Add, 8, a@, b@, r@),
    {
        let a = self.v512_to_v256x2(a);
        let b = self.v512_to_v256x2(b);
        let c0 = self.u64x4_add(a.0, b.0);
        let c1 = self.u64x4_add(a.1, b.1);
        proof {
            lemma_lanes2_concat_8(Op2::Add, a.0@, b.0@, c0@, a.1@, b.1@, c1@);
        }
        self.v512_from_v256x2(c0, c1)
    }

    fn u8x64_sub(self, a: V512, b: V512) -> (r: V512)
        ensures
            lanes2(Op2::Sub, 1, a@, b@, r@),
    {
        let a = self.v512_to_v256x2(a);
        let b = self.v512_to_v256x2(b);
        let c0 = self.u8x32_sub(a.0, b.0);
        let c1 = self.u8x32_sub(a.1, b.1);
        proof {
            lemma_lanes2_concat_1(Op2::Sub, a.0@, b.0@, c0@, a.1@, b.1@, c1@);
        }
        self.v512_from_v256x2(c0, c1)
    }

    fn u16x32_sub(self, a: V512, b: V512) -> (r: V512)
        ensures
            lanes2(Op2::Sub, 2, a@, b@, r@),
    {
        let a = self.v512_to_v256x2(a);
        let b = self.v512_to_v256x2(b);
        let c0 = self.u16x16_sub(a.0, b.0);
        let c1 = self.u16x16_sub(a.1, b.1);
        proof {
            lemma_lanes2_concat_2(Op2::Sub, a.0@, b.0@, c0@, a.1@, b.1@, c1@);
        }
        self.v512_from_v256x2(c0, c1)
    }

    fn u32x16_sub(self, a: V512, b: V512) -> (r: V512)
        ensures
            lanes2(Op2::Sub, 4, a@, b@, r@),
    {
        let a = self.v512_to_v256x2(a);
        let b = self.v512_to_v256x2(b);
        let c0 = self.u32x8_sub(a.0, b.0);
        let c1 = self.u32x8_sub(a.1, b.1);
        proof {
            lemma_lanes2_concat_4(Op2::Sub, a.0@, b.0@, c0@, a.1@, b.1@, c1@);
        }
        self.v512_from_v256x2(c0, c1)
    }

    fn u64x8_sub(self, a: V512, b: V512) -> (r: V512)
        ensures
            lanes2(Op2::Sub, 8, a@, b@, r@),
    {
        let a = self.v512_to_v256x2(a);
        let b = self.v512_to_v256x2(b);
        let c0 = self.u64x4_sub(a.0, b.0);
        let c1 = self.u64x4_sub(a.1, b.1);
        proof {
            lemma_lanes2_concat_8(Op2::Sub, a.0@, b.0@, c0@, a.1@, b.1@, c1@);
        }
        self.v512_from_v256x2(c0, c1)
    }

    fn u8x64_sub_sat(self, a: V512, b: V512) -> (r: V512)
        ensures
            lanes2(Op2::SubSatU, 1, a@, b@, r@),
    {
        let a = self.v512_to_v256x2(a);
        let b = self.v512_to_v256x2(b);
        let c0 = self.u8x32_sub_sat(a.0, b.0);
        let c1 = self.u8x32_sub_sat(a.1, b.1);
        proof {
            lemma_lanes2_concat_1(Op2::SubSatU, a.0@, b.0@, c0@, a.1@, b.1@, c1@);
        }
        self.v512_from_v256x2(c0, c1)
    }

    fn u16x32_sub_sat(self, a: V512, b: V512) -> (r: V512)
        ensures
            lanes2(Op2::SubSatU, 2, a@, b@, r@),
    {
        let a = self.v512_to_v256x2(a);
        let b = self.v512_to_v256x2(b);
        let c0 = self.u16x16_sub_sat(a.0, b.0);
        let c1 = self.u16x16_sub_sat(a.1, b.1);
        proof {
            lemma_lanes2_concat_2(Op2::SubSatU, a.0@, b.0@, c0@, a.1@, b.1@, c1@);
        }
        self.v512_from_v256x2(c0, c1)
    }

    fn i8x64_sub_sat(self, a: V512, b: V512) -> (r: V512)
        ensures
            lanes2(Op2::SubSatS, 1, a@, b@, r@),
    {
        let a = self.v512_to_v256x2(a);
        let b = self.v512_to_v256x2(b);
        let c0 = self.i8x32_sub_sat(a.0, b.0);
        let c1 = self.i8x32_sub_sat(a.1, b.1);
        proof {
            lemma_lanes2_concat_1(Op2::SubSatS, a.0@, b.0@, c0@, a.1@, b.1@, c1@);
        }
        self.v512_from_v256x2(c0, c1)
    }

    fn i16x32_sub_sat(self, a: V512, b: V512) -> (r: V512)
        ensures
            lanes2(Op2::SubSatS, 2, a@, b@, r@),
    {
        let a = self.v512_to_v256x2(a);
        let b = self.v512_to_v256x2(b);
        let c0 = self.i16x16_sub_sat(a.0, b.0);
        let c1 = self.i16x16_sub_sat(a.1, b.1);
        proof {
            lemma_lanes2_concat_2(Op2::SubSatS, a.0@, b.0@, c0@, a.1@, b.1@, c1@);
        }
        self.v512_from_v256x2(c0, c1)
    }

    fn i16x32_mul_lo(self, a: V512, b: V512) -> (r: V512)
        ensures
            lanes2(Op2::MulLo, 2, a@, b@, r@),
    {
        let a = self.v512_to_v256x2(a);
        let b = self.v512_to_v256x2(b);
        let c0 = self.i16x16_mul_lo(a.0, b.0);
        let c1 = self.i16x16_mul_lo(a.1, b.1);
        proof {
            lemma_lanes2_concat_2(Op2::MulLo, a.0@, b.0@, c0@, a.1@, b.1@, c1@);
        }
        self.v512_from_v256x2(c0, c1)
    }

    fn i32x16_mul_lo(self, a: V512, b: V512) -> (r: V512)
        ensures
            lanes2(Op2::MulLo, 4, a@, b@, r@),
    {
        let a = self.v512_to_v256x2(a);
        let b = self.v512_to_v256x2(b);
        let c0 = self.i32x8_mul_lo(a.0, b.0);
        let c1 = self.i32x8_mul_lo(a.1, b.1);
        proof {
            lemma_lanes2_concat_4(Op2::MulLo, a.0@, b.0@, c0@, a.1@, b.1@, c1@);
        }
        self.v512_from_v256x2(c0, c1)
    }

    fn u8x64_eq(self, a: V512, b: V512) -> (r: V512)
        ensures
            lanes2(Op2::Eq, 1, a@, b@, r@),
    {
        let a = self.v512_to_v256x2(a);
        let b = self.v512_to_v256x2(b);
        let c0 = self.u8x32_eq(a.0, b.0);
        let c1 = self.u8x32_eq(a.1, b.1);
        proof {
            lemma_lanes2_concat_1(Op2::Eq, a.0@, b.0@, c0@, a.1@, b.1@, c1@);
        }
        self.v512_from_v256x2(c0, c1)
    }

    fn u16x32_eq(self, a: V512, b: V512) -> (r: V512)
        ensures
            lanes2(Op2::Eq, 2, a@, b@, r@),
    {
        let a = self.v512_to_v256x2(a);
        let b = self.v512_to_v256x2(b);
        let c0 = self.u16x16_eq(a.0, b.0);
        let c1 = self.u16x16_eq(a.1, b.1);
        proof {
            lemma_lanes2_concat_2(Op2::Eq, a.0@, b.0@, c0@, a.1@, b.1@, c1@);
        }
        self.v512_from_v256x2(c0, c1)
    }

    fn u32x16_eq(self, a: V512, b: V512) -> (r: V512)
        ensures
            lanes2(Op2::Eq, 4, a@, b@, r@),
    {
        let a = self.v512_to_v256x2(a);
        let b = self.v512_to_v256x2(b);
        let c0 = self.u32x8_eq(a.0, b.0);
        let c1 = self.u32x8_eq(a.1, b.1);
        proof {
            lemma_lanes2_concat_4(Op2::Eq, a.0@, b.0@, c0@, a.1@, b.1@, c1@);
        }
        self.v512_from_v256x2(c0, c1)
    }

    fn u8x64_lt(self, a: V512, b: V512) -> (r: V512)
        ensures
            lanes2(Op2::LtU, 1, a@, b@, r@),
    {
        let a = self.v512_to_v256x2(a);
        let b = self.v512_to_v256x2(b);
        let c0 = self.u8x32_lt(a.0, b.0);
        let c1 = self.u8x32_lt(a.1, b.1);
        proof {
            lemma_lanes2_concat_1(Op2::LtU, a.0@, b.0@, c0@, a.1@, b.1@, c1@);
        }
        self.v512_from_v256x2(c0, c1)
    }

    fn u16x32_lt(self, a: V512, b: V512) -> (r: V512)
        ensures
            lanes2(Op2::LtU, 2, a@, b@, r@),
    {
        let a = self.v512_to_v256x2(a);
        let b = self.v512_to_v256x2(b);
        let c0 = self.u16x16_lt(a.0, b.0);
        let c1 = self.u16x16_lt(a.1, b.1);
        proof {
            lemma_lanes2_concat_2(Op2::LtU, a.0@, b.0@, c0@, a.1@, b.1@, c1@);
        }
        self.v512_from_v256x2(c0, c1)
    }

    fn u32x16_lt(self, a: V512, b: V512) -> (r: V512)
        ensures
            lanes2(Op2::LtU, 4, a@, b@, r@),
    {
        let a = self.v512_to_v256x2(a);
        let b = self.v512_to_v256x2(b);
        let c0 = self.u32x8_lt(a.0, b.0);
        let c1 = self.u32x8_lt(a.1, b.1);
        proof {
            lemma_lanes2_concat_4(Op2::LtU, a.0@, b.0@, c0@, a.1@, b.1@, c1@);
        }
        self.v512_from_v256x2(c0, c1)
    }

    fn i8x64_lt(self, a: V512, b: V512) -> (r: V512)
        ensures
            lanes2(Op2::LtS, 1, a@, b@, r@),
    {
        let a = self.v512_to_v256x2(a);
        let b = self.v512_to_v256x2(b);
        let c0 = self.i8x32_lt(a.0, b.0);
        let c1 = self.i8x32_lt(a.1, b.1);
        proof {
            lemma_lanes2_concat_1(Op2::LtS, a.0@, b.0@, c0@, a.1@, b.1@, c1@);
        }
        self.v512_from_v256x2(c0, c1)
    }

    fn i16x32_lt(self, a: V512, b: V512) -> (r: V512)
        ensures
            lanes2(Op2::LtS, 2, a@, b@, r@),
    {
        let a = self.v512_to_v256x2(a);
        let b = self.v512_to_v256x2(b);
        let c0 = self.i16x16_lt(a.0, b.0);
        let c1 = self.i16x16_lt(a.1, b.1);
        proof {
            lemma_lanes2_concat_2(Op2::LtS, a.0@, b.0@, c0@, a.1@, b.1@, c1@);
        }
        self.v512_from_v256x2(c0, c1)
    }

    fn i32x16_lt(self, a: V512, b: V512) -> (r: V512)
        ensures
            lanes2(Op2::LtS, 4, a@, b@, r@),
    {
        let a = self.v512_to_v256x2(a);
        let b = self.v512_to_v256x2(b);
        let c0 = self.i32x8_lt(a.0, b.0);
        let c1 = self.i32x8_lt(a.1, b.1);
        proof {
            lemma_lanes2_concat_4(Op2::LtS, a.0@, b.0@, c0@, a.1@, b.1@, c1@);
        }
        self.v512_from_v256x2(c0, c1)
    }

    fn u8x64_max(self, a: V512, b: V512) -> (r: V512)
        ensures
            lanes2(Op2::MaxU, 1, a@, b@, r@),
    {
        let a = self.v512_to_v256x2(a);
        let b = self.v512_to_v256x2(b);
        let c0 = self.u8x32_max(a.0, b.0);
        let c1 = self.u8x32_max(a.1, b.1);
        proof {
            lemma_lanes2_concat_1(Op2::MaxU, a.0@, b.0@, c0@, a.1@, b.1@, c1@);
        }
        self.v512_from_v256x2(c0, c1)
    }

    fn u16x32_max(self, a: V512, b: V512) -> (r: V512)
        ensures
            lanes2(Op2::MaxU, 2, a@, b@, r@),
    {
        let a = self.v512_to_v256x2(a);
        let b = self.v512_to_v256x2(b);
        let c0 = self.u16x16_max(a.0, b.0);
        let c1 = self.u16x16_max(a.1, b.1);
        proof {
            lemma_lanes2_concat_2(Op2::MaxU, a.0@, b.0@, c0@, a.1@, b.1@, c1@);
        }
        self.v512_from_v256x2(c0, c1)
    }

    fn u32x16_max(self, a: V512, b: V512) -> (r: V512)
        ensures
            lanes2(Op2::MaxU, 4, a@, b@, r@),
    {
        let a = self.v512_to_v256x2(a);
        let b = self.v512_to_v256x2(b);
        let c0 = self.u32x8_max(a.0, b.0);
        let c1 = self.u32x8_max(a.1, b.1);
        proof {
            lemma_lanes2_concat_4(Op2::MaxU, a.0@, b.0@, c0@, a.1@, b.1@, c1@);
        }
        self.v512_from_v256x2(c0, c1)
    }

    fn i8x64_max(self, a: V512, b: V512) -> (r: V512)
        ensures
            lanes2(Op2::MaxS, 1, a@, b@, r@),
    {
        let a = self.v512_to_v256x2(a);
        let b = self.v512_to_v256x2(b);
        let c0 = self.i8x32_max(a.0, b.0);
        let c1 = self.i8x32_max(a.1, b.1);
        proof {
            lemma_lanes2_concat_1(Op2::MaxS, a.0@, b.0@, c0@, a.1@, b.1@, c1@);
        }
        self.v512_from_v256x2(c0, c1)
    }

    fn i16x32_max(self, a: V512, b: V512) -> (r: V512)
        ensures
            lanes2(Op2::MaxS, 2, a@, b@, r@),
    {
        let a = self.v512_to_v256x2(a);
        let b = self.v512_to_v256x2(b);
        let c0 = self.i16x16_max(a.0, b.0);
        let c1 = self.i16x16_max(a.1, b.1);
        proof {
            lemma_lanes2_concat_2(Op2::MaxS, a.0@, b.0@, c0@, a.1@, b.1@, c1@);
        }
        self.v512_from_v256x2(c0, c1)
    }

    fn i32x16_max(self, a: V512, b: V512) -> (r: V512)
        ensures
            lanes2(Op2::MaxS, 4, a@, b@, r@),
    {
        let a = self.v512_to_v256x2(a);
        let b = self.v512_to_v256x2(b);
        let c0 = self.i32x8_max(a.0, b.0);
        let c1 = self.i32x8_max(a.1, b.1);
        proof {
            lemma_lanes2_concat_4(Op2::MaxS, a.0@, b.0@, c0@, a.1@, b.1@, c1@);
        }
        self.v512_from_v256x2(c0, c1)
    }

    fn u8x64_min(self, a: V512, b: V512) -> (r: V512)
        ensures
            lanes2(Op2::MinU, 1, a@, b@, r@),
    {
        let a = self.v512_to_v256x2(a);
        let b = self.v512_to_v256x2(b);
        let c0 = self.u8x32_min(a.0, b.0);
        let c1 = self.u8x32_min(a.1, b.1);
        proof {
            lemma_lanes2_concat_1(Op2::MinU, a.0@, b.0@, c0@, a.1@, b.1@, c1@);
        }
        self.v512_from_v256x2(c0, c1)
    }

    fn u16x32_min(self, a: V512, b: V512) -> (r: V512)
        ensures
            lanes2(Op2::MinU, 2, a@, b@, r@),
    {
        let a = self.v512_to_v256x2(a);
        let b = self.v512_to_v256x2(b);
        let c0 = self.u16x16_min(a.0, b.0);
        let c1 = self.u16x16_min(a.1, b.1);
        proof {
            lemma_lanes2_concat_2(Op2::MinU, a.0@, b.0@, c0@, a.1@, b.1@, c1@);
        }
        self.v512_from_v256x2(c0, c1)
    }

    fn u32x16_min(self, a: V512, b: V512) -> (r: V512)
        ensures
            lanes2(Op2::MinU, 4, a@, b@, r@),
    {
        let a = self.v512_to_v256x2(a);
        let b = self.v512_to_v256x2(b);
        let c0 = self.u32x8_min(a.0, b.0);
        let c1 = self.u32x8_min(a.1, b.1);
        proof {
            lemma_lanes2_concat_4(Op2::MinU, a.0@, b.0@, c0@, a.1@, b.1@, c1@);
        }
        self.v512_from_v256x2(c0, c1)
    }

    fn i8x64_min(self, a: V512, b: V512) -> (r: V512)
        ensures
            lanes2(Op2::MinS, 1, a@, b@, r@),
    {
        let a = self.v512_to_v256x2(a);
        let b = self.v512_to_v256x2(b);
        let c0 = self.i8x32_min(a.0, b.0);
        let c1 = self.i8x32_min(a.1, b.1);
        proof {
            lemma_lanes2_concat_1(Op2::MinS, a.0@, b.0@, c0@, a.1@, b.1@, c1@);
        }
        self.v512_from_v256x2(c0, c1)
    }

    fn i16x32_min(self, a: V512, b: V512) -> (r: V512)
        ensures
            lanes2(Op2::MinS, 2, a@, b@, r@),
    {
        let a = self.v512_to_v256x2(a);
        let b = self.v512_to_v256x2(b);
        let c0 = self.i16x16_min(a.0, b.0);
        let c1 = self.i16x16_min(a.1, b.1);
        proof {
            lemma_lanes2_concat_2(Op2::MinS, a.0@, b.0@, c0@, a.1@, b.1@, c1@);
        }
        self.v512_from_v256x2(c0, c1)
    }

    fn i32x16_min(self, a: V512, b: V512) -> (r: V512)
        ensures
            lanes2(Op2::MinS, 4, a@, b@, r@),
    {
        let a = self.v512_to_v256x2(a);
        let b = self.v512_to_v256x2(b);
        let c0 = self.i32x8_min(a.0, b.0);
        let c1 = self.i32x8_min(a.1, b.1);
        proof {
            lemma_lanes2_concat_4(Op2::MinS, a.0@, b.0@, c0@, a.1@, b.1@, c1@);
        }
        self.v512_from_v256x2(c0, c1)
    }

    fn u16x32_bswap(self, a: V512) -> (r: V512)
        ensures
            bytes_reversed_in_lanes(2, a@, r@),
    {
        let a = self.v512_to_v256x2(a);
        let c0 = self.u16x16_bswap(a.0);
        let c1 = self.u16x16_bswap(a.1);
        proof {
            lemma_reversed_concat_2(a.0@, c0@, a.1@, c1@);
        }
        self.v512_from_v256x2(c0, c1)
    }

    fn u32x16_bswap(self, a: V512) -> (r: V512)
        ensures
            bytes_reversed_in_lanes(4, a@, r@),
    {
        let a = self.v512_to_v256x2(a);
        let c0 = self.u32x8_bswap(a.0);
        let c1 = self.u32x8_bswap(a.1);
        proof {
            lemma_reversed_concat_4(a.0@, c0@, a.1@, c1@);
        }
        self.v512_from_v256x2(c0, c1)
    }

    fn u64x8_bswap(self, a: V512) -> (r: V512)
        ensures
            bytes_reversed_in_lanes(8, a@, r@),
    {
        let a = self.v512_to_v256x2(a);
        let c0 = self.u64x4_bswap(a.0);
        let c1 = self.u64x4_bswap(a.1);
        proof {
            lemma_reversed_concat_8(a.0@, c0@, a.1@, c1@);
        }
        self.v512_from_v256x2(c0, c1)
    }

}

impl SIMD512 for Fallback {
    fn v512_from_v256x2(self, a: V256, b: V256) -> (r: V512) {
        V512 { lo: a, hi: b }
    }

    fn v512_to_v256x2(self, a: V512) -> (r: (V256, V256)) {
        (a.lo, a.hi)
    }

    fn v512_to_bytes(self, a: V512) -> (r: [u8; 64]) {
        let lo = self.v256_to_bytes(a.lo);
        let hi = self.v256_to_bytes(a.hi);
        let mut out = [0u8; 64];
        let mut i: usize = 0;
        while i < 32
            invariant
                i <= 32,
                lo@ == a.lo@,
                hi@ == a.hi@,
                forall|j: int| 0 <= j < i ==> out@[j] == a.lo@[j] && out@[j + 32] == a.hi@[j],
            decreases 32 - i,
        {
            out[i] = lo[i];
            out[i + 32] = hi[i];
            i += 1;
        }
        assert(out@ =~= a@);
        out
    }
}

} // verus!
