//! Free-standing 256-bit operations built from 128-bit halves, for
//! instruction sets without native 256-bit vectors.
use vstd::prelude::*;

use super::SIMD256;
use crate::vector::{
    bytes_reversed_in_lanes, from_signed, lanes1, lanes2, lemma_lanes1_concat_2,
    lemma_lanes1_concat_4, lemma_lanes2_concat_1, lemma_lanes2_concat_2, lemma_lanes2_concat_4,
    lemma_lanes2_concat_8, lemma_reversed_concat_2, lemma_reversed_concat_4,
    lemma_reversed_concat_8, lemma_splat_concat_1, lemma_splat_concat_2, lemma_splat_concat_4,
    lemma_splat_concat_8, splat, Op1, Op2, V256,
};

verus! {

/// Shifts each 16-bit lane left by `IMM8` bits, dropping the bits that leave it.
pub fn u16x16_shl<S: SIMD256, const IMM8: u32>(s: S, a: V256) -> (r: V256)
    requires
        IMM8 < 16,
    ensures
        lanes1(Op1::Shl(IMM8), 2, a@, r@),
{
    let a = s.v256_to_v128x2(a);
    let c0 = s.u16x8_shl::<IMM8>(a.0);
    let c1 = s.u16x8_shl::<IMM8>(a.1);
    proof {
        lemma_lanes1_concat_2(Op1::Shl(IMM8), a.0@, c0@, a.1@, c1@);
    }
    s.v256_from_v128x2(c0, c1)
}

/// Shifts each 32-bit lane left by `IMM8` bits, dropping the bits that leave it.
pub fn u32x8_shl<S: SIMD256, const IMM8: u32>(s: S, a: V256) -> (r: V256)
    requires
        IMM8 < 32,
    ensures
        lanes1(Op1::Shl(IMM8), 4, a@, r@),
{
    let a = s.v256_to_v128x2(a);
    let c0 = s.u32x4_shl::<IMM8>(a.0);
    let c1 = s.u32x4_shl::<IMM8>(a.1);
    proof {
        lemma_lanes1_concat_4(Op1::Shl(IMM8), a.0@, c0@, a.1@, c1@);
    }
    s.v256_from_v128x2(c0, c1)
}

/// Shifts each 16-bit lane right by `IMM8` bits, filling with zeros.
pub fn u16x16_shr<S: SIMD256, const IMM8: u32>(s: S, a: V256) -> (r: V256)
    requires
        IMM8 < 16,
    ensures
        lanes1(Op1::Shr(IMM8), 2, a@, r@),
{
    let a = s.v256_to_v128x2(a);
    let c0 = s.u16x8_shr::<IMM8>(a.0);
    let c1 = s.u16x8_shr::<IMM8>(a.1);
    proof {
        lemma_lanes1_concat_2(Op1::Shr(IMM8), a.0@, c0@, a.1@, c1@);
    }
    s.v256_from_v128x2(c0, c1)
}

/// Shifts each 32-bit lane right by `IMM8` bits, filling with zeros.
pub fn u32x8_shr<S: SIMD256, const IMM8: u32>(s: S, a: V256) -> (r: V256)
    requires
        IMM8 < 32,
    ensures
        lanes1(Op1::Shr(IMM8), 4, a@, r@),
{
    let a = s.v256_to_v128x2(a);
    let c0 = s.u32x4_shr::<IMM8>(a.0);
    let c1 = s.u32x4_shr::<IMM8>(a.1);
    proof {
        lemma_lanes1_concat_4(Op1::Shr(IMM8), a.0@, c0@, a.1@, c1@);
    }
    s.v256_from_v128x2(c0, c1)
}

/// Every 8-bit lane set to `x`.
pub fn u8x32_splat<S: SIMD256>(s: S, x: u8) -> (r: V256)
    ensures
        splat(1, x as int, r@),
{
    let c = s.u8x16_splat(x);
    proof {
        lemma_splat_concat_1(x as int, c@, c@);
    }
    s.v256_from_v128x2(c, c)
}

/// Every 16-bit lane set to `x`.
pub fn u16x16_splat<S: SIMD256>(s: S, x: u16) -> (r: V256)
    ensures
        splat(2, x as int, r@),
{
    let c = s.u16x8_splat(x);
    proof {
        lemma_splat_concat_2(x as int, c@, c@);
    }
    s.v256_from_v128x2(c, c)
}

/// Every 32-bit lane set to `x`.
pub fn u32x8_splat<S: SIMD256>(s: S, x: u32) -> (r: V256)
    ensures
        splat(4, x as int, r@),
{
    let c = s.u32x4_splat(x);
    proof {
        lemma_splat_concat_4(x as int, c@, c@);
    }
    s.v256_from_v128x2(c, c)
}

/// Every 64-bit lane set to `x`.
pub fn u64x4_splat<S: SIMD256>(s: S, x: u64) -> (r: V256)
    ensures
        splat(8, x as int, r@),
{
    let c = s.u64x2_splat(x);
    proof {
        lemma_splat_concat_8(x as int, c@, c@);
    }
    s.v256_from_v128x2(c, c)
}

/// Every 8-bit lane set to `x`.
pub fn i8x32_splat<S: SIMD256>(s: S, x: i8) -> (r: V256)
    ensures
        splat(1, from_signed(1, x as int), r@),
{
    let c = s.i8x16_splat(x);
    proof {
        lemma_splat_concat_1(from_signed(1, x as int), c@, c@);
    }
    s.v256_from_v128x2(c, c)
}

/// Every 16-bit lane set to `x`.
pub fn i16x16_splat<S: SIMD256>(s: S, x: i16) -> (r: V256)
    ensures
        splat(2, from_signed(2, x as int), r@),
{
    let c = s.i16x8_splat(x);
    proof {
        lemma_splat_concat_2(from_signed(2, x as int), c@, c@);
    }
    s.v256_from_v128x2(c, c)
}

/// Every 32-bit lane set to `x`.
pub fn i32x8_splat<S: SIMD256>(s: S, x: i32) -> (r: V256)
    ensures
        splat(4, from_signed(4, x as int), r@),
{
    let c = s.i32x4_splat(x);
    proof {
        lemma_splat_concat_4(from_signed(4, x as int), c@, c@);
    }
    s.v256_from_v128x2(c, c)
}

/// Every 64-bit lane set to `x`.
pub fn i64x4_splat<S: SIMD256>(s: S, x: i64) -> (r: V256)
    ensures
        splat(8, from_signed(8, x as int), r@),
{
    let c = s.i64x2_splat(x);
    proof {
        lemma_splat_concat_8(from_signed(8, x as int), c@, c@);
    }
    s.v256_from_v128x2(c, c)
}

/// Lane-wise unsigned 8-bit addition, wrapping around.
pub fn u8x32_add<S: SIMD256>(s: S, a: V256, b: V256) -> (r: V256)
    ensures
        lanes2(Op2::Add, 1, a@, b@, r@),
{
    let a = s.v256_to_v128x2(a);
    let b = s.v256_to_v128x2(b);
    let c0 = s.u8x16_add(a.0, b.0);
    let c1 = s.u8x16_add(a.1, b.1);
    proof {
        lemma_lanes2_concat_1(Op2::Add, a.0@, b.0@, c0@, a.1@, b.1@, c1@);
    }
    s.v256_from_v128x2(c0, c1)
}

/// Lane-wise unsigned 16-bit addition, wrapping around.
pub fn u16x16_add<S: SIMD256>(s: S, a: V256, b: V256) -> (r: V256)
    ensures
        lanes2(Op2::Add, 2, a@, b@, r@),
{
    let a = s.v256_to_v128x2(a);
    let b = s.v256_to_v128x2(b);
    let c0 = s.u16x8_add(a.0, b.0);
    let c1 = s.u16x8_add(a.1, b.1);
    proof {
        lemma_lanes2_concat_2(Op2::Add, a.0@, b.0@, c0@, a.1@, b.1@, c1@);
    }
    s.v256_from_v128x2(c0, c1)
}

/// Lane-wise unsigned 32-bit addition, wrapping around.
pub fn u32x8_add<S: SIMD256>(s: S, a: V256, b: V256) -> (r: V256)
    ensures
        lanes2(Op2::Add, 4, a@, b@, r@),
{
    let a = s.v256_to_v128x2(a);
    let b = s.v256_to_v128x2(b);
    let c0 = s.u32x4_add(a.0, b.0);
    let c1 = s.u32x4_add(a.1, b.1);
    proof {
        lemma_lanes2_concat_4(Op2::Add, a.0@, b.0@, c0@, a.1@, b.1@, c1@);
    }
    s.v256_from_v128x2(c0, c1)
}

/// Lane-wise unsigned 64-bit addition, wrapping around.
pub fn u64x4_add<S: SIMD256>(s: S, a: V256, b: V256) -> (r: V256)
    ensures
        lanes2(Op2::Add, 8, a@, b@, r@),
{
    let a = s.v256_to_v128x2(a);
    let b = s.v256_to_v128x2(b);
    let c0 = s.u64x2_add(a.0, b.0);
    let c1 = s.u64x2_add(a.1, b.1);
    proof {
        lemma_lanes2_concat_8(Op2::Add, a.0@, b.0@, c0@, a.1@, b.1@, c1@);
    }
    s.v256_from_v128x2(c0, c1)
}

/// Lane-wise unsigned 8-bit subtraction, wrapping around.
pub fn u8x32_sub<S: SIMD256>(s: S, a: V256, b: V256) -> (r: V256)
    ensures
        lanes2(Op2::Sub, 1, a@, b@, r@),
{
    let a = s.v256_to_v128x2(a);
    let b = s.v256_to_v128x2(b);
    let c0 = s.u8x16_sub(a.0, b.0);
    let c1 = s.u8x16_sub(a.1, b.1);
    proof {
        lemma_lanes2_concat_1(Op2::Sub, a.0@, b.0@, c0@, a.1@, b.1@, c1@);
    }
    s.v256_from_v128x2(c0, c1)
}

/// Lane-wise unsigned 16-bit subtraction, wrapping around.
pub fn u16x16_sub<S: SIMD256>(s: S, a: V256, b: V256) -> (r: V256)
    ensures
        lanes2(Op2::Sub, 2, a@, b@, r@),
{
    let a = s.v256_to_v128x2(a);
    let b = s.v256_to_v128x2(b);
    let c0 = s.u16x8_sub(a.0, b.0);
    let c1 = s.u16x8_sub(a.1, b.1);
    proof {
        lemma_lanes2_concat_2(Op2::Sub, a.0@, b.0@, c0@, a.1@, b.1@, c1@);
    }
    s.v256_from_v128x2(c0, c1)
}

/// Lane-wise unsigned 32-bit subtraction, wrapping around.
pub fn u32x8_sub<S: SIMD256>(s: S, a: V256, b: V256) -> (r: V256)
    ensures
        lanes2(Op2::Sub, 4, a@, b@, r@),
{
    let a = s.v256_to_v128x2(a);
    let b = s.v256_to_v128x2(b);
    let c0 = s.u32x4_sub(a.0, b.0);
    let c1 = s.u32x4_sub(a.1, b.1);
    proof {
        lemma_lanes2_concat_4(Op2::Sub, a.0@, b.0@, c0@, a.1@, b.1@, c1@);
    }
    s.v256_from_v128x2(c0, c1)
}

/// Lane-wise unsigned 64-bit subtraction, wrapping around.
pub fn u64x4_sub<S: SIMD256>(s: S, a: V256, b: V256) -> (r: V256)
    ensures
        lanes2(Op2::Sub, 8, a@, b@, r@),
{
    let a = s.v256_to_v128x2(a);
    let b = s.v256_to_v128x2(b);
    let c0 = s.u64x2_sub(a.0, b.0);
    let c1 = s.u64x2_sub(a.1, b.1);
    proof {
        lemma_lanes2_concat_8(Op2::Sub, a.0@, b.0@, c0@, a.1@, b.1@, c1@);
    }
    s.v256_from_v128x2(c0, c1)
}

/// Lane-wise unsigned 8-bit subtraction, saturating at the ends of the range.
pub fn u8x32_sub_sat<S: SIMD256>(s: S, a: V256, b: V256) -> (r: V256)
    ensures
        lanes2(Op2::SubSatU, 1, a@, b@, r@),
{
    let a = s.v256_to_v128x2(a);
    let b = s.v256_to_v128x2(b);
    let c0 = s.u8x16_sub_sat(a.0, b.0);
    let c1 = s.u8x16_sub_sat(a.1, b.1);
    proof {
        lemma_lanes2_concat_1(Op2::SubSatU, a.0@, b.0@, c0@, a.1@, b.1@, c1@);
    }
    s.v256_from_v128x2(c0, c1)
}

/// Lane-wise unsigned 16-bit subtraction, saturating at the ends of the range.
pub fn u16x16_sub_sat<S: SIMD256>(s: S, a: V256, b: V256) -> (r: V256)
    ensures
        lanes2(Op2::SubSatU, 2, a@, b@, r@),
{
    let a = s.v256_to_v128x2(a);
    let b = s.v256_to_v128x2(b);
    let c0 = s.u16x8_sub_sat(a.0, b.0);
    let c1 = s.u16x8_sub_sat(a.1, b.1);
    proof {
        lemma_lanes2_concat_2(Op2::SubSatU, a.0@, b.0@, c0@, a.1@, b.1@, c1@);
    }
    s.v256_from_v128x2(c0, c1)
}

/// Lane-wise signed 8-bit subtraction, saturating at the ends of the range.
pub fn i8x32_sub_sat<S: SIMD256>(s: S, a: V256, b: V256) -> (r: V256)
    ensures
        lanes2(Op2::SubSatS, 1, a@, b@, r@),
{
    let a = s.v256_to_v128x2(a);
    let b = s.v256_to_v128x2(b);
    let c0 = s.i8x16_sub_sat(a.0, b.0);
    let c1 = s.i8x16_sub_sat(a.1, b.1);
    proof {
        lemma_lanes2_concat_1(Op2::SubSatS, a.0@, b.0@, c0@, a.1@, b.1@, c1@);
    }
    s.v256_from_v128x2(c0, c1)
}

/// Lane-wise signed 16-bit subtraction, saturating at the ends of the range.
pub fn i16x16_sub_sat<S: SIMD256>(s: S, a: V256, b: V256) -> (r: V256)
    ensures
        lanes2(Op2::SubSatS, 2, a@, b@, r@),
{
    let a = s.v256_to_v128x2(a);
    let b = s.v256_to_v128x2(b);
    let c0 = s.i16x8_sub_sat(a.0, b.0);
    let c1 = s.i16x8_sub_sat(a.1, b.1);
    proof {
        lemma_lanes2_concat_2(Op2::SubSatS, a.0@, b.0@, c0@, a.1@, b.1@, c1@);
    }
    s.v256_from_v128x2(c0, c1)
}

/// Lane-wise unsigned 8-bit equality: all ones where equal, else zero.
pub fn u8x32_eq<S: SIMD256>(s: S, a: V256, b: V256) -> (r: V256)
    ensures
        lanes2(Op2::Eq, 1, a@, b@, r@),
{
    let a = s.v256_to_v128x2(a);
    let b = s.v256_to_v128x2(b);
    let c0 = s.u8x16_eq(a.0, b.0);
    let c1 = s.u8x16_eq(a.1, b.1);
    proof {
        lemma_lanes2_concat_1(Op2::Eq, a.0@, b.0@, c0@, a.1@, b.1@, c1@);
    }
    s.v256_from_v128x2(c0, c1)
}

/// Lane-wise unsigned 16-bit equality: all ones where equal, else zero.
pub fn u16x16_eq<S: SIMD256>(s: S, a: V256, b: V256) -> (r: V256)
    ensures
        lanes2(Op2::Eq, 2, a@, b@, r@),
{
    let a = s.v256_to_v128x2(a);
    let b = s.v256_to_v128x2(b);
    let c0 = s.u16x8_eq(a.0, b.0);
    let c1 = s.u16x8_eq(a.1, b.1);
    proof {
        lemma_lanes2_concat_2(Op2::Eq, a.0@, b.0@, c0@, a.1@, b.1@, c1@);
    }
    s.v256_from_v128x2(c0, c1)
}

/// Lane-wise unsigned 32-bit equality: all ones where equal, else zero.
pub fn u32x8_eq<S: SIMD256>(s: S, a: V256, b: V256) -> (r: V256)
    ensures
        lanes2(Op2::Eq, 4, a@, b@, r@),
{
    let a = s.v256_to_v128x2(a);
    let b = s.v256_to_v128x2(b);
    let c0 = s.u32x4_eq(a.0, b.0);
    let c1 = s.u32x4_eq(a.1, b.1);
    proof {
        lemma_lanes2_concat_4(Op2::Eq, a.0@, b.0@, c0@, a.1@, b.1@, c1@);
    }
    s.v256_from_v128x2(c0, c1)
}

/// Lane-wise unsigned 8-bit less-than: all ones where `a` is below `b`, else zero.
pub fn u8x32_lt<S: SIMD256>(s: S, a: V256, b: V256) -> (r: V256)
    ensures
        lanes2(Op2::LtU, 1, a@, b@, r@),
{
    let a = s.v256_to_v128x2(a);
    let b = s.v256_to_v128x2(b);
    let c0 = s.u8x16_lt(a.0, b.0);
    let c1 = s.u8x16_lt(a.1, b.1);
    proof {
        lemma_lanes2_concat_1(Op2::LtU, a.0@, b.0@, c0@, a.1@, b.1@, c1@);
    }
    s.v256_from_v128x2(c0, c1)
}

/// Lane-wise unsigned 16-bit less-than: all ones where `a` is below `b`, else zero.
pub fn u16x16_lt<S: SIMD256>(s: S, a: V256, b: V256) -> (r: V256)
    ensures
        lanes2(Op2::LtU, 2, a@, b@, r@),
{
    let a = s.v256_to_v128x2(a);
    let b = s.v256_to_v128x2(b);
    let c0 = s.u16x8_lt(a.0, b.0);
    let c1 = s.u16x8_lt(a.1, b.1);
    proof {
        lemma_lanes2_concat_2(Op2::LtU, a.0@, b.0@, c0@, a.1@, b.1@, c1@);
    }
    s.v256_from_v128x2(c0, c1)
}

/// Lane-wise unsigned 32-bit less-than: all ones where `a` is below `b`, else zero.
pub fn u32x8_lt<S: SIMD256>(s: S, a: V256, b: V256) -> (r: V256)
    ensures
        lanes2(Op2::LtU, 4, a@, b@, r@),
{
    let a = s.v256_to_v128x2(a);
    let b = s.v256_to_v128x2(b);
    let c0 = s.u32x4_lt(a.0, b.0);
    let c1 = s.u32x4_lt(a.1, b.1);
    proof {
        lemma_lanes2_concat_4(Op2::LtU, a.0@, b.0@, c0@, a.1@, b.1@, c1@);
    }
    s.v256_from_v128x2(c0, c1)
}

/// Lane-wise signed 8-bit less-than: all ones where `a` is below `b`, else zero.
pub fn i8x32_lt<S: SIMD256>(s: S, a: V256, b: V256) -> (r: V256)
    ensures
        lanes2(Op2::LtS, 1, a@, b@, r@),
{
    let a = s.v256_to_v128x2(a);
    let b = s.v256_to_v128x2(b);
    let c0 = s.i8x16_lt(a.0, b.0);
    let c1 = s.i8x16_lt(a.1, b.1);
    proof {
        lemma_lanes2_concat_1(Op2::LtS, a.0@, b.0@, c0@, a.1@, b.1@, c1@);
    }
    s.v256_from_v128x2(c0, c1)
}

/// Lane-wise signed 16-bit less-than: all ones where `a` is below `b`, else zero.
pub fn i16x16_lt<S: SIMD256>(s: S, a: V256, b: V256) -> (r: V256)
    ensures
        lanes2(Op2::LtS, 2, a@, b@, r@),
{
    let a = s.v256_to_v128x2(a);
    let b = s.v256_to_v128x2(b);
    let c0 = s.i16x8_lt(a.0, b.0);
    let c1 = s.i16x8_lt(a.1, b.1);
    proof {
        lemma_lanes2_concat_2(Op2::LtS, a.0@, b.0@, c0@, a.1@, b.1@, c1@);
    }
    s.v256_from_v128x2(c0, c1)
}

/// Lane-wise signed 32-bit less-than: all ones where `a` is below `b`, else zero.
pub fn i32x8_lt<S: SIMD256>(s: S, a: V256, b: V256) -> (r: V256)
    ensures
        lanes2(Op2::LtS, 4, a@, b@, r@),
{
    let a = s.v256_to_v128x2(a);
    let b = s.v256_to_v128x2(b);
    let c0 = s.i32x4_lt(a.0, b.0);
    let c1 = s.i32x4_lt(a.1, b.1);
    proof {
        lemma_lanes2_concat_4(Op2::LtS, a.0@, b.0@, c0@, a.1@, b.1@, c1@);
    }
    s.v256_from_v128x2(c0, c1)
}

/// Lane-wise unsigned 8-bit maximum.
pub fn u8x32_max<S: SIMD256>(s: S, a: V256, b: V256) -> (r: V256)
    ensures
        lanes2(Op2::MaxU, 1, a@, b@, r@),
{
    let a = s.v256_to_v128x2(a);
    let b = s.v256_to_v128x2(b);
    let c0 = s.u8x16_max(a.0, b.0);
    let c1 = s.u8x16_max(a.1, b.1);
    proof {
        lemma_lanes2_concat_1(Op2::MaxU, a.0@, b.0@, c0@, a.1@, b.1@, c1@);
    }
    s.v256_from_v128x2(c0, c1)
}

/// Lane-wise unsigned 16-bit maximum.
pub fn u16x16_max<S: SIMD256>(s: S, a: V256, b: V256) -> (r: V256)
    ensures
        lanes2(Op2::MaxU, 2, a@, b@, r@),
{
    let a = s.v256_to_v128x2(a);
    let b = s.v256_to_v128x2(b);
    let c0 = s.u16x8_max(a.0, b.0);
    let c1 = s.u16x8_max(a.1, b.1);
    proof {
        lemma_lanes2_concat_2(Op2::MaxU, a.0@, b.0@, c0@, a.1@, b.1@, c1@);
    }
    s.v256_from_v128x2(c0, c1)
}

/// Lane-wise unsigned 32-bit maximum.
pub fn u32x8_max<S: SIMD256>(s: S, a: V256, b: V256) -> (r: V256)
    ensures
        lanes2(Op2::MaxU, 4, a@, b@, r@),
{
    let a = s.v256_to_v128x2(a);
    let b = s.v256_to_v128x2(b);
    let c0 = s.u32x4_max(a.0, b.0);
    let c1 = s.u32x4_max(a.1, b.1);
    proof {
        lemma_lanes2_concat_4(Op2::MaxU, a.0@, b.0@, c0@, a.1@, b.1@, c1@);
    }
    s.v256_from_v128x2(c0, c1)
}

/// Lane-wise signed 8-bit maximum.
pub fn i8x32_max<S: SIMD256>(s: S, a: V256, b: V256) -> (r: V256)
    ensures
        lanes2(Op2::MaxS, 1, a@, b@, r@),
{
    let a = s.v256_to_v128x2(a);
    let b = s.v256_to_v128x2(b);
    let c0 = s.i8x16_max(a.0, b.0);
    let c1 = s.i8x16_max(a.1, b.1);
    proof {
        lemma_lanes2_concat_1(Op2::MaxS, a.0@, b.0@, c0@, a.1@, b.1@, c1@);
    }
    s.v256_from_v128x2(c0, c1)
}

/// Lane-wise signed 16-bit maximum.
pub fn i16x16_max<S: SIMD256>(s: S, a: V256, b: V256) -> (r: V256)
    ensures
        lanes2(Op2::MaxS, 2, a@, b@, r@),
{
    let a = s.v256_to_v128x2(a);
    let b = s.v256_to_v128x2(b);
    let c0 = s.i16x8_max(a.0, b.0);
    let c1 = s.i16x8_max(a.1, b.1);
    proof {
        lemma_lanes2_concat_2(Op2::MaxS, a.0@, b.0@, c0@, a.1@, b.1@, c1@);
    }
    s.v256_from_v128x2(c0, c1)
}

/// Lane-wise signed 32-bit maximum.
pub fn i32x8_max<S: SIMD256>(s: S, a: V256, b: V256) -> (r: V256)
    ensures
        lanes2(Op2::MaxS, 4, a@, b@, r@),
{
    let a = s.v256_to_v128x2(a);
    let b = s.v256_to_v128x2(b);
    let c0 = s.i32x4_max(a.0, b.0);
    let c1 = s.i32x4_max(a.1, b.1);
    proof {
        lemma_lanes2_concat_4(Op2::MaxS, a.0@, b.0@, c0@, a.1@, b.1@, c1@);
    }
    s.v256_from_v128x2(c0, c1)
}

/// Lane-wise unsigned 8-bit minimum.
pub fn u8x32_min<S: SIMD256>(s: S, a: V256, b: V256) -> (r: V256)
    ensures
        lanes2(Op2::MinU, 1, a@, b@, r@),
{
    let a = s.v256_to_v128x2(a);
    let b = s.v256_to_v128x2(b);
    let c0 = s.u8x16_min(a.0, b.0);
    let c1 = s.u8x16_min(a.1, b.1);
    proof {
        lemma_lanes2_concat_1(Op2::MinU, a.0@, b.0@, c0@, a.1@, b.1@, c1@);
    }
    s.v256_from_v128x2(c0, c1)
}

/// Lane-wise unsigned 16-bit minimum.
pub fn u16x16_min<S: SIMD256>(s: S, a: V256, b: V256) -> (r: V256)
    ensures
        lanes2(Op2::MinU, 2, a@, b@, r@),
{
    let a = s.v256_to_v128x2(a);
    let b = s.v256_to_v128x2(b);
    let c0 = s.u16x8_min(a.0, b.0);
    let c1 = s.u16x8_min(a.1, b.1);
    proof {
        lemma_lanes2_concat_2(Op2::MinU, a.0@, b.0@, c0@, a.1@, b.1@, c1@);
    }
    s.v256_from_v128x2(c0, c1)
}

/// Lane-wise unsigned 32-bit minimum.
pub fn u32x8_min<S: SIMD256>(s: S, a: V256, b: V256) -> (r: V256)
    ensures
        lanes2(Op2::MinU, 4, a@, b@, r@),
{
    let a = s.v256_to_v128x2(a);
    let b = s.v256_to_v128x2(b);
    let c0 = s.u32x4_min(a.0, b.0);
    let c1 = s.u32x4_min(a.1, b.1);
    proof {
        lemma_lanes2_concat_4(Op2::MinU, a.0@, b.0@, c0@, a.1@, b.1@, c1@);
    }
    s.v256_from_v128x2(c0, c1)
}

/// Lane-wise signed 8-bit minimum.
pub fn i8x32_min<S: SIMD256>(s: S, a: V256, b: V256) -> (r: V256)
    ensures
        lanes2(Op2::MinS, 1, a@, b@, r@),
{
    let a = s.v256_to_v128x2(a);
    let b = s.v256_to_v128x2(b);
    let c0 = s.i8x16_min(a.0, b.0);
    let c1 = s.i8x16_min(a.1, b.1);
    proof {
        lemma_lanes2_concat_1(Op2::MinS, a.0@, b.0@, c0@, a.1@, b.1@, c1@);
    }
    s.v256_from_v128x2(c0, c1)
}

/// Lane-wise signed 16-bit minimum.
pub fn i16x16_min<S: SIMD256>(s: S, a: V256, b: V256) -> (r: V256)
    ensures
        lanes2(Op2::MinS, 2, a@, b@, r@),
{
    let a = s.v256_to_v128x2(a);
    let b = s.v256_to_v128x2(b);
    let c0 = s.i16x8_min(a.0, b.0);
    let c1 = s.i16x8_min(a.1, b.1);
    proof {
        lemma_lanes2_concat_2(Op2::MinS, a.0@, b.0@, c0@, a.1@, b.1@, c1@);
    }
    s.v256_from_v128x2(c0, c1)
}

/// Lane-wise signed 32-bit minimum.
pub fn i32x8_min<S: SIMD256>(s: S, a: V256, b: V256) -> (r: V256)
    ensures
        lanes2(Op2::MinS, 4, a@, b@, r@),
{
    let a = s.v256_to_v128x2(a);
    let b = s.v256_to_v128x2(b);
    let c0 = s.i32x4_min(a.0, b.0);
    let c1 = s.i32x4_min(a.1, b.1);
    proof {
        lemma_lanes2_concat_4(Op2::MinS, a.0@, b.0@, c0@, a.1@, b.1@, c1@);
    }
    s.v256_from_v128x2(c0, c1)
}

/// Reverses the byte order of each 16-bit lane.
pub fn u16x16_bswap<S: SIMD256>(s: S, a: V256) -> (r: V256)
    ensures
        bytes_reversed_in_lanes(2, a@, r@),
{
    let a = s.v256_to_v128x2(a);
    let c0 = s.u16x8_bswap(a.0);
    let c1 = s.u16x8_bswap(a.1);
    proof {
        lemma_reversed_concat_2(a.0@, c0@, a.1@, c1@);
    }
    s.v256_from_v128x2(c0, c1)
}

/// Reverses the byte order of each 32-bit lane.
pub fn u32x8_bswap<S: SIMD256>(s: S, a: V256) -> (r: V256)
    ensures
        bytes_reversed_in_lanes(4, a@, r@),
{
    let a = s.v256_to_v128x2(a);
    let c0 = s.u32x4_bswap(a.0);
    let c1 = s.u32x4_bswap(a.1);
    proof {
        lemma_reversed_concat_4(a.0@, c0@, a.1@, c1@);
    }
    s.v256_from_v128x2(c0, c1)
}

/// Reverses the byte order of each 64-bit lane.
pub fn u64x4_bswap<S: SIMD256>(s: S, a: V256) -> (r: V256)
    ensures
        bytes_reversed_in_lanes(8, a@, r@),
{
    let a = s.v256_to_v128x2(a);
    let c0 = s.u64x2_bswap(a.0);
    let c1 = s.u64x2_bswap(a.1);
    proof {
        lemma_reversed_concat_8(a.0@, c0@, a.1@, c1@);
    }
    s.v256_from_v128x2(c0, c1)
}

} // verus!
