//! Loading constant blocks, and the wider arithmetic and blending steps that
//! some instruction sets offer beyond [`SIMD128`] and [`SIMD256`].
use vstd::prelude::*;

use super::mock::{simd256_vop2, simd256_vop3};
use super::{Fallback, InstructionSet, SIMD128, SIMD256};
use crate::bits::lemma_u16_bits;
use crate::scalar::{Bytes16, Bytes32};
use crate::vector::{clamp_signed, from_signed, lane16, lemma_u16_bytes, to_signed, V128, V256};

verus! {

/// Loading a constant block into a vector of its size.
pub trait SimdLoad<T>: InstructionSet {
    /// The vector type that the block fills.
    type Output;

    /// Loads `src`.
    fn load(self, src: T) -> Self::Output;
}

impl<'a, S: SIMD128> SimdLoad<&'a Bytes16> for S {
    type Output = V128;

    fn load(self, src: &'a Bytes16) -> (r: V128)
        ensures
            r@ == src.0@,
    {
        self.v128_load(src)
    }
}

impl<'a, S: SIMD256> SimdLoad<&'a Bytes32> for S {
    type Output = V256;

    fn load(self, src: &'a Bytes32) -> (r: V256)
        ensures
            r@ == src.0@,
    {
        self.v256_load(src)
    }
}

/// The high 16 bits of the product of two signed 16-bit lane values, as an
/// unsigned lane value.
pub open spec fn mul_hi_i16(x: int, y: int) -> int {
    from_signed(2, (to_signed(2, x) * to_signed(2, y)) / 0x1_0000)
}

/// The high 16 bits of the product of two unsigned 16-bit lane values.
pub open spec fn mul_hi_u16(x: int, y: int) -> int {
    (x * y) / 0x1_0000
}

/// The products of unsigned bytes `a0`, `a1` with signed bytes `b0`, `b1`,
/// added with signed 16-bit saturation, as an unsigned lane value.
pub open spec fn maddubs(a0: u8, b0: u8, a1: u8, b1: u8) -> int {
    from_signed(2, clamp_signed(2, a0 * to_signed(1, b0 as int) + a1 * to_signed(1, b1 as int)))
}

/// Whether bit `k` of `imm8` is set.
pub open spec fn imm_bit(imm8: u32, k: int) -> bool {
    (imm8 >> (k as u32)) & 1 == 1
}

/// Multiplication, blending and multiply-add steps on 128-bit vectors.
pub trait SIMD128Ext: SIMD128 {
    /// The high halves of the signed products of the 16-bit lanes.
    fn i16x8_mul_hi(self, a: V128, b: V128) -> (r: V128)
        ensures
            forall|k: int| 0 <= k < 8 ==> #[trigger] lane16(r@, k) == mul_hi_i16(lane16(a@, k), lane16(b@, k)),
    ;

    /// The high halves of the unsigned products of the 16-bit lanes.
    fn u16x8_mul_hi(self, a: V128, b: V128) -> (r: V128)
        ensures
            forall|k: int| 0 <= k < 8 ==> #[trigger] lane16(r@, k) == mul_hi_u16(lane16(a@, k), lane16(b@, k)),
    ;

    /// Each byte from `b` where the matching byte of `m` has its high bit
    /// set, else from `a`.
    fn u8x16_blendv(self, a: V128, b: V128, m: V128) -> (r: V128)
        ensures
            forall|i: int| 0 <= i < 16 ==> #[trigger] r@[i] == if m@[i] >= 0x80 { b@[i] } else { a@[i] },
    ;

    /// Unsigned bytes of `a` times signed bytes of `b`, adjacent products
    /// added with signed saturation into 16-bit lanes.
    fn i16x8_maddubs(self, a: V128, b: V128) -> (r: V128)
        ensures
            forall|k: int|
                0 <= k < 8 ==> #[trigger] lane16(r@, k) == maddubs(a@[2 * k], b@[2 * k], a@[2 * k + 1], b@[2 * k + 1]),
    ;

    /// Each 32-bit lane `k` from `b` where bit `k` of `IMM8` is set, else from
    /// `a`.
    fn u32x4_blend<const IMM8: u32>(self, a: V128, b: V128) -> (r: V128)
        ensures
            forall|i: int| 0 <= i < 16 ==> #[trigger] r@[i] == if imm_bit(IMM8, i / 4) { b@[i] } else { a@[i] },
    ;
}

/// The same steps on 256-bit vectors, by halves unless an instruction set
/// does better.
pub trait SIMD256Ext: SIMD256 + SIMD128Ext {
    /// The high halves of the signed products of the 16-bit lanes.
    fn i16x16_mul_hi(self, a: V256, b: V256) -> (r: V256)
        ensures
            forall|k: int| 0 <= k < 16 ==> #[trigger] lane16(r@, k) == mul_hi_i16(lane16(a@, k), lane16(b@, k)),
    {
        let f = |s: Self, x: V128, y: V128| -> (z: V128)
            ensures
                forall|k: int| 0 <= k < 8 ==> #[trigger] lane16(z@, k) == mul_hi_i16(lane16(x@, k), lane16(y@, k)),
            { s.i16x8_mul_hi(x, y) };
        let r = simd256_vop2(self, a, b, f);
        assert forall|k: int| 0 <= k < 16 implies #[trigger] lane16(r@, k) == mul_hi_i16(lane16(a@, k), lane16(b@, k)) by {
            if k >= 8 {
                let j = k - 8;
                assert(lane16(r.hi@, j) == mul_hi_i16(lane16(a.hi@, j), lane16(b.hi@, j)));
                assert(lane16(r@, k) == lane16(r.hi@, j) && lane16(a@, k) == lane16(a.hi@, j) && lane16(b@, k) == lane16(b.hi@, j));
            } else {
                assert(lane16(r.lo@, k) == mul_hi_i16(lane16(a.lo@, k), lane16(b.lo@, k)));
                assert(lane16(r@, k) == lane16(r.lo@, k) && lane16(a@, k) == lane16(a.lo@, k) && lane16(b@, k) == lane16(b.lo@, k));
            }
        }
        r
    }

    /// The high halves of the unsigned products of the 16-bit lanes.
    fn u16x16_mul_hi(self, a: V256, b: V256) -> (r: V256)
        ensures
            forall|k: int| 0 <= k < 16 ==> #[trigger] lane16(r@, k) == mul_hi_u16(lane16(a@, k), lane16(b@, k)),
    {
        let f = |s: Self, x: V128, y: V128| -> (z: V128)
            ensures
                forall|k: int| 0 <= k < 8 ==> #[trigger] lane16(z@, k) == mul_hi_u16(lane16(x@, k), lane16(y@, k)),
            { s.u16x8_mul_hi(x, y) };
        let r = simd256_vop2(self, a, b, f);
        assert forall|k: int| 0 <= k < 16 implies #[trigger] lane16(r@, k) == mul_hi_u16(lane16(a@, k), lane16(b@, k)) by {
            if k >= 8 {
                let j = k - 8;
                assert(lane16(r.hi@, j) == mul_hi_u16(lane16(a.hi@, j), lane16(b.hi@, j)));
                assert(lane16(r@, k) == lane16(r.hi@, j) && lane16(a@, k) == lane16(a.hi@, j) && lane16(b@, k) == lane16(b.hi@, j));
            } else {
                assert(lane16(r.lo@, k) == mul_hi_u16(lane16(a.lo@, k), lane16(b.lo@, k)));
                assert(lane16(r@, k) == lane16(r.lo@, k) && lane16(a@, k) == lane16(a.lo@, k) && lane16(b@, k) == lane16(b.lo@, k));
            }
        }
        r
    }

    /// Each byte from `b` where the matching byte of `m` has its high bit
    /// set, else from `a`.
    fn u8x32_blendv(self, a: V256, b: V256, m: V256) -> (r: V256)
        ensures
            forall|i: int| 0 <= i < 32 ==> #[trigger] r@[i] == if m@[i] >= 0x80 { b@[i] } else { a@[i] },
    {
        let f = |s: Self, x: V128, y: V128, z: V128| -> (w: V128)
            ensures
                forall|i: int| 0 <= i < 16 ==> #[trigger] w@[i] == if z@[i] >= 0x80 { y@[i] } else { x@[i] },
            { s.u8x16_blendv(x, y, z) };
        let r = simd256_vop3(self, a, b, m, f);
        assert forall|i: int| 0 <= i < 32 implies #[trigger] r@[i] == if m@[i] >= 0x80 { b@[i] } else { a@[i] } by {
            if i >= 16 {
                assert(r.hi@[i - 16] == if m.hi@[i - 16] >= 0x80 { b.hi@[i - 16] } else { a.hi@[i - 16] });
            }
        }
        r
    }

    /// Unsigned bytes of `a` times signed bytes of `b`, adjacent products
    /// added with signed saturation into 16-bit lanes.
    fn i16x16_maddubs(self, a: V256, b: V256) -> (r: V256)
        ensures
            forall|k: int|
                0 <= k < 16 ==> #[trigger] lane16(r@, k) == maddubs(a@[2 * k], b@[2 * k], a@[2 * k + 1], b@[2 * k + 1]),
    {
        let f = |s: Self, x: V128, y: V128| -> (z: V128)
            ensures
                forall|k: int|
                    0 <= k < 8 ==> #[trigger] lane16(z@, k) == maddubs(x@[2 * k], y@[2 * k], x@[2 * k + 1], y@[2 * k + 1]),
            { s.i16x8_maddubs(x, y) };
        let r = simd256_vop2(self, a, b, f);
        assert forall|k: int| 0 <= k < 16 implies #[trigger] lane16(r@, k) == maddubs(
            a@[2 * k],
            b@[2 * k],
            a@[2 * k + 1],
            b@[2 * k + 1],
        ) by {
            if k >= 8 {
                let j = k - 8;
                assert(lane16(r.hi@, j) == maddubs(a.hi@[2 * j], b.hi@[2 * j], a.hi@[2 * j + 1], b.hi@[2 * j + 1]));
            } else {
                assert(lane16(r.lo@, k) == maddubs(a.lo@[2 * k], b.lo@[2 * k], a.lo@[2 * k + 1], b.lo@[2 * k + 1]));
            }
        }
        r
    }

    /// Each 32-bit lane `k` of each half from `b` where bit `k` of `IMM8` is
    /// set, else from `a`.
    fn u32x8_blend<const IMM8: u32>(self, a: V256, b: V256) -> (r: V256)
        ensures
            forall|i: int|
                0 <= i < 32 ==> #[trigger] r@[i] == if imm_bit(IMM8, (i % 16) / 4) { b@[i] } else { a@[i] },
    {
        let f = |s: Self, x: V128, y: V128| -> (z: V128)
            ensures
                forall|i: int| 0 <= i < 16 ==> #[trigger] z@[i] == if imm_bit(IMM8, i / 4) { y@[i] } else { x@[i] },
            { s.u32x4_blend::<IMM8>(x, y) };
        let r = simd256_vop2(self, a, b, f);
        assert forall|i: int| 0 <= i < 32 implies #[trigger] r@[i] == if imm_bit(IMM8, (i % 16) / 4) {
            b@[i]
        } else {
            a@[i]
        } by {
            if i >= 16 {
                assert(r.hi@[i - 16] == if imm_bit(IMM8, (i - 16) / 4) { b.hi@[i - 16] } else { a.hi@[i - 16] });
            }
        }
        r
    }
}

/// The 16-bit lane `k` of the bytes `a`.
fn get_u16(a: &[u8; 16], k: usize) -> (r: u16)
    requires
        k < 8,
    ensures
        r == lane16(a@, k as int),
{
    let b0 = a[2 * k];
    let b1 = a[2 * k + 1];
    let x = (b0 as u16) | ((b1 as u16) << 8u16);
    proof {
        lemma_u16_bits(0, b0, b1);
    }
    x
}

/// Sets the 16-bit lane `k` of the bytes `out` to `v`.
fn set_u16(out: &mut [u8; 16], k: usize, v: u16)
    requires
        k < 8,
    ensures
        lane16(final(out)@, k as int) == v,
        forall|i: int| 0 <= i < 16 && i != 2 * k && i != 2 * k + 1 ==> #[trigger] final(out)@[i] == old(out)@[i],
{
    proof {
        lemma_u16_bytes(v);
    }
    out[2 * k] = #[verifier::truncate] ((v & 0xff) as u8);
    out[2 * k + 1] = #[verifier::truncate] ((v >> 8u16) as u8);
}

/// The unsigned 16-bit lane value whose signed reading is `h`.
fn u16_of_signed(h: i64) -> (r: u16)
    requires
        -0x8000 <= h < 0x8000,
    ensures
        r as int == from_signed(2, h as int),
{
    if h < 0 {
        (h + 0x1_0000) as u16
    } else {
        h as u16
    }
}

/// The signed reading of the unsigned 16-bit lane value `x`.
fn i64_of_u16(x: u16) -> (r: i64)
    ensures
        r as int == to_signed(2, x as int),
        -0x8000 <= r < 0x8000,
{
    if x >= 0x8000 {
        x as i64 - 0x1_0000
    } else {
        x as i64
    }
}

/// The signed reading of the byte `x`.
fn i64_of_u8(x: u8) -> (r: i64)
    ensures
        r as int == to_signed(1, x as int),
        -0x80 <= r < 0x80,
{
    if x >= 0x80 {
        x as i64 - 0x100
    } else {
        x as i64
    }
}

impl SIMD128Ext for Fallback {
    fn i16x8_mul_hi(self, a: V128, b: V128) -> (r: V128) {
        let mut out = [0u8; 16];
        let mut k: usize = 0;
        while k < 8
            invariant
                k <= 8,
                forall|j: int| 0 <= j < k ==> #[trigger] lane16(out@, j) == mul_hi_i16(lane16(a@, j), lane16(b@, j)),
            decreases 8 - k,
        {
            let sx = i64_of_u16(get_u16(&a.0, k));
            let sy = i64_of_u16(get_u16(&b.0, k));
            assert(-0x4000_0000 <= sx * sy <= 0x4000_0000) by (nonlinear_arith)
                requires
                    -0x8000 <= sx < 0x8000,
                    -0x8000 <= sy < 0x8000,
            ;
            let p = sx * sy;
            let t = (p + 0x8000_0000) as u64;
            let h = (t / 0x1_0000) as i64 - 0x8000;
            assert(h == p / 0x1_0000 && -0x4000 <= h <= 0x4000) by (nonlinear_arith)
                requires
                    t == p + 0x8000_0000,
                    h == t / 0x1_0000 - 0x8000,
                    -0x4000_0000 <= p <= 0x4000_0000,
            ;
            let ghost before = out@;
            set_u16(&mut out, k, u16_of_signed(h));
            assert forall|j: int| 0 <= j < k implies #[trigger] lane16(out@, j) == lane16(before, j) by {
                assert(out@[2 * j] == before[2 * j] && out@[2 * j + 1] == before[2 * j + 1]);
            }
            k += 1;
        }
        V128(out)
    }

    fn u16x8_mul_hi(self, a: V128, b: V128) -> (r: V128) {
        let mut out = [0u8; 16];
        let mut k: usize = 0;
        while k < 8
            invariant
                k <= 8,
                forall|j: int| 0 <= j < k ==> #[trigger] lane16(out@, j) == mul_hi_u16(lane16(a@, j), lane16(b@, j)),
            decreases 8 - k,
        {
            let x = get_u16(&a.0, k) as u32;
            let y = get_u16(&b.0, k) as u32;
            assert(x * y <= 0xffff * 0xffff) by (nonlinear_arith)
                requires
                    x <= 0xffff,
                    y <= 0xffff,
            ;
            let p = x * y;
            let h = p / 0x1_0000;
            assert(h <= 0xffff) by (nonlinear_arith)
                requires
                    h == p / 0x1_0000,
                    p <= 0xffff * 0xffff,
            ;
            let ghost before = out@;
            set_u16(&mut out, k, h as u16);
            assert forall|j: int| 0 <= j < k implies #[trigger] lane16(out@, j) == lane16(before, j) by {
                assert(out@[2 * j] == before[2 * j] && out@[2 * j + 1] == before[2 * j + 1]);
            }
            k += 1;
        }
        V128(out)
    }

    fn u8x16_blendv(self, a: V128, b: V128, m: V128) -> (r: V128) {
        let mut out = [0u8; 16];
        let mut i: usize = 0;
        while i < 16
            invariant
                i <= 16,
                forall|j: int| 0 <= j < i ==> #[trigger] out@[j] == if m@[j] >= 0x80 { b@[j] } else { a@[j] },
            decreases 16 - i,
        {
            out[i] = if m.0[i] >= 0x80 {
                b.0[i]
            } else {
                a.0[i]
            };
            i += 1;
        }
        V128(out)
    }

    fn i16x8_maddubs(self, a: V128, b: V128) -> (r: V128) {
        let mut out = [0u8; 16];
        let mut k: usize = 0;
        while k < 8
            invariant
                k <= 8,
                forall|j: int|
                    0 <= j < k ==> #[trigger] lane16(out@, j) == maddubs(a@[2 * j], b@[2 * j], a@[2 * j + 1], b@[2 * j + 1]),
            decreases 8 - k,
        {
            let a0 = a.0[2 * k] as i64;
            let a1 = a.0[2 * k + 1] as i64;
            let b0 = i64_of_u8(b.0[2 * k]);
            let b1 = i64_of_u8(b.0[2 * k + 1]);
            assert(-0x8000 <= a0 * b0 <= 0x8000 && -0x8000 <= a1 * b1 <= 0x8000) by (nonlinear_arith)
                requires
                    0 <= a0 < 0x100,
                    0 <= a1 < 0x100,
                    -0x80 <= b0 < 0x80,
                    -0x80 <= b1 < 0x80,
            ;
            let sum = a0 * b0 + a1 * b1;
            let sat = if sum < -0x8000 {
                -0x8000
            } else if sum > 0x7fff {
                0x7fff
            } else {
                sum
            };
            let ghost before = out@;
            set_u16(&mut out, k, u16_of_signed(sat));
            assert forall|j: int| 0 <= j < k implies #[trigger] lane16(out@, j) == lane16(before, j) by {
                assert(out@[2 * j] == before[2 * j] && out@[2 * j + 1] == before[2 * j + 1]);
            }
            k += 1;
        }
        V128(out)
    }

    fn u32x4_blend<const IMM8: u32>(self, a: V128, b: V128) -> (r: V128) {
        let mut out = [0u8; 16];
        let mut i: usize = 0;
        while i < 16
            invariant
                i <= 16,
                forall|j: int| 0 <= j < i ==> #[trigger] out@[j] == if imm_bit(IMM8, j / 4) { b@[j] } else { a@[j] },
            decreases 16 - i,
        {
            let k = (i / 4) as u32;
            out[i] = if (IMM8 >> k) & 1 == 1 {
                b.0[i]
            } else {
                a.0[i]
            };
            i += 1;
        }
        V128(out)
    }
}

impl SIMD256Ext for Fallback {}

} // verus!
