//! UUID parsing and formatting on 256-bit vectors, for any instruction set
//! with the lane accessors of [`SIMDExt`].
use vstd::prelude::*;

use super::{
    dash, has_dashes, hyphenated_text, judge_other, simple_text, spec_parse, spec_parse_hyphenated,
    spec_parse_simple, with_dashes, without_dashes, Error,
};
use crate::ascii::AsciiCase;
use crate::bits::{lemma_byte_bits, lemma_i16_bits, lemma_i32_bits, lemma_u16_bits, lemma_u32_bits};
use crate::hex::{decode_u8x32, encode_lut, encode_u8x16, hex_charset, SIMDExt as HexExt};
use crate::isa::{Fallback, SIMD128, SIMD256};
use crate::scalar::Bytes32;
use crate::vector::{
    lemma_digits,
    from_signed, lane16, lane32, lanes2, lemma_u16_bytes, lemma_u32_bytes, lemma_bytes2, op2, swizzled, to_signed, Op2, V128, V256,
};

verus! {

/// Single-lane reads and writes that the vector UUID routines need beyond
/// the hex ones.
pub trait SIMDExt: HexExt {
    /// `a` with its 16-bit lane 7 (bytes 14 and 15) set to `x`.
    fn i16x16_set_lane7(self, a: V256, x: i16) -> (r: V256)
        ensures
            lane16(r@, 7) == from_signed(2, x as int),
            forall|i: int| 0 <= i < 32 && i != 14 && i != 15 ==> #[trigger] r@[i] == a@[i],
    ;

    /// `a` with its 32-bit lane 7 (bytes 28 to 31) set to `x`.
    fn i32x8_set_lane7(self, a: V256, x: i32) -> (r: V256)
        ensures
            lane32(r@, 7) == from_signed(4, x as int),
            forall|i: int| 0 <= i < 28 ==> #[trigger] r@[i] == a@[i],
    ;

    /// The 32-bit lane 3 (bytes 12 to 15) of `a`, signed.
    fn i32x4_get_lane3(self, a: V128) -> (r: i32)
        ensures
            r as int == to_signed(4, lane32(a@, 3)),
    ;

    /// The 16-bit lane 7 (bytes 14 and 15) of `a`, signed.
    fn i16x8_get_lane7(self, a: V128) -> (r: i16)
        ensures
            r as int == to_signed(2, lane16(a@, 7)),
    ;
}

/// The unsigned reading of a 16-bit signed value.
proof fn lemma_i16_unsigned(x: i16, u: u16)
    requires
        u == x as u16,
    ensures
        u as int == from_signed(2, x as int),
{
    lemma_i16_bits(x, u);
}

/// The unsigned reading of a 32-bit signed value.
proof fn lemma_i32_unsigned(x: i32, u: u32)
    requires
        u == x as u32,
    ensures
        u as int == from_signed(4, x as int),
{
    lemma_i32_bits(x, u);
}

/// The signed reading of a 16-bit unsigned value.
proof fn lemma_u16_signed(u: u16, x: i16)
    requires
        x == u as i16,
    ensures
        x as int == to_signed(2, u as int),
{
    lemma_i16_bits(x, u);
}

/// The signed reading of a 32-bit unsigned value.
proof fn lemma_u32_signed(u: u32, x: i32)
    requires
        x == u as i32,
    ensures
        x as int == to_signed(4, u as int),
{
    lemma_i32_bits(x, u);
}

/// The 16-bit value with bytes `b0` (low) and `b1`.
fn u16_from_bytes(b0: u8, b1: u8) -> (r: u16)
    ensures
        r == b0 + 256 * b1,
{
    let r = ((b1 as u16) << 8u16) | (b0 as u16);
    proof {
        lemma_u16_bits(0, b0, b1);
    }
    r
}

/// The 32-bit value with bytes `b0` (low) to `b3`.
fn u32_from_bytes(b0: u8, b1: u8, b2: u8, b3: u8) -> (r: u32)
    ensures
        r == b0 + 256 * b1 + 0x1_0000 * (b2 + 256 * b3),
{
    let r = (b0 as u32) | ((b1 as u32) << 8u32) | ((b2 as u32) << 16u32) | ((b3 as u32) << 24u32);
    proof {
        lemma_u32_bits(0, b0, b1, b2, b3);
    }
    r
}

impl SIMDExt for Fallback {
    fn i16x16_set_lane7(self, a: V256, x: i16) -> (r: V256) {
        let u = x as u16;
        proof {
            lemma_u16_bytes(u);
            lemma_i16_unsigned(x, u);
        }
        let mut lo = a.lo.0;
        lo[14] = (u & 0xff) as u8;
        lo[15] = (u >> 8u16) as u8;
        let r = V256 { lo: V128(lo), hi: a.hi };
        assert(r@[14] == lo@[14] && r@[15] == lo@[15]);
        assert forall|i: int| 0 <= i < 32 && i != 14 && i != 15 implies #[trigger] r@[i] == a@[i] by {
            if i < 16 {
                assert(r@[i] == lo@[i]);
            }
        }
        r
    }

    fn i32x8_set_lane7(self, a: V256, x: i32) -> (r: V256) {
        let u = x as u32;
        proof {
            lemma_u32_bytes(u);
            lemma_i32_unsigned(x, u);
        }
        let mut hi = a.hi.0;
        hi[12] = (u & 0xff) as u8;
        hi[13] = ((u >> 8u32) & 0xff) as u8;
        hi[14] = ((u >> 16u32) & 0xff) as u8;
        hi[15] = (u >> 24u32) as u8;
        let r = V256 { lo: a.lo, hi: V128(hi) };
        assert(r@[28] == hi@[12] && r@[29] == hi@[13] && r@[30] == hi@[14] && r@[31] == hi@[15]);
        assert forall|i: int| 0 <= i < 28 implies #[trigger] r@[i] == a@[i] by {
            if i >= 16 {
                assert(r@[i] == hi@[i - 16]);
            }
        }
        r
    }

    fn i32x4_get_lane3(self, a: V128) -> (r: i32) {
        let u = u32_from_bytes(a.0[12], a.0[13], a.0[14], a.0[15]);
        let r = u as i32;
        proof {
            lemma_u32_signed(u, r);
        }
        r
    }

    fn i16x8_get_lane7(self, a: V128) -> (r: i16) {
        let u = u16_from_bytes(a.0[14], a.0[15]);
        let r = u as i16;
        proof {
            lemma_u16_signed(u, r);
        }
        r
    }
}

/// Parses a UUID in any accepted form: simple, hyphenated, braced or
/// URN-prefixed.
pub fn parse<S: SIMDExt>(s: S, src: &[u8]) -> (r: Result<[u8; 16], Error>)
    ensures
        match r {
            Ok(v) => spec_parse(src@) == Some(v@),
            Err(_) => spec_parse(src@) is None,
        },
{
    let n = src.len();
    if n == 32 {
        return parse_simple(s, src);
    }
    if n == 36 {
        return parse_hyphenated(s, src);
    }
    match judge_other(src) {
        Ok(h) => parse_hyphenated(s, h),
        Err(e) => Err(e),
    }
}

/// Parses the simple text in `src`.
pub fn parse_simple<S: HexExt>(s: S, src: &[u8]) -> (r: Result<[u8; 16], Error>)
    ensures
        match r {
            Ok(v) => spec_parse_simple(src@) == Some(v@),
            Err(_) => spec_parse_simple(src@) is None,
        },
{
    if src.len() != 32 {
        return Err(Error::new());
    }
    let a = s.v256_load_unaligned(src, 0);
    assert(a@ =~= src@);
    match decode_u8x32(s, a) {
        Ok(ans) => Ok(s.v128_to_bytes(ans)),
        Err(()) => Err(Error::new()),
    }
}

/// Two bytes are the base-256 digits of the 16-bit value they make.
proof fn lemma_byte_pair(r0: u8, r1: u8, b0: u8, b1: u8)
    requires
        r0 + 256 * r1 == b0 + 256 * b1,
    ensures
        r0 == b0,
        r1 == b1,
{
    lemma_digits(r0 as int, r1 as int, b0 as int, b1 as int, 256);
}

/// Four bytes are the base-256 digits of the 32-bit value they make.
proof fn lemma_byte_quad(r0: u8, r1: u8, r2: u8, r3: u8, b0: u8, b1: u8, b2: u8, b3: u8)
    requires
        r0 + 256 * r1 + 0x1_0000 * (r2 + 256 * r3) == b0 + 256 * b1 + 0x1_0000 * (b2 + 256 * b3),
    ensures
        r0 == b0,
        r1 == b1,
        r2 == b2,
        r3 == b3,
{
    lemma_digits(r0 + 256 * r1, r2 + 256 * r3, b0 + 256 * b1, b2 + 256 * b3, 0x1_0000);
    lemma_byte_pair(r0, r1, b0, b1);
    lemma_byte_pair(r2, r3, b2, b3);
}

/// Parses the hyphenated text in `src`.
pub fn parse_hyphenated<S: SIMDExt>(s: S, src: &[u8]) -> (r: Result<[u8; 16], Error>)
    ensures
        match r {
            Ok(v) => spec_parse_hyphenated(src@) == Some(v@),
            Err(_) => spec_parse_hyphenated(src@) is None,
        },
{
    if src.len() != 36 {
        return Err(Error::new());
    }
    if !(src[8] == 0x2d && src[13] == 0x2d && src[18] == 0x2d && src[23] == 0x2d) {
        return Err(Error::new());
    }
    let swizzle = Bytes32(
        [
            0x00, 0x01, 0x02, 0x03, 0x04, 0x05, 0x06, 0x07, //
            0x09, 0x0a, 0x0b, 0x0c, 0x0e, 0x0f, 0x80, 0x80, //
            0x03, 0x04, 0x05, 0x06, 0x08, 0x09, 0x0a, 0x0b, //
            0x0c, 0x0d, 0x0e, 0x0f, 0x80, 0x80, 0x80, 0x80, //
        ],
    );
    let a0 = s.v256_load_unaligned(src, 0);
    let b = s.v256_load(&swizzle);
    let a1 = s.u8x16x2_swizzle(a0, b);
    let u16 = u16_from_bytes(src[16], src[17]);
    let x16 = #[verifier::truncate] (u16 as i16);
    proof {
        lemma_u16_signed(u16, x16);
    }
    let a2 = s.i16x16_set_lane7(a1, x16);
    let u32 = u32_from_bytes(src[32], src[33], src[34], src[35]);
    let x32 = #[verifier::truncate] (u32 as i32);
    proof {
        lemma_u32_signed(u32, x32);
    }
    let a3 = s.i32x8_set_lane7(a2, x32);
    let ghost w = without_dashes(src@);
    proof {
        lemma_byte_pair(a2@[14], a2@[15], src@[16], src@[17]);
        lemma_byte_quad(a3@[28], a3@[29], a3@[30], a3@[31], src@[32], src@[33], src@[34], src@[35]);
        assert forall|i: int| 0 <= i < 28 && i != 14 && i != 15 implies #[trigger] a3@[i] == w[i] by {
            assert(a3@[i] == a2@[i]);
            assert(a2@[i] == a1@[i]);
            assert(b@[i] == swizzle.0@[i]);
        }
        assert(a3@[14] == a2@[14] && a3@[15] == a2@[15]);
        assert(a3@ =~= w);
    }
    match decode_u8x32(s, a3) {
        Ok(ans) => Ok(s.v128_to_bytes(ans)),
        Err(()) => Err(Error::new()),
    }
}

/// The simple text of `src` in `case`.
pub fn format_simple<S: HexExt>(s: S, src: &[u8; 16], case: AsciiCase) -> (r: [u8; 32])
    ensures
        r@ == simple_text(src@, case),
{
    let lut = s.v256_load(&encode_lut(case));
    assert(lut.lo@ =~= hex_charset(case) && lut.hi@ =~= hex_charset(case)) by {
        assert(lut.lo@ =~= lut@.subrange(0, 16));
        assert(lut.hi@ =~= lut@.subrange(16, 32));
    }
    let a = s.v128_load_unaligned(src.as_slice(), 0);
    assert(a@ =~= src@);
    let buf = s.v256_to_bytes(encode_u8x16(s, a, lut));
    buf
}

proof fn lemma_or_dash(x: u8)
    ensures
        (x | 0u8) == x,
        (0u8 | 0x2du8) == 0x2du8,
{
    lemma_byte_bits(x, 0);
    lemma_byte_bits(0x2d, 0);
}

/// The shuffle that spreads the 32 digits of a simple text over the first 32
/// bytes of a hyphenated one, leaving zeros where the dashes and bytes 16 and
/// 17 go.
spec fn hyphen_swizzle() -> Seq<u8> {
    seq![
        0x00u8, 0x01, 0x02, 0x03, 0x04, 0x05, 0x06, 0x07, 0x80, 0x08, 0x09, 0x0a, 0x0b, 0x80, 0x0c, 0x0d,
        0x80, 0x80, 0x80, 0x00, 0x01, 0x02, 0x03, 0x80, 0x04, 0x05, 0x06, 0x07, 0x08, 0x09, 0x0a, 0x0b,
    ]
}

/// The dashes of the first 32 bytes of a hyphenated text, zero elsewhere.
spec fn hyphen_dashes() -> Seq<u8> {
    seq![
        0x00u8, 0x00, 0x00, 0x00, 0x00, 0x00, 0x00, 0x00, 0x2d, 0x00, 0x00, 0x00, 0x00, 0x2d, 0x00, 0x00,
        0x00, 0x00, 0x2d, 0x00, 0x00, 0x00, 0x00, 0x2d, 0x00, 0x00, 0x00, 0x00, 0x00, 0x00, 0x00, 0x00,
    ]
}

/// Shuffling the simple text `h` and adding the dashes gives the hyphenated
/// text, but for bytes 16 and 17.
proof fn lemma_hyphen_layout(h: Seq<u8>, b: Seq<u8>, a1: Seq<u8>, d: Seq<u8>, a2: Seq<u8>)
    requires
        h.len() == 32,
        b == hyphen_swizzle(),
        d == hyphen_dashes(),
        swizzled(h, b, a1),
        lanes2(Op2::Or, 1, a1, d, a2),
    ensures
        forall|i: int| 0 <= i < 32 && i != 16 && i != 17 ==> #[trigger] a2[i] == with_dashes(h)[i],
{
    lemma_bytes2(Op2::Or, a1, d, a2);
    reveal(op2);
    assert forall|i: int| 0 <= i < 32 && i != 16 && i != 17 implies #[trigger] a2[i] == with_dashes(h)[i] by {
        lemma_or_dash(a1[i]);
        assert(a2[i] as int == op2(Op2::Or, 1, a1[i] as int, d[i] as int));
    }
}

/// The hyphenated text of `src` in `case`.
pub fn format_hyphenated<S: SIMDExt>(s: S, src: &[u8; 16], case: AsciiCase) -> (r: [u8; 36])
    ensures
        r@ == hyphenated_text(src@, case),
{
    let swizzle = Bytes32(
        [
            0x00, 0x01, 0x02, 0x03, 0x04, 0x05, 0x06, 0x07, //
            0x80, 0x08, 0x09, 0x0a, 0x0b, 0x80, 0x0c, 0x0d, //
            0x80, 0x80, 0x80, 0x00, 0x01, 0x02, 0x03, 0x80, //
            0x04, 0x05, 0x06, 0x07, 0x08, 0x09, 0x0a, 0x0b, //
        ],
    );
    let dashes = Bytes32(
        [
            0x00, 0x00, 0x00, 0x00, 0x00, 0x00, 0x00, 0x00, //
            0x2d, 0x00, 0x00, 0x00, 0x00, 0x2d, 0x00, 0x00, //
            0x00, 0x00, 0x2d, 0x00, 0x00, 0x00, 0x00, 0x2d, //
            0x00, 0x00, 0x00, 0x00, 0x00, 0x00, 0x00, 0x00, //
        ],
    );
    let ghost h = simple_text(src@, case);
    let ghost t = hyphenated_text(src@, case);

    let lut = s.v256_load(&encode_lut(case));
    assert(lut.lo@ =~= hex_charset(case) && lut.hi@ =~= hex_charset(case)) by {
        assert(lut.lo@ =~= lut@.subrange(0, 16));
        assert(lut.hi@ =~= lut@.subrange(16, 32));
    }
    let x = s.v128_load_unaligned(src.as_slice(), 0);
    assert(x@ =~= src@);
    let a = encode_u8x16(s, x, lut);
    assert(a@ == h);

    let b = s.v256_load(&swizzle);
    let a1 = s.u8x16x2_swizzle(a, b);
    let d = s.v256_load(&dashes);
    let a2 = s.v256_or(a1, d);
    let mut buf = [0u8; 36];
    s.v256_store_unaligned(&mut buf, 0, a2);
    let ghost stored = buf@;
    proof {
        assert(swizzle.0@ =~= hyphen_swizzle());
        assert(dashes.0@ =~= hyphen_dashes());
        lemma_hyphen_layout(h, b@, a1@, d@, a2@);
        assert(stored =~= a2@ + seq![0u8, 0u8, 0u8, 0u8]);
    }

    let hi = s.v256_get_high(a);
    let lo = s.v256_get_low(a);
    let lane3 = s.i32x4_get_lane3(hi);
    let lane7 = s.i16x8_get_lane7(lo);
    let bytes_28_31 = #[verifier::truncate] (lane3 as u32);
    let bytes_14_15 = #[verifier::truncate] (lane7 as u16);
    proof {
        lemma_u16_bytes(bytes_14_15);
        lemma_u32_bytes(bytes_28_31);
        lemma_i16_unsigned(lane7, bytes_14_15);
        lemma_i32_unsigned(lane3, bytes_28_31);
    }
    buf[16] = #[verifier::truncate] ((bytes_14_15 & 0xff) as u8);
    buf[17] = #[verifier::truncate] ((bytes_14_15 >> 8u16) as u8);
    buf[32] = #[verifier::truncate] ((bytes_28_31 & 0xff) as u8);
    buf[33] = #[verifier::truncate] (((bytes_28_31 >> 8u32) & 0xff) as u8);
    buf[34] = #[verifier::truncate] (((bytes_28_31 >> 16u32) & 0xff) as u8);
    buf[35] = #[verifier::truncate] ((bytes_28_31 >> 24u32) as u8);
    proof {
        assert(lo@ =~= a@.subrange(0, 16));
        assert(hi@ =~= a@.subrange(16, 32));
        lemma_byte_pair(buf@[16], buf@[17], h[14], h[15]);
        lemma_byte_quad(buf@[32], buf@[33], buf@[34], buf@[35], h[28], h[29], h[30], h[31]);
        assert forall|i: int| 0 <= i < 36 implies #[trigger] buf@[i] == t[i] by {
            if i < 32 && i != 16 && i != 17 {
                assert(buf@[i] == stored[i]);
            }
        }
        assert(buf@ =~= t);
    }
    buf
}

} // verus!
