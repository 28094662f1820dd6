//! Hex digits: the scalar lookup and the 32-byte vector check, decode and
//! encode steps.
use vstd::arithmetic::power2::lemma2_to64;
use vstd::prelude::*;

use crate::ascii::AsciiCase;
use crate::bits::{lemma_byte_bits, lemma_byte_bits3, lemma_join_bits};
use crate::isa::{Fallback, SIMD256};
use crate::scalar::Bytes32;
use crate::vector::{
    all_zero, any_zero, from_signed, lane16, lanes1, lanes2, splat, lemma_bytes2, lemma_lanes1_16, lemma_splat_bytes, op1, op2, Op1,
    Op2, V128, V256,
};

verus! {

/// Whether `x` is an ASCII hex digit (`0-9`, `a-f`, `A-F`).
pub open spec fn is_hex_digit(x: u8) -> bool {
    (0x30 <= x <= 0x39) || (0x41 <= x <= 0x46) || (0x61 <= x <= 0x66)
}

/// The value of the hex digit `x`, or `0xff` when `x` is not one.
pub open spec fn spec_unhex(x: u8) -> u8 {
    if 0x30 <= x <= 0x39 {
        (x - 0x30) as u8
    } else if 0x61 <= x <= 0x66 {
        (x - 0x61 + 10) as u8
    } else if 0x41 <= x <= 0x46 {
        (x - 0x41 + 10) as u8
    } else {
        0xff
    }
}

/// The value of the hex digit `x` (`0..16`), or `0xff` when `x` is not one.
pub fn unhex(x: u8) -> (r: u8)
    ensures
        r == spec_unhex(x),
        r == 0xff <==> !is_hex_digit(x),
        is_hex_digit(x) ==> r < 16,
{
    if 0x30 <= x && x <= 0x39 {
        x - 0x30
    } else if 0x61 <= x && x <= 0x66 {
        x - 0x61 + 10
    } else if 0x41 <= x && x <= 0x46 {
        x - 0x41 + 10
    } else {
        0xff
    }
}

/// Clearing bit 5 folds the two letter ranges of the shifted digits into one.
proof fn lemma_and_df(y: u8)
    ensures
        (145 <= (y & 0xdf) <= 150) <==> (145 <= y <= 150 || 177 <= y <= 182),
{
    lemma_byte_bits(y, 0);
}

/// An OR of two bytes is non-zero exactly when one of them is.
proof fn lemma_or_nonzero(x: u8, y: u8)
    ensures
        (x | y) != 0 <==> (x != 0 || y != 0),
{
    lemma_byte_bits(x, y);
}

/// Whether some byte of `a` is an ASCII hex digit.
pub fn check_u8x32<S: SIMD256>(s: S, a: V256) -> (r: bool)
    ensures
        r == exists|i: int| 0 <= i < 32 && is_hex_digit(#[trigger] a@[i]),
{
    let c50 = s.u8x32_splat(0x50);
    let a1 = s.u8x32_add(a, c50);
    let cdf = s.u8x32_splat(0xdf);
    let a2 = s.v256_and(a1, cdf);
    let c11 = s.u8x32_splat(0x11);
    let a3 = s.u8x32_sub(a2, c11);
    let m118 = s.i8x32_splat(-118);
    let a4 = s.i8x32_lt(a1, m118);
    let m122 = s.i8x32_splat(-122);
    let a5 = s.i8x32_lt(a3, m122);
    let a6 = s.v256_or(a4, a5);
    proof {
        reveal(op2);
        lemma_splat_bytes(0x50, c50@);
        lemma_splat_bytes(0xdf, cdf@);
        lemma_splat_bytes(0x11, c11@);
        lemma_splat_bytes(from_signed(1, -118), m118@);
        lemma_splat_bytes(from_signed(1, -122), m122@);
        lemma_bytes2(Op2::Add, a@, c50@, a1@);
        lemma_bytes2(Op2::And, a1@, cdf@, a2@);
        lemma_bytes2(Op2::Sub, a2@, c11@, a3@);
        lemma_bytes2(Op2::LtS, a1@, m118@, a4@);
        lemma_bytes2(Op2::LtS, a3@, m122@, a5@);
        lemma_bytes2(Op2::Or, a4@, a5@, a6@);
        assert forall|i: int| 0 <= i < 32 implies (#[trigger] a6@[i] != 0 <==> is_hex_digit(a@[i])) by {
            lemma_and_df(a1@[i]);
            lemma_or_nonzero(a4@[i], a5@[i]);
        }
        if exists|i: int| 0 <= i < 32 && is_hex_digit(#[trigger] a@[i]) {
            let i = choose|i: int| 0 <= i < 32 && is_hex_digit(#[trigger] a@[i]);
            assert(a6@[i] != 0);
        }
        if !all_zero(a6@) {
            let i = choose|i: int| 0 <= i < 32 && #[trigger] a6@[i] != 0;
            assert(is_hex_digit(a@[i]));
        }
    }
    !s.v256_all_zero(a6)
}

/// The hex-digit test of a byte, in terms of its high and low nibble.
pub open spec fn hi_nibble_class(n: u8) -> u8 {
    if n == 3 {
        0x0f
    } else if n == 4 || n == 6 {
        0xf0
    } else {
        0
    }
}

/// See [`hi_nibble_class`].
pub open spec fn lo_nibble_class(n: u8) -> u8 {
    if n == 0 {
        0x0f
    } else if 1 <= n <= 6 {
        0xff
    } else if 7 <= n <= 9 {
        0x0f
    } else {
        0
    }
}

/// What to add to the low nibble of a hex digit with high nibble `n` to get
/// its value.
pub open spec fn nibble_offset(n: u8) -> u8 {
    if n == 4 || n == 6 {
        9
    } else {
        0
    }
}

/// A 256-bit vector holding `bytes` in both halves.
fn load_double<S: SIMD256>(s: S, bytes: [u8; 16]) -> (r: V256)
    ensures
        r@ == bytes@ + bytes@,
{
    s.v256_load(&Bytes32::double(bytes))
}

/// Every byte of `s` is an ASCII hex digit.
pub open spec fn all_hex(s: Seq<u8>) -> bool {
    forall|i: int| 0 <= i < s.len() ==> is_hex_digit(#[trigger] s[i])
}

/// The bytes that the hex digit pairs of `s` spell, high digit first.
pub open spec fn hex_decode(s: Seq<u8>) -> Seq<u8> {
    Seq::new(s.len() / 2, |j: int| (16 * spec_unhex(s[2 * j]) + spec_unhex(s[2 * j + 1])) as u8)
}

/// Widening and narrowing steps that the hex routines need beyond
/// [`SIMD256`].
pub trait SIMDExt: SIMD256 {
    /// Zero-extends each byte of `a` to a 16-bit lane.
    fn u16x16_from_u8x16(self, a: V128) -> (r: V256)
        ensures
            forall|k: int| 0 <= k < 16 ==> #[trigger] lane16(r@, k) == a@[k],
    ;

    /// The low 64 bits of each half of `a`.
    fn u64x4_unzip_low(self, a: V256) -> (r: V128)
        ensures
            r@ == a.lo@.subrange(0, 8) + a.hi@.subrange(0, 8),
    ;
}

impl SIMDExt for Fallback {
    fn u16x16_from_u8x16(self, a: V128) -> (r: V256) {
        let mut lo = [0u8; 16];
        let mut hi = [0u8; 16];
        let mut i: usize = 0;
        while i < 16
            invariant
                i <= 16,
                forall|j: int| 0 <= j < i ==> #[trigger] lo@[j] == if j % 2 == 0 { a@[j / 2] } else { 0 },
                forall|j: int| 0 <= j < i ==> #[trigger] hi@[j] == if j % 2 == 0 { a@[8 + j / 2] } else { 0 },
            decreases 16 - i,
        {
            if i % 2 == 0 {
                lo[i] = a.0[i / 2];
                hi[i] = a.0[8 + i / 2];
            } else {
                lo[i] = 0;
                hi[i] = 0;
            }
            i += 1;
        }
        let r = V256 { lo: V128(lo), hi: V128(hi) };
        assert forall|k: int| 0 <= k < 16 implies #[trigger] lane16(r@, k) == a@[k] by {
            if k < 8 {
                assert(r@[2 * k] == lo@[2 * k]);
                assert(r@[2 * k + 1] == lo@[2 * k + 1]);
            } else {
                assert(r@[2 * k] == hi@[2 * (k - 8)]);
                assert(r@[2 * k + 1] == hi@[2 * (k - 8) + 1]);
            }
        }
        r
    }

    fn u64x4_unzip_low(self, a: V256) -> (r: V128) {
        let mut out = [0u8; 16];
        let mut i: usize = 0;
        while i < 8
            invariant
                i <= 8,
                forall|j: int| 0 <= j < i ==> out@[j] == a.lo@[j] && out@[j + 8] == a.hi@[j],
            decreases 8 - i,
        {
            out[i] = a.lo.0[i];
            out[i + 8] = a.hi.0[i];
            i += 1;
        }
        assert(out@ =~= a.lo@.subrange(0, 8) + a.hi@.subrange(0, 8));
        V128(out)
    }
}

/// The high and low nibbles of a byte, by mask.
proof fn lemma_nibbles(x: u8)
    ensures
        (x & 0xf0) == 16 * (x / 16),
        (x & 0x0f) == x % 16,
{
    lemma_byte_bits3(x, 0, 0);
    lemma_byte_bits(x, 0);
}

/// The two nibble tables accept exactly the hex digits, and the offset
/// table turns the low nibble of a digit into its value.
proof fn lemma_nibble_classes(x: u8)
    ensures
        (hi_nibble_class(x / 16) & lo_nibble_class(x % 16)) != 0 <==> is_hex_digit(x),
        is_hex_digit(x) ==> (x % 16 + nibble_offset(x / 16)) as u8 == spec_unhex(x),
{
    assert(((hi_nibble_class(x / 16) & lo_nibble_class(x % 16)) != 0 <==> is_hex_digit(x)) && (is_hex_digit(x) ==> (x
        % 16 + nibble_offset(x / 16)) as u8 == spec_unhex(x))) by (bit_vector);
}

/// Joining a high nibble, already shifted, and a low nibble by OR is their sum.
pub proof fn lemma_join_nibbles(x: u8, y: u8, p: u8)
    requires
        x < 16,
        y < 16,
        p == 16 * x,
    ensures
        (p | y) == p + y,
{
    lemma_join_bits(x, y);
}

/// The bytes of a 16-bit lane are the base-256 digits of its value.
proof fn lemma_lane16_digits(s: Seq<u8>, k: int, lo: int, hi: int)
    requires
        0 <= k,
        2 * k + 1 < s.len(),
        lane16(s, k) == lo + 256 * hi,
        0 <= lo < 256,
        0 <= hi < 256,
    ensures
        s[2 * k] == lo,
        s[2 * k + 1] == hi,
{
    let a = s[2 * k] as int;
    let b = s[2 * k + 1] as int;
    assert(b == hi) by (nonlinear_arith)
        requires
            a + 256 * b == lo + 256 * hi,
            0 <= a < 256,
            0 <= lo < 256,
            0 <= b < 256,
            0 <= hi < 256,
    ;
}

/// Whether every byte is a hex digit, given the high nibbles `hi` and low
/// nibbles `lo` of the bytes.
fn check_u8x32_hilo<S: SIMD256>(s: S, hi: V256, lo: V256) -> (r: bool)
    requires
        forall|i: int| 0 <= i < 32 ==> #[trigger] hi@[i] < 16 && lo@[i] < 16,
    ensures
        r == forall|i: int| 0 <= i < 32 ==> (#[trigger] hi_nibble_class(hi@[i]) & lo_nibble_class(lo@[i])) != 0,
{
    let hi_lut = load_double(s, [
        0x00, 0x00, 0x00, 0x0f, 0xf0, 0x00, 0xf0, 0x00, //
        0x00, 0x00, 0x00, 0x00, 0x00, 0x00, 0x00, 0x00, //
    ]);
    let lo_lut = load_double(s, [
        0x0f, 0xff, 0xff, 0xff, 0xff, 0xff, 0xff, 0x0f, //
        0x0f, 0x0f, 0x00, 0x00, 0x00, 0x00, 0x00, 0x00, //
    ]);
    assert(forall|k: int| 0 <= k < 32 ==> #[trigger] hi_lut@[k] == hi_nibble_class((k % 16) as u8));
    assert(forall|k: int| 0 <= k < 32 ==> #[trigger] lo_lut@[k] == lo_nibble_class((k % 16) as u8));
    let hi_check = s.u8x16x2_swizzle(hi_lut, hi);
    let lo_check = s.u8x16x2_swizzle(lo_lut, lo);
    let check = s.v256_and(hi_check, lo_check);
    proof {
        reveal(op2);
        lemma_bytes2(Op2::And, hi_check@, lo_check@, check@);
        assert forall|i: int| 0 <= i < 32 implies #[trigger] check@[i] == (hi_nibble_class(hi@[i]) & lo_nibble_class(lo@[i])) by {
            assert(hi_check@[i] == hi_lut@[i - i % 16 + hi@[i]]);
            assert(lo_check@[i] == lo_lut@[i - i % 16 + lo@[i]]);
        }
        if any_zero(check@) {
            let i = choose|i: int| 0 <= i < 32 && #[trigger] check@[i] == 0;
            assert((hi_nibble_class(hi@[i]) & lo_nibble_class(lo@[i])) == 0);
        } else {
            assert forall|i: int| 0 <= i < 32 implies (#[trigger] hi_nibble_class(hi@[i]) & lo_nibble_class(
                lo@[i],
            )) != 0 by {
                assert(check@[i] != 0);
            }
        }
    }
    !s.u8x32_any_zero(check)
}

/// The nibble split of the decoding: `hi` holds the high nibbles, shifted
/// down, and `lo` the low nibbles.
proof fn lemma_decode_nibbles(a: Seq<u8>, m_f0: Seq<u8>, t: Seq<u8>, hi: Seq<u8>, m_0f: Seq<u8>, lo: Seq<u8>)
    requires
        a.len() == 32,
        splat(1, 0xf0, m_f0),
        splat(1, 0x0f, m_0f),
        lanes2(Op2::And, 1, a, m_f0, t),
        lanes2(Op2::And, 1, a, m_0f, lo),
        lanes1(Op1::Shr(4), 2, t, hi),
    ensures
        forall|i: int| 0 <= i < 32 ==> #[trigger] lo[i] == a[i] % 16,
        forall|i: int| 0 <= i < 32 ==> #[trigger] hi[i] == a[i] / 16,
{
    reveal(op2);
    reveal(op1);
    lemma2_to64();
    lemma_splat_bytes(0xf0, m_f0);
    lemma_splat_bytes(0x0f, m_0f);
    lemma_bytes2(Op2::And, a, m_f0, t);
    lemma_bytes2(Op2::And, a, m_0f, lo);
    lemma_lanes1_16(Op1::Shr(4), t, hi);
    assert forall|i: int| 0 <= i < 32 implies #[trigger] lo[i] == a[i] % 16 by {
        lemma_nibbles(a[i]);
    }
    assert forall|i: int| 0 <= i < 32 implies #[trigger] hi[i] == a[i] / 16 by {
        let k = i / 2;
        lemma_nibbles(a[2 * k]);
        lemma_nibbles(a[2 * k + 1]);
        assert(lane16(hi, k) == lane16(t, k) / 16);
        assert(lane16(t, k) == 16 * (a[2 * k] / 16) + 256 * (16 * (a[2 * k + 1] / 16)));
        assert(lane16(hi, k) == a[2 * k] / 16 + 256 * (a[2 * k + 1] / 16));
        lemma_lane16_digits(hi, k, (a[2 * k] / 16) as int, (a[2 * k + 1] / 16) as int);
    }
}

/// The joining step of the decoding: each even byte of `a4` is the byte
/// whose nibbles are the pair of digit values in `a1`.
proof fn lemma_decode_join(a1: Seq<u8>, a2: Seq<u8>, a3: Seq<u8>, a4: Seq<u8>)
    requires
        a1.len() == 32,
        forall|i: int| 0 <= i < 32 ==> #[trigger] a1[i] < 16,
        lanes1(Op1::Shl(4), 2, a1, a2),
        lanes1(Op1::Shr(12), 2, a2, a3),
        lanes2(Op2::Or, 1, a2, a3, a4),
    ensures
        forall|k: int| 0 <= k < 16 ==> #[trigger] a4[2 * k] == 16 * a1[2 * k] + a1[2 * k + 1],
{
    reveal(op2);
    reveal(op1);
    lemma2_to64();
    lemma_bytes2(Op2::Or, a2, a3, a4);
    lemma_lanes1_16(Op1::Shl(4), a1, a2);
    lemma_lanes1_16(Op1::Shr(12), a2, a3);
    assert forall|k: int| 0 <= k < 16 implies #[trigger] a4[2 * k] == 16 * a1[2 * k] + a1[2 * k + 1] by {
        let x = a1[2 * k];
        let y = a1[2 * k + 1];
        assert(x < 16 && y < 16);
        assert(lane16(a1, k) == x + 256 * y);
        assert(lane16(a2, k) == (lane16(a1, k) * 16) % 0x1_0000);
        assert((x + 256 * y) * 16 % 0x1_0000 == 16 * x + 256 * (16 * y)) by (nonlinear_arith)
            requires
                0 <= x < 16,
                0 <= y < 16,
        ;
        lemma_lane16_digits(a2, k, 16 * x, 16 * y);
        assert(lane16(a3, k) == lane16(a2, k) / 4096);
        assert(lane16(a3, k) == y);
        lemma_lane16_digits(a3, k, y as int, 0);
        lemma_join_nibbles(x, y, a2[2 * k]);
    }
}

/// Decodes 32 hex digits into 16 bytes, or fails if some byte is not a hex
/// digit.
pub fn decode_u8x32<S: SIMDExt>(s: S, a: V256) -> (r: Result<V128, ()>)
    ensures
        r is Ok <==> all_hex(a@),
        r matches Ok(v) ==> v@ == hex_decode(a@),
{
    let m_f0 = s.u8x32_splat(0xf0);
    let t = s.v256_and(a, m_f0);
    let hi = s.u16x16_shr::<4>(t);
    let m_0f = s.u8x32_splat(0x0f);
    let lo = s.v256_and(a, m_0f);
    proof {
        lemma_decode_nibbles(a@, m_f0@, t@, hi@, m_0f@, lo@);
    }
    if !check_u8x32_hilo(s, hi, lo) {
        proof {
            let i = choose|i: int| 0 <= i < 32 && !((#[trigger] hi_nibble_class(hi@[i]) & lo_nibble_class(lo@[i])) != 0);
            lemma_nibble_classes(a@[i]);
        }
        return Err(());
    }
    proof {
        assert forall|i: int| 0 <= i < 32 implies is_hex_digit(#[trigger] a@[i]) by {
            lemma_nibble_classes(a@[i]);
            assert((hi_nibble_class(hi@[i]) & lo_nibble_class(lo@[i])) != 0);
        }
    }
    let offset_lut = load_double(s, [
        0x00, 0x00, 0x00, 0x00, 0x09, 0x00, 0x09, 0x00, //
        0x00, 0x00, 0x00, 0x00, 0x00, 0x00, 0x00, 0x00, //
    ]);
    let shuffle = load_double(s, [
        0x00, 0x02, 0x04, 0x06, 0x08, 0x0a, 0x0c, 0x0e, //
        0x80, 0x80, 0x80, 0x80, 0x80, 0x80, 0x80, 0x80, //
    ]);
    assert(forall|k: int| 0 <= k < 32 ==> #[trigger] offset_lut@[k] == nibble_offset((k % 16) as u8));
    assert(forall|k: int| 0 <= k < 32 ==> #[trigger] shuffle@[k] == if k % 16 < 8 { 2 * (k % 16) } else { 0x80 });
    let offset = s.u8x16x2_swizzle(offset_lut, hi);
    let a1 = s.u8x32_add(lo, offset);
    let a2 = s.u16x16_shl::<4>(a1);
    let a3 = s.u16x16_shr::<12>(a2);
    let a4 = s.v256_or(a2, a3);
    let a5 = s.u8x16x2_swizzle(a4, shuffle);
    let a6 = s.u64x4_unzip_low(a5);
    proof {
        reveal(op2);
        lemma_bytes2(Op2::Add, lo@, offset@, a1@);
        assert forall|i: int| 0 <= i < 32 implies #[trigger] a1@[i] == spec_unhex(a@[i]) by {
            assert(offset@[i] == offset_lut@[i - i % 16 + hi@[i]]);
            lemma_nibble_classes(a@[i]);
        }
        assert forall|i: int| 0 <= i < 32 implies #[trigger] a1@[i] < 16 by {
            lemma_nibble_classes(a@[i]);
        }
        lemma_decode_join(a1@, a2@, a3@, a4@);
        assert forall|j: int| 0 <= j < 16 implies #[trigger] a6@[j] == hex_decode(a@)[j] by {
            if j < 8 {
                assert(a6@[j] == a5@[j]);
                assert(a5@[j] == a4@[2 * j]);
            } else {
                assert(a6@[j] == a5@[j + 8]);
                assert(a5@[j + 8] == a4@[2 * j]);
            }
        }
        assert(a6@ =~= hex_decode(a@));
    }
    Ok(a6)
}

/// The hex digit for the value `n` (`0..16`) in the given letter case.
pub open spec fn hex_char(case: AsciiCase, n: u8) -> u8 {
    if n < 10 {
        (0x30 + n) as u8
    } else if case == AsciiCase::Upper {
        (0x41 + n - 10) as u8
    } else {
        (0x61 + n - 10) as u8
    }
}

/// The hex digits of `case`, by value.
pub open spec fn hex_charset(case: AsciiCase) -> Seq<u8> {
    Seq::new(16, |n: int| hex_char(case, n as u8))
}

/// Two hex digits per byte of `s`, high digit first, taken from `chars`.
pub open spec fn hex_encode(s: Seq<u8>, chars: Seq<u8>) -> Seq<u8> {
    Seq::new(
        2 * s.len(),
        |i: int|
            if i % 2 == 0 {
                chars[(s[i / 2] / 16) as int]
            } else {
                chars[(s[i / 2] % 16) as int]
            },
    )
}

/// Decoding the hex text of bytes gives the bytes back: every character of
/// the text, in either case, is a hex digit, and each pair spells its byte.
pub proof fn lemma_hex_decode_encode(b: Seq<u8>, case: AsciiCase)
    ensures
        all_hex(hex_encode(b, hex_charset(case))),
        hex_decode(hex_encode(b, hex_charset(case))) == b,
{
    let h = hex_encode(b, hex_charset(case));
    assert forall|i: int| 0 <= i < h.len() implies is_hex_digit(#[trigger] h[i]) by {
        assert(b[i / 2] / 16 < 16 && b[i / 2] % 16 < 16);
    }
    assert forall|j: int| 0 <= j < b.len() implies #[trigger] hex_decode(h)[j] == b[j] by {
        assert(h[2 * j] == hex_char(case, b[j] / 16));
        assert(h[2 * j + 1] == hex_char(case, b[j] % 16));
        assert(spec_unhex(hex_char(case, b[j] / 16)) == b[j] / 16);
        assert(spec_unhex(hex_char(case, b[j] % 16)) == b[j] % 16);
    }
    assert(hex_decode(h) =~= b);
}

/// The 16 hex digits of `case`, by value.
pub fn charset(case: AsciiCase) -> (r: [u8; 16])
    ensures
        r@ == hex_charset(case),
{
    let r = match case {
        AsciiCase::Lower => [
            0x30, 0x31, 0x32, 0x33, 0x34, 0x35, 0x36, 0x37, //
            0x38, 0x39, 0x61, 0x62, 0x63, 0x64, 0x65, 0x66, //
        ],
        AsciiCase::Upper => [
            0x30, 0x31, 0x32, 0x33, 0x34, 0x35, 0x36, 0x37, //
            0x38, 0x39, 0x41, 0x42, 0x43, 0x44, 0x45, 0x46, //
        ],
    };
    assert(r@ =~= hex_charset(case));
    r
}

/// The encoding table of `case`, repeated in both halves.
pub fn encode_lut(case: AsciiCase) -> (r: Bytes32)
    ensures
        r.0@ == hex_charset(case) + hex_charset(case),
{
    Bytes32::double(charset(case))
}

/// The two nibbles that the encoding looks up, through the shifts and masks.
proof fn lemma_split_nibbles(x: u8, q: u8)
    requires
        q == x / 16,
    ensures
        ((0u8 | q) & 0x0f) == x / 16,
        ((x | 0u8) & 0x0f) == x % 16,
{
    lemma_byte_bits(x, 0);
    lemma_byte_bits(q, 0);
}

/// Encodes the 16 bytes of `a` as 32 hex digits looked up in `lut`: byte `k`
/// gives the digits of its high and low nibble at `2k` and `2k + 1`, taken
/// from the half of `lut` that those positions fall in.
pub fn encode_u8x16<S: SIMDExt>(s: S, a: V128, lut: V256) -> (r: V256)
    ensures
        forall|k: int|
            0 <= k < 16 ==> #[trigger] r@[2 * k] == lut@[16 * (k / 8) + a@[k] / 16] && r@[2 * k + 1] == lut@[16
                * (k / 8) + a@[k] % 16],
        lut.lo@ == lut.hi@ ==> r@ == hex_encode(a@, lut.lo@),
{
    let a0 = s.u16x16_from_u8x16(a);
    let a1 = s.u16x16_shl::<8>(a0);
    let a2 = s.u16x16_shr::<4>(a0);
    let o = s.v256_or(a1, a2);
    let m = s.u8x32_splat(0x0f);
    let a3 = s.v256_and(o, m);
    let r = s.u8x16x2_swizzle(lut, a3);
    proof {
        reveal(op2);
        reveal(op1);
        lemma2_to64();
        lemma_lanes1_16(Op1::Shl(8), a0@, a1@);
        lemma_lanes1_16(Op1::Shr(4), a0@, a2@);
        lemma_bytes2(Op2::Or, a1@, a2@, o@);
        lemma_splat_bytes(0x0f, m@);
        lemma_bytes2(Op2::And, o@, m@, a3@);
        assert forall|k: int| 0 <= k < 16 implies #[trigger] a3@[2 * k] == a@[k] / 16 && a3@[2 * k + 1] == a@[k]
            % 16 by {
            let x = a@[k];
            assert(lane16(a1@, k) == (x as int * 256) % 0x1_0000);
            assert((x as int * 256) % 0x1_0000 == 256 * x) by (nonlinear_arith)
                requires
                    0 <= x < 256,
            ;
            lemma_lane16_digits(a1@, k, 0, x as int);
            assert(lane16(a2@, k) == x / 16);
            lemma_lane16_digits(a2@, k, (x / 16) as int, 0);
            lemma_split_nibbles(x, a2@[2 * k]);
        }
        assert forall|k: int| 0 <= k < 16 implies #[trigger] r@[2 * k] == lut@[16 * (k / 8) + a@[k] / 16] && r@[2
            * k + 1] == lut@[16 * (k / 8) + a@[k] % 16] by {
            assert(r@[2 * k] == lut@[2 * k - (2 * k) % 16 + a3@[2 * k]]);
            assert(r@[2 * k + 1] == lut@[2 * k + 1 - (2 * k + 1) % 16 + a3@[2 * k + 1]]);
        }
        if lut.lo@ == lut.hi@ {
            assert forall|i: int| 0 <= i < 32 implies #[trigger] r@[i] == hex_encode(a@, lut.lo@)[i] by {
                let k = i / 2;
                assert(r@[2 * k] == lut@[16 * (k / 8) + a@[k] / 16]);
                assert(r@[2 * k + 1] == lut@[16 * (k / 8) + a@[k] % 16]);
            }
            assert(r@ =~= hex_encode(a@, lut.lo@));
        }
    }
    r
}

} // verus!
