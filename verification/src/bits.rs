//! Bit-level facts about bytes and fixed-width integers, each group proved
//! once by the bit-vector solver.
use vstd::prelude::*;

verus! {

/// Masks, shifts and ORs of bytes.
pub proof fn lemma_byte_bits(x: u8, y: u8)
    by (bit_vector)
    ensures
        ((x | y) < 0x80) == (x < 0x80 && y < 0x80),
        ((x | y) == 0) == (x == 0 && y == 0),
        (x | 0u8) == x,
        (0u8 | x) == x,
        ((x & 0xf0u8) == 0) == (x < 16),
        (x & 0x0fu8) == x % 16,
        (x >> 4u8) == x / 16,
        (x >> 7u8) == x / 128,
        (145 <= (x & 0xdfu8) <= 150) == (145 <= x <= 150 || 177 <= x <= 182),
        ((x == 0 || x == 0xff) && (y == 0 || y == 0xff)) ==> ((x | y) == 0 || (x | y) == 0xff),
        (x < 32 && y < 32) ==> (x | y) < 32,
        x < 32 ==> (x & 0x1fu8) == x,
        (x & 0u8) == 0,
        (x & 0xffu8) == x,
{
}

/// Joining two nibbles into a byte.
pub proof fn lemma_join_bits(x: u8, y: u8)
    by (bit_vector)
    ensures
        (x << 4u8) == (16 * x) % 256,
        (x < 16 && y < 16) ==> (((x << 4u8) | y) == 16 * x + y),
{
}

/// Bitwise select, and ORs of flags that are either `0xff` or below 16.
pub proof fn lemma_byte_bits3(x: u8, y: u8, z: u8)
    by (bit_vector)
    ensures
        (((y ^ z) & x) ^ z) == ((x & y) | (!x & z)),
        (x & 0xf0u8) == 16 * (x / 16),
        ((x == 0xff || x < 16) && (y == 0xff || y < 16) && (z == 0xff || z < 16)) ==> ((((x | y | z) == 0xff)
            == (x == 0xff || y == 0xff || z == 0xff)) && ((x | y | z) == 0xff || (x | y | z) < 16)),
{
}

/// `x` with its two bytes swapped.
pub open spec fn swap16(x: u16) -> u16 {
    ((x & 0xff) << 8u16) | (x >> 8u16)
}

/// `x` with its four bytes in reverse order.
pub open spec fn swap32(x: u32) -> u32 {
    ((x & 0xff) << 24u32) | (((x >> 8u32) & 0xff) << 16u32) | (((x >> 16u32) & 0xff) << 8u32) | (x >> 24u32)
}

/// `x` with its eight bytes in reverse order.
pub open spec fn swap64(x: u64) -> u64 {
    ((x & 0xff) << 56u64) | (((x >> 8u64) & 0xff) << 48u64) | (((x >> 16u64) & 0xff) << 40u64) | (((x >> 24u64)
        & 0xff) << 32u64) | (((x >> 32u64) & 0xff) << 24u64) | (((x >> 40u64) & 0xff) << 16u64) | (((x >> 48u64)
        & 0xff) << 8u64) | (x >> 56u64)
}

/// The number with bytes `b0` (least significant) to `b7`.
pub open spec fn u64_of_bytes(b0: u8, b1: u8, b2: u8, b3: u8, b4: u8, b5: u8, b6: u8, b7: u8) -> int {
    b0 + 0x100 * b1 + 0x1_0000 * b2 + 0x100_0000 * b3 + 0x1_0000_0000 * (b4 + 0x100 * b5 + 0x1_0000 * b6
        + 0x100_0000 * b7)
}

/// Clearing bits of a byte.
pub proof fn lemma_andnot_bits(x: u8, y: u8)
    by (bit_vector)
    ensures
        (x & !0u8) == x,
        (x & !0xffu8) == 0,
        (0u8 & !y) == 0,
{
}

/// The bytes of 16-bit values, least significant first.
pub proof fn lemma_u16_bits(u: u16, b0: u8, b1: u8)
    by (bit_vector)
    ensures
        ((u & 0xff) as u8) + 256 * ((u >> 8u16) as u8) == u,
        (((b1 as u16) << 8u16) | (b0 as u16)) == b0 + 256 * b1,
        ((b0 as u16) | ((b1 as u16) << 8u16)) == b0 + 256 * b1,
        swap16(swap16(u)) == u,
        ((b1 + 256 * b0) as u16) == swap16((b0 + 256 * b1) as u16),
{
}

/// The signed and unsigned readings of 16 bits.
pub proof fn lemma_i16_bits(x: i16, u: u16)
    by (bit_vector)
    ensures
        u == x as u16 ==> ((x < 0 ==> u == x + 0x1_0000) && (x >= 0 ==> u == x)),
        x == u as i16 ==> ((u < 0x8000 ==> x == u) && (u >= 0x8000 ==> x == u - 0x1_0000)),
{
}

/// The signed and unsigned readings of 32 bits.
pub proof fn lemma_i32_bits(x: i32, u: u32)
    by (bit_vector)
    ensures
        u == x as u32 ==> ((x < 0 ==> u == x + 0x1_0000_0000) && (x >= 0 ==> u == x)),
        x == u as i32 ==> ((u < 0x8000_0000 ==> x == u) && (u >= 0x8000_0000 ==> x == u - 0x1_0000_0000)),
{
}

/// The bytes of 32-bit values, least significant first.
pub proof fn lemma_u32_bits(u: u32, b0: u8, b1: u8, b2: u8, b3: u8)
    by (bit_vector)
    ensures
        ((u & 0xff) as u8) + 256 * (((u >> 8u32) & 0xff) as u8) + 0x1_0000 * ((((u >> 16u32) & 0xff) as u8) + 256
            * ((u >> 24u32) as u8)) == u,
        ((b0 as u32) | ((b1 as u32) << 8u32) | ((b2 as u32) << 16u32) | ((b3 as u32) << 24u32)) == b0 + 256 * b1
            + 0x1_0000 * (b2 + 256 * b3),
        ((b3 + 256 * b2 + 0x1_0000 * (b1 + 256 * b0)) as u32) == swap32((b0 + 256 * b1 + 0x1_0000 * (b2 + 256
            * b3)) as u32),
        swap32(swap32(u)) == u,
        !(!u) == u,
{
}

/// Two 16-bit halves of a 32-bit value.
pub proof fn lemma_u32_halves(lo: u32, hi: u32)
    by (bit_vector)
    requires
        lo < 0x1_0000,
        hi < 0x1_0000,
    ensures
        ((hi << 16u32) | lo) == lo + 0x1_0000 * hi,
{
}

/// The bytes of 64-bit values, least significant first.
pub proof fn lemma_u64_bits(u: u64)
    by (bit_vector)
    ensures
        ((u & 0xff) as u8) + 0x100 * (((u >> 8u64) & 0xff) as u8) + 0x1_0000 * (((u >> 16u64) & 0xff) as u8)
            + 0x100_0000 * (((u >> 24u64) & 0xff) as u8) + 0x1_0000_0000 * ((((u >> 32u64) & 0xff) as u8) + 0x100
            * (((u >> 40u64) & 0xff) as u8) + 0x1_0000 * (((u >> 48u64) & 0xff) as u8) + 0x100_0000 * ((u
            >> 56u64) as u8)) == u,
{
}

/// The 64-bit value with bytes `b0` (least significant) to `b7`.
pub proof fn lemma_u64_pack(v: u64, b0: u8, b1: u8, b2: u8, b3: u8, b4: u8, b5: u8, b6: u8, b7: u8)
    by (bit_vector)
    requires
        v == (b0 as u64) | ((b1 as u64) << 8u64) | ((b2 as u64) << 16u64) | ((b3 as u64) << 24u64) | ((b4 as u64)
            << 32u64) | ((b5 as u64) << 40u64) | ((b6 as u64) << 48u64) | ((b7 as u64) << 56u64),
    ensures
        v == b0 + 0x100 * b1 + 0x1_0000 * b2 + 0x100_0000 * b3 + 0x1_0000_0000 * (b4 + 0x100 * b5 + 0x1_0000 * b6
            + 0x100_0000 * b7),
        ((v >> 0u64) & 0xff) as u8 == b0,
        ((v >> 8u64) & 0xff) as u8 == b1,
        ((v >> 16u64) & 0xff) as u8 == b2,
        ((v >> 24u64) & 0xff) as u8 == b3,
        ((v >> 32u64) & 0xff) as u8 == b4,
        ((v >> 40u64) & 0xff) as u8 == b5,
        ((v >> 48u64) & 0xff) as u8 == b6,
        ((v >> 56u64) & 0xff) as u8 == b7,
{
}

/// Byte swaps of 64-bit values: of a value given by its bytes, and twice.
pub proof fn lemma_u64_swap(x: u64, b0: u8, b1: u8, b2: u8, b3: u8, b4: u8, b5: u8, b6: u8, b7: u8)
    by (bit_vector)
    ensures
        swap64(swap64(x)) == x,
        (u64_of_bytes(b7, b6, b5, b4, b3, b2, b1, b0) as u64) == swap64(
            u64_of_bytes(b0, b1, b2, b3, b4, b5, b6, b7) as u64,
        ),
{
}

/// Byte 0 of the packing of eight 5-bit values is byte 0 of the 40-bit
/// number that they spell, most significant first.
pub proof fn lemma_pack5_byte0(b0: u8, b1: u8, b2: u8, b3: u8, b4: u8, b5: u8, b6: u8, b7: u8)
    by (bit_vector)
    requires
        b0 < 32,
        b1 < 32,
        b2 < 32,
        b3 < 32,
        b4 < 32,
        b5 < 32,
        b6 < 32,
        b7 < 32,
    ensures
        (((8 * b0) as u8) | (((64 * b1) / 256) as u8)) == (((b0 * 0x8_0000_0000 + b1 * 0x4000_0000 + b2 * 0x200_0000 + b3 * 0x10_0000 + b4 * 0x8000 + b5 * 0x400 + b6 * 0x20 + b7) / 0x100_0000 / 0x100) % 256) as u8,
{
}

/// Byte 1 of the packing of eight 5-bit values is byte 1 of the 40-bit
/// number that they spell, most significant first.
pub proof fn lemma_pack5_byte1(b0: u8, b1: u8, b2: u8, b3: u8, b4: u8, b5: u8, b6: u8, b7: u8)
    by (bit_vector)
    requires
        b0 < 32,
        b1 < 32,
        b2 < 32,
        b3 < 32,
        b4 < 32,
        b5 < 32,
        b6 < 32,
        b7 < 32,
    ensures
        ((((2 * b2) as u8) | (((64 * b1) % 256) as u8)) | (0u8 | (((16 * b3) / 256) as u8))) == (((b0 * 0x8_0000_0000 + b1 * 0x4000_0000 + b2 * 0x200_0000 + b3 * 0x10_0000 + b4 * 0x8000 + b5 * 0x400 + b6 * 0x20 + b7) / 0x100_0000) % 256) as u8,
{
}

/// Byte 2 of the packing of eight 5-bit values is byte 2 of the 40-bit
/// number that they spell, most significant first.
pub proof fn lemma_pack5_byte2(b0: u8, b1: u8, b2: u8, b3: u8, b4: u8, b5: u8, b6: u8, b7: u8)
    by (bit_vector)
    requires
        b0 < 32,
        b1 < 32,
        b2 < 32,
        b3 < 32,
        b4 < 32,
        b5 < 32,
        b6 < 32,
        b7 < 32,
    ensures
        ((((128 * b4) / 256) as u8) | (((16 * b3) % 256) as u8)) == (((b0 * 0x8_0000_0000 + b1 * 0x4000_0000 + b2 * 0x200_0000 + b3 * 0x10_0000 + b4 * 0x8000 + b5 * 0x400 + b6 * 0x20 + b7) / 0x1_0000) % 256) as u8,
{
}

/// Byte 3 of the packing of eight 5-bit values is byte 3 of the 40-bit
/// number that they spell, most significant first.
pub proof fn lemma_pack5_byte3(b0: u8, b1: u8, b2: u8, b3: u8, b4: u8, b5: u8, b6: u8, b7: u8)
    by (bit_vector)
    requires
        b0 < 32,
        b1 < 32,
        b2 < 32,
        b3 < 32,
        b4 < 32,
        b5 < 32,
        b6 < 32,
        b7 < 32,
    ensures
        (((((32 * b6) / 256) as u8) | ((4 * b5) as u8)) | ((((128 * b4) % 256) as u8) | 0u8)) == (((b0 * 0x8_0000_0000 + b1 * 0x4000_0000 + b2 * 0x200_0000 + b3 * 0x10_0000 + b4 * 0x8000 + b5 * 0x400 + b6 * 0x20 + b7) / 0x100) % 256) as u8,
{
}

/// Byte 4 of the packing of eight 5-bit values is byte 4 of the 40-bit
/// number that they spell, most significant first.
pub proof fn lemma_pack5_byte4(b0: u8, b1: u8, b2: u8, b3: u8, b4: u8, b5: u8, b6: u8, b7: u8)
    by (bit_vector)
    requires
        b0 < 32,
        b1 < 32,
        b2 < 32,
        b3 < 32,
        b4 < 32,
        b5 < 32,
        b6 < 32,
        b7 < 32,
    ensures
        ((((32 * b6) % 256) as u8) | (b7)) == ((b0 * 0x8_0000_0000 + b1 * 0x4000_0000 + b2 * 0x200_0000 + b3 * 0x10_0000 + b4 * 0x8000 + b5 * 0x400 + b6 * 0x20 + b7) % 256) as u8,
{
}

/// The five bytes that the packing computes from eight 5-bit values are the
/// bytes of the 40-bit number that they spell, most significant first.
pub proof fn lemma_pack5(b0: u8, b1: u8, b2: u8, b3: u8, b4: u8, b5: u8, b6: u8, b7: u8)
    requires
        b0 < 32,
        b1 < 32,
        b2 < 32,
        b3 < 32,
        b4 < 32,
        b5 < 32,
        b6 < 32,
        b7 < 32,
    ensures
        (((8 * b0) as u8) | (((64 * b1) / 256) as u8)) == (((b0 * 0x8_0000_0000 + b1 * 0x4000_0000 + b2 * 0x200_0000 + b3 * 0x10_0000 + b4 * 0x8000 + b5 * 0x400 + b6 * 0x20 + b7) / 0x100_0000 / 0x100) % 256) as u8,
        ((((2 * b2) as u8) | (((64 * b1) % 256) as u8)) | (0u8 | (((16 * b3) / 256) as u8))) == (((b0 * 0x8_0000_0000 + b1 * 0x4000_0000 + b2 * 0x200_0000 + b3 * 0x10_0000 + b4 * 0x8000 + b5 * 0x400 + b6 * 0x20 + b7) / 0x100_0000) % 256) as u8,
        ((((128 * b4) / 256) as u8) | (((16 * b3) % 256) as u8)) == (((b0 * 0x8_0000_0000 + b1 * 0x4000_0000 + b2 * 0x200_0000 + b3 * 0x10_0000 + b4 * 0x8000 + b5 * 0x400 + b6 * 0x20 + b7) / 0x1_0000) % 256) as u8,
        (((((32 * b6) / 256) as u8) | ((4 * b5) as u8)) | ((((128 * b4) % 256) as u8) | 0u8)) == (((b0 * 0x8_0000_0000 + b1 * 0x4000_0000 + b2 * 0x200_0000 + b3 * 0x10_0000 + b4 * 0x8000 + b5 * 0x400 + b6 * 0x20 + b7) / 0x100) % 256) as u8,
        ((((32 * b6) % 256) as u8) | (b7)) == ((b0 * 0x8_0000_0000 + b1 * 0x4000_0000 + b2 * 0x200_0000 + b3 * 0x10_0000 + b4 * 0x8000 + b5 * 0x400 + b6 * 0x20 + b7) % 256) as u8,
{
    lemma_pack5_byte0(b0, b1, b2, b3, b4, b5, b6, b7);
    lemma_pack5_byte1(b0, b1, b2, b3, b4, b5, b6, b7);
    lemma_pack5_byte2(b0, b1, b2, b3, b4, b5, b6, b7);
    lemma_pack5_byte3(b0, b1, b2, b3, b4, b5, b6, b7);
    lemma_pack5_byte4(b0, b1, b2, b3, b4, b5, b6, b7);
}

/// The low five bits of a byte.
pub proof fn lemma_low5(x: u8)
    by (bit_vector)
    ensures
        (x & 0x1fu8) == x % 32,
{
}

/// Value 0 of the eight 5-bit values that the five bytes `b0` to `b4`
/// spell, most significant first: `v` is bytes `b0` and `b1`, as a 16-bit
/// number, shifted right by four.
pub proof fn lemma_split5_v0(b0: u8, b1: u8, b2: u8, b3: u8, b4: u8, v: u16)
    by (bit_vector)
    requires
        v * 16 <= b0 * 256 + b1 < v * 16 + 16,
    ensures
        (((v * 2) % 65536 / 256) % 32) as u8 == (((b0 * 0x1_0000_0000 + b1 * 0x100_0000 + b2 * 0x1_0000 + b3 * 0x100 + b4) / 0x100_0000 / 0x800) % 32) as u8,
{
}

/// Value 1 of the eight 5-bit values that the five bytes `b0` to `b4`
/// spell, most significant first, from bytes `b0` and `b1`.
pub proof fn lemma_split5_v1(b0: u8, b1: u8, b2: u8, b3: u8, b4: u8)
    by (bit_vector)
    ensures
        ((((b0 * 256 + b1) * 4) % 65536 / 256) % 32) as u8 == (((b0 * 0x1_0000_0000 + b1 * 0x100_0000 + b2 * 0x1_0000 + b3 * 0x100 + b4) / 0x4000_0000) % 32) as u8,
{
}

/// Value 2 of the eight 5-bit values that the five bytes `b0` to `b4`
/// spell, most significant first: `v` is bytes `b1` and `b2`, as a 16-bit
/// number, shifted right by four.
pub proof fn lemma_split5_v2(b0: u8, b1: u8, b2: u8, b3: u8, b4: u8, v: u16)
    by (bit_vector)
    requires
        v * 16 <= b1 * 256 + b2 < v * 16 + 16,
    ensures
        (((v * 8) % 65536 / 256) % 32) as u8 == (((b0 * 0x1_0000_0000 + b1 * 0x100_0000 + b2 * 0x1_0000 + b3 * 0x100 + b4) / 0x200_0000) % 32) as u8,
{
}

/// Value 3 of the eight 5-bit values that the five bytes `b0` to `b4`
/// spell, most significant first, from bytes `b1` and `b2`.
pub proof fn lemma_split5_v3(b0: u8, b1: u8, b2: u8, b3: u8, b4: u8)
    by (bit_vector)
    ensures
        ((((b1 * 256 + b2) * 16) % 65536 / 256) % 32) as u8 == (((b0 * 0x1_0000_0000 + b1 * 0x100_0000 + b2 * 0x1_0000 + b3 * 0x100 + b4) / 0x10_0000) % 32) as u8,
{
}

/// Value 4 of the eight 5-bit values that the five bytes `b0` to `b4`
/// spell, most significant first: `v` is bytes `b2` and `b3`, as a 16-bit
/// number, shifted right by four.
pub proof fn lemma_split5_v4(b0: u8, b1: u8, b2: u8, b3: u8, b4: u8, v: u16)
    by (bit_vector)
    requires
        v * 16 <= b2 * 256 + b3 < v * 16 + 16,
    ensures
        (((v * 32) % 65536 / 256) % 32) as u8 == (((b0 * 0x1_0000_0000 + b1 * 0x100_0000 + b2 * 0x1_0000 + b3 * 0x100 + b4) / 0x8000) % 32) as u8,
{
}

/// Value 5 of the eight 5-bit values that the five bytes `b0` to `b4`
/// spell, most significant first, from bytes `b2` and `b3`.
pub proof fn lemma_split5_v5(b0: u8, b1: u8, b2: u8, b3: u8, b4: u8)
    by (bit_vector)
    ensures
        ((((b2 * 256 + b3) * 64) % 65536 / 256) % 32) as u8 == (((b0 * 0x1_0000_0000 + b1 * 0x100_0000 + b2 * 0x1_0000 + b3 * 0x100 + b4) / 0x400) % 32) as u8,
{
}

/// Value 6 of the eight 5-bit values that the five bytes `b0` to `b4`
/// spell, most significant first: `v` is bytes `b3` and `b4`, as a 16-bit
/// number, shifted right by four.
pub proof fn lemma_split5_v6(b0: u8, b1: u8, b2: u8, b3: u8, b4: u8, v: u16)
    by (bit_vector)
    requires
        v * 16 <= b3 * 256 + b4 < v * 16 + 16,
    ensures
        (((v * 128) % 65536 / 256) % 32) as u8 == (((b0 * 0x1_0000_0000 + b1 * 0x100_0000 + b2 * 0x1_0000 + b3 * 0x100 + b4) / 0x20) % 32) as u8,
{
}

/// Value 7 of the eight 5-bit values that the five bytes `b0` to `b4`
/// spell, most significant first, from bytes `b3` and `b4`.
pub proof fn lemma_split5_v7(b0: u8, b1: u8, b2: u8, b3: u8, b4: u8)
    by (bit_vector)
    ensures
        ((((b3 * 256 + b4) * 256) % 65536 / 256) % 32) as u8 == (((b0 * 0x1_0000_0000 + b1 * 0x100_0000 + b2 * 0x1_0000 + b3 * 0x100 + b4)) % 32) as u8,
{
}

/// The low byte of a 64-bit value.
pub proof fn lemma_u64_low_byte(y: u64)
    by (bit_vector)
    ensures
        (y as u8) == y % 256,
{
}

/// The low five bits of a 64-bit value.
pub proof fn lemma_u64_low5(y: u64)
    by (bit_vector)
    ensures
        (y & 0x1fu64) == y % 32,
{
}

/// An OR of bytes is below 32 exactly when both are.
pub proof fn lemma_or_5bit(x: u8, y: u8)
    by (bit_vector)
    ensures
        ((x | y) < 32) == (x < 32 && y < 32),
{
}

/// Appending a 5-bit value to a number by shift and OR.
pub proof fn lemma_shift5_or(a: u64, b: u8)
    by (bit_vector)
    requires
        a < 0x100_0000_0000_0000,
        b < 32,
    ensures
        ((a << 5u64) | (b as u64)) == (a * 32 + b) as u64,
{
}

/// The high bits of the eight bytes of a 64-bit value are all clear exactly
/// when every byte is ASCII.
pub proof fn lemma_u64_high8(v: u64, b0: u8, b1: u8, b2: u8, b3: u8, b4: u8, b5: u8, b6: u8, b7: u8)
    by (bit_vector)
    requires
        v == (b0 as u64) | ((b1 as u64) << 8u64) | ((b2 as u64) << 16u64) | ((b3 as u64) << 24u64) | ((b4 as u64)
            << 32u64) | ((b5 as u64) << 40u64) | ((b6 as u64) << 48u64) | ((b7 as u64) << 56u64),
    ensures
        ((v & 0x8080_8080_8080_8080u64) == 0) == (b0 < 0x80 && b1 < 0x80 && b2 < 0x80 && b3 < 0x80 && b4 < 0x80
            && b5 < 0x80 && b6 < 0x80 && b7 < 0x80),
{
}

/// The high bits of the four bytes of a 32-bit value are all clear exactly
/// when every byte is ASCII.
pub proof fn lemma_u32_high4(v: u32, b0: u8, b1: u8, b2: u8, b3: u8)
    by (bit_vector)
    requires
        v == (b0 as u32) | ((b1 as u32) << 8u32) | ((b2 as u32) << 16u32) | ((b3 as u32) << 24u32),
    ensures
        ((v & 0x8080_8080u32) == 0) == (b0 < 0x80 && b1 < 0x80 && b2 < 0x80 && b3 < 0x80),
{
}

/// The byte high bits of an OR of 64-bit values are clear exactly when those
/// of both are.
pub proof fn lemma_u64_or_high8(a: u64, b: u64)
    by (bit_vector)
    ensures
        (((a | b) & 0x8080_8080_8080_8080u64) == 0) == (((a & 0x8080_8080_8080_8080u64) == 0) && ((b
            & 0x8080_8080_8080_8080u64) == 0)),
{
}

/// Keeping only bit 4 of a byte leaves its high bit clear.
pub proof fn lemma_bit4_only(x: u8)
    by (bit_vector)
    ensures
        (x & 0x10u8) < 0x80,
{
}

/// The ORs of the two range values of the letters `A` to `I`.
pub proof fn lemma_letter_ors()
    by (bit_vector)
    ensures
        (17u8 | 10u8) == 27u8,
        (18u8 | 11u8) == 27u8,
        (19u8 | 12u8) == 31u8,
        (20u8 | 13u8) == 29u8,
        (21u8 | 14u8) == 31u8,
        (22u8 | 15u8) == 31u8,
        (23u8 | 16u8) == 23u8,
        (24u8 | 17u8) == 25u8,
        (25u8 | 16u8) == 25u8,
{
}

/// A byte and its complement add up to `0xff`.
pub proof fn lemma_not_byte(x: u8)
    by (bit_vector)
    ensures
        (!x) == 0xffu8 - x,
{
}

/// An AND is no larger than either operand.
pub proof fn lemma_and_le(x: u8, y: u8)
    by (bit_vector)
    ensures
        (x & y) <= x && (x & y) <= y,
{
}

/// An OR is no smaller than either operand.
pub proof fn lemma_or_ge(x: u8, y: u8)
    by (bit_vector)
    ensures
        (x | y) >= x && (x | y) >= y,
{
}

/// XOR with the same byte twice gives the first byte back.
pub proof fn lemma_xor_twice(x: u8, y: u8)
    by (bit_vector)
    ensures
        ((x ^ y) ^ y) == x,
{
}

/// Clearing the bits of `y` in `x` leaves no bit of `y`, and keeps the rest.
pub proof fn lemma_andnot_parts(x: u8, y: u8)
    by (bit_vector)
    ensures
        ((x & !y) & y) == 0 && ((x & !y) | (x & y)) == x,
{
}

/// The eight 5-bit values that five bytes spell, most significant first,
/// spell those five bytes again.
pub proof fn lemma_split5_join(b0: u8, b1: u8, b2: u8, b3: u8, b4: u8)
    by (bit_vector)
    ensures
        (((b0 * 0x1_0000_0000 + b1 * 0x100_0000 + b2 * 0x1_0000 + b3 * 0x100 + b4) / 0x100_0000 / 0x800) % 32) * 0x8_0000_0000 + (((b0 * 0x1_0000_0000 + b1 * 0x100_0000 + b2 * 0x1_0000 + b3 * 0x100 + b4) / 0x4000_0000) % 32) * 0x4000_0000 + (((b0 * 0x1_0000_0000 + b1 * 0x100_0000 + b2 * 0x1_0000 + b3 * 0x100 + b4) / 0x200_0000) % 32) * 0x200_0000 + (((b0 * 0x1_0000_0000 + b1 * 0x100_0000 + b2 * 0x1_0000 + b3 * 0x100 + b4) / 0x10_0000) % 32) * 0x10_0000 + (((b0 * 0x1_0000_0000 + b1 * 0x100_0000 + b2 * 0x1_0000 + b3 * 0x100 + b4) / 0x8000) % 32) * 0x8000 + (((b0 * 0x1_0000_0000 + b1 * 0x100_0000 + b2 * 0x1_0000 + b3 * 0x100 + b4) / 0x400) % 32) * 0x400 + (((b0 * 0x1_0000_0000 + b1 * 0x100_0000 + b2 * 0x1_0000 + b3 * 0x100 + b4) / 0x20) % 32) * 0x20 + (((b0 * 0x1_0000_0000 + b1 * 0x100_0000 + b2 * 0x1_0000 + b3 * 0x100 + b4)) % 32) == (b0 * 0x1_0000_0000 + b1 * 0x100_0000 + b2 * 0x1_0000 + b3 * 0x100 + b4),
{
}

/// Byte 0 (most significant first) of the 40-bit number that five bytes
/// spell is byte `b0`.
pub proof fn lemma_byte0_of_value(b0: u8, b1: u8, b2: u8, b3: u8, b4: u8)
    by (bit_vector)
    ensures
        (((b0 * 0x1_0000_0000 + b1 * 0x100_0000 + b2 * 0x1_0000 + b3 * 0x100 + b4) / 0x100_0000 / 0x100) % 256) as u8 == b0,
{
}

/// Byte 1 (most significant first) of the 40-bit number that five bytes
/// spell is byte `b1`.
pub proof fn lemma_byte1_of_value(b0: u8, b1: u8, b2: u8, b3: u8, b4: u8)
    by (bit_vector)
    ensures
        (((b0 * 0x1_0000_0000 + b1 * 0x100_0000 + b2 * 0x1_0000 + b3 * 0x100 + b4) / 0x100_0000) % 256) as u8 == b1,
{
}

/// Byte 2 (most significant first) of the 40-bit number that five bytes
/// spell is byte `b2`.
pub proof fn lemma_byte2_of_value(b0: u8, b1: u8, b2: u8, b3: u8, b4: u8)
    by (bit_vector)
    ensures
        (((b0 * 0x1_0000_0000 + b1 * 0x100_0000 + b2 * 0x1_0000 + b3 * 0x100 + b4) / 0x1_0000) % 256) as u8 == b2,
{
}

/// Byte 3 (most significant first) of the 40-bit number that five bytes
/// spell is byte `b3`.
pub proof fn lemma_byte3_of_value(b0: u8, b1: u8, b2: u8, b3: u8, b4: u8)
    by (bit_vector)
    ensures
        (((b0 * 0x1_0000_0000 + b1 * 0x100_0000 + b2 * 0x1_0000 + b3 * 0x100 + b4) / 0x100) % 256) as u8 == b3,
{
}

/// Byte 4 (most significant first) of the 40-bit number that five bytes
/// spell is byte `b4`.
pub proof fn lemma_byte4_of_value(b0: u8, b1: u8, b2: u8, b3: u8, b4: u8)
    by (bit_vector)
    ensures
        ((b0 * 0x1_0000_0000 + b1 * 0x100_0000 + b2 * 0x1_0000 + b3 * 0x100 + b4) % 256) as u8 == b4,
{
}

/// The five bytes of the 40-bit number that five bytes spell, most
/// significant first, are those bytes.
pub proof fn lemma_bytes5_of_value(b0: u8, b1: u8, b2: u8, b3: u8, b4: u8)
    ensures
        (((b0 * 0x1_0000_0000 + b1 * 0x100_0000 + b2 * 0x1_0000 + b3 * 0x100 + b4) / 0x100_0000 / 0x100) % 256) as u8 == b0,
        (((b0 * 0x1_0000_0000 + b1 * 0x100_0000 + b2 * 0x1_0000 + b3 * 0x100 + b4) / 0x100_0000) % 256) as u8 == b1,
        (((b0 * 0x1_0000_0000 + b1 * 0x100_0000 + b2 * 0x1_0000 + b3 * 0x100 + b4) / 0x1_0000) % 256) as u8 == b2,
        (((b0 * 0x1_0000_0000 + b1 * 0x100_0000 + b2 * 0x1_0000 + b3 * 0x100 + b4) / 0x100) % 256) as u8 == b3,
        ((b0 * 0x1_0000_0000 + b1 * 0x100_0000 + b2 * 0x1_0000 + b3 * 0x100 + b4) % 256) as u8 == b4,
{
    lemma_byte0_of_value(b0, b1, b2, b3, b4);
    lemma_byte1_of_value(b0, b1, b2, b3, b4);
    lemma_byte2_of_value(b0, b1, b2, b3, b4);
    lemma_byte3_of_value(b0, b1, b2, b3, b4);
    lemma_byte4_of_value(b0, b1, b2, b3, b4);
}

} // verus!
