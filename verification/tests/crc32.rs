use simd::crc32::{compute, POLYNOMIAL_CRC32C, POLYNOMIAL_CRC32_IEEE, CRC32};
use simd::isa::{Fallback, InstructionSet};

const CHECK: &[u8] = b"123456789";
const FOX: &[u8] = b"The quick brown fox jumps over the lazy dog";

#[test]
fn crc32c_check_values() {
    let s = Fallback::new();
    assert_eq!(compute::<Fallback, POLYNOMIAL_CRC32C>(s, 0, b""), 0);
    assert_eq!(compute::<Fallback, POLYNOMIAL_CRC32C>(s, 0, CHECK), 0xE306_9283);
    assert_eq!(compute::<Fallback, POLYNOMIAL_CRC32C>(s, 0, FOX), 0x2262_0404);
}

#[test]
fn crc32_ieee_check_values() {
    let s = Fallback::new();
    assert_eq!(compute::<Fallback, POLYNOMIAL_CRC32_IEEE>(s, 0, b""), 0);
    assert_eq!(compute::<Fallback, POLYNOMIAL_CRC32_IEEE>(s, 0, CHECK), 0xCBF4_3926);
    assert_eq!(compute::<Fallback, POLYNOMIAL_CRC32_IEEE>(s, 0, FOX), 0x414F_A339);
}

#[test]
fn crc32_continues_across_pieces() {
    let s = Fallback::new();
    for cut in 0..=FOX.len() {
        let (a, b) = FOX.split_at(cut);
        let first = compute::<Fallback, POLYNOMIAL_CRC32C>(s, 0, a);
        let whole = compute::<Fallback, POLYNOMIAL_CRC32C>(s, first, b);
        assert_eq!(whole, 0x2262_0404, "cut {}", cut);
    }
}

#[test]
fn crc32_wide_steps_match_bytes() {
    let s = Fallback::new();
    let c0 = 0x1234_5678u32;
    let mut c = c0;
    for b in 0x0102_0304_0506_0708u64.to_le_bytes() {
        c = <Fallback as CRC32<POLYNOMIAL_CRC32C>>::crc32_u8(s, c, b);
    }
    assert_eq!(<Fallback as CRC32<POLYNOMIAL_CRC32C>>::crc32_u64(s, c0, 0x0102_0304_0506_0708), c);

    let mut c = c0;
    for b in 0xa1b2_c3d4u32.to_le_bytes() {
        c = <Fallback as CRC32<POLYNOMIAL_CRC32_IEEE>>::crc32_u8(s, c, b);
    }
    assert_eq!(<Fallback as CRC32<POLYNOMIAL_CRC32_IEEE>>::crc32_u32(s, c0, 0xa1b2_c3d4), c);

    let mut c = c0;
    for b in 0xbeefu16.to_le_bytes() {
        c = <Fallback as CRC32<POLYNOMIAL_CRC32_IEEE>>::crc32_u8(s, c, b);
    }
    assert_eq!(<Fallback as CRC32<POLYNOMIAL_CRC32_IEEE>>::crc32_u16(s, c0, 0xbeef), c);
}
