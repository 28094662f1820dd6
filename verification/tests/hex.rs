use simd::ascii::AsciiCase;
use simd::hex::{check_u8x32, decode_u8x32, encode_lut, encode_u8x16, unhex};
use simd::isa::{Fallback, InstructionSet, SIMD128, SIMD256};

#[test]
fn unhex_digits() {
    for (i, c) in b"0123456789abcdef".iter().enumerate() {
        assert_eq!(unhex(*c), i as u8);
    }
    for (i, c) in b"ABCDEF".iter().enumerate() {
        assert_eq!(unhex(*c), 10 + i as u8);
    }
    for c in [b'g', b'G', b'/', b':', b'@', b'`', b' ', 0x80, 0xff] {
        assert_eq!(unhex(c), 0xff);
    }
}

#[test]
fn decode_and_encode_vectors() {
    let s = Fallback::new();
    let text = b"00112233445566778899AaBbCcDdEeFf";
    let a = s.v256_load_unaligned(text, 0);
    let v = decode_u8x32(s, a).ok().unwrap();
    assert_eq!(
        s.v128_to_bytes(v),
        [0x00, 0x11, 0x22, 0x33, 0x44, 0x55, 0x66, 0x77, 0x88, 0x99, 0xaa, 0xbb, 0xcc, 0xdd, 0xee, 0xff]
    );
    let bad = b"00112233445566778899AaBbCcDdEeFg";
    assert!(decode_u8x32(s, s.v256_load_unaligned(bad, 0)).is_err());

    let lut = s.v256_load(&encode_lut(AsciiCase::Upper));
    let out = s.v256_to_bytes(encode_u8x16(s, v, lut));
    assert_eq!(&out, b"00112233445566778899AABBCCDDEEFF");
}

#[test]
fn check_finds_some_hex_digit() {
    let s = Fallback::new();
    let none = [b'z'; 32];
    assert!(!check_u8x32(s, s.v256_load_unaligned(&none, 0)));
    let mut one = none;
    one[17] = b'7';
    assert!(check_u8x32(s, s.v256_load_unaligned(&one, 0)));
}

#[test]
fn encode_then_decode_round_trip() {
    let s = Fallback::new();
    let bytes: [u8; 16] = [0x00, 0x0f, 0x10, 0x7f, 0x80, 0x9a, 0xa9, 0xbc, 0xcb, 0xde, 0xed, 0xf0, 0xff, 0x01, 0x23, 0x45];
    let v = s.v128_load_unaligned(&bytes, 0);
    for case in [AsciiCase::Lower, AsciiCase::Upper] {
        let lut = s.v256_load(&encode_lut(case));
        let text = encode_u8x16(s, v, lut);
        let back = decode_u8x32(s, text).ok().unwrap();
        assert_eq!(s.v128_to_bytes(back), bytes);
    }
}
