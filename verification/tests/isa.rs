use simd::isa::{Fallback, InstructionSet, IsaKind, SIMD128, SIMD128Ext, SIMD256, SIMD256Ext, SIMD512};
use simd::scalar::{Bytes16, Bytes32};

fn v128_of_i16(lanes: [i16; 8]) -> simd::vector::V128 {
    let mut b = [0u8; 16];
    for (k, x) in lanes.iter().enumerate() {
        b[2 * k..2 * k + 2].copy_from_slice(&x.to_le_bytes());
    }
    Fallback::new().v128_load(&Bytes16(b))
}

fn i16_lanes(v: [u8; 16]) -> [i16; 8] {
    let mut out = [0i16; 8];
    for k in 0..8 {
        out[k] = i16::from_le_bytes([v[2 * k], v[2 * k + 1]]);
    }
    out
}

#[test]
fn mul_hi_lanes() {
    let s = Fallback::new();
    let a = [1000i16, -1000, 32767, -32768, 12345, -1, 256, 0];
    let b = [1000i16, 1000, 32767, -32768, -54, -1, 256, 7];
    let r = i16_lanes(s.v128_to_bytes(s.i16x8_mul_hi(v128_of_i16(a), v128_of_i16(b))));
    for k in 0..8 {
        assert_eq!(r[k], ((a[k] as i32 * b[k] as i32) >> 16) as i16, "lane {}", k);
    }
    let r = i16_lanes(s.v128_to_bytes(s.u16x8_mul_hi(v128_of_i16(a), v128_of_i16(b))));
    for k in 0..8 {
        let p = (a[k] as u16 as u32) * (b[k] as u16 as u32);
        assert_eq!(r[k] as u16, (p >> 16) as u16, "lane {}", k);
    }
}

#[test]
fn maddubs_saturates() {
    let s = Fallback::new();
    let a = s.v128_load(&Bytes16([255, 255, 1, 2, 200, 100, 0, 9, 128, 128, 3, 4, 255, 0, 7, 7]));
    let b = s.v128_load(&Bytes16([127, 127, 0xff, 3, 0x80, 0x80, 5, 0xfe, 0x80, 0x80, 2, 0x81, 1, 1, 0, 0]));
    let r = i16_lanes(s.v128_to_bytes(s.i16x8_maddubs(a, b)));
    let ab = s.v128_to_bytes(a);
    let bb = s.v128_to_bytes(b);
    for k in 0..8 {
        let sum = ab[2 * k] as i32 * bb[2 * k] as i8 as i32 + ab[2 * k + 1] as i32 * bb[2 * k + 1] as i8 as i32;
        assert_eq!(r[k] as i32, sum.clamp(-32768, 32767), "lane {}", k);
    }
    assert_eq!(r[0], 32767);
    assert_eq!(r[2], -32768);
}

#[test]
fn blends() {
    let s = Fallback::new();
    let a = s.v128_load(&Bytes16([1; 16]));
    let b = s.v128_load(&Bytes16([2; 16]));
    let mut m = [0u8; 16];
    m[3] = 0x80;
    m[9] = 0x7f;
    m[15] = 0xff;
    let r = s.v128_to_bytes(s.u8x16_blendv(a, b, s.v128_load(&Bytes16(m))));
    for i in 0..16 {
        assert_eq!(r[i], if i == 3 || i == 15 { 2 } else { 1 });
    }
    let r = s.v128_to_bytes(s.u32x4_blend::<0b0101>(a, b));
    assert_eq!(r, [2, 2, 2, 2, 1, 1, 1, 1, 2, 2, 2, 2, 1, 1, 1, 1]);

    let a2 = s.v256_load(&Bytes32([1; 32]));
    let b2 = s.v256_load(&Bytes32([2; 32]));
    let r = s.v256_to_bytes(s.u32x8_blend::<0b0010>(a2, b2));
    for i in 0..32 {
        assert_eq!(r[i], if (i % 16) / 4 == 1 { 2 } else { 1 });
    }
}

#[test]
fn bitmasks_and_select() {
    let s = Fallback::new();
    let mut b = [0u8; 32];
    b[0] = 0x80;
    b[5] = 0xff;
    b[15] = 0x90;
    b[16] = 0x81;
    b[31] = 0x80;
    b[7] = 0x7f;
    let v = s.v256_load(&Bytes32(b));
    assert_eq!(s.u8x16_bitmask(s.v256_get_low(v)), (1 << 0) | (1 << 5) | (1 << 15));
    assert_eq!(s.u8x32_bitmask(v), (1 << 0) | (1 << 5) | (1 << 15) | (1 << 16) | (1 << 31));

    let sel = s.v256_load(&Bytes32([0xf0; 32]));
    let x = s.v256_load(&Bytes32([0xaa; 32]));
    let y = s.v256_load(&Bytes32([0x55; 32]));
    let r = s.v256_to_bytes(s.v256_bsl(sel, x, y));
    assert_eq!(r, [0xa5; 32]);
}

#[test]
fn wide_ext_by_halves() {
    let s = Fallback::new();
    let mut b = [0u8; 32];
    for (i, x) in b.iter_mut().enumerate() {
        *x = (i as u8).wrapping_mul(37);
    }
    let a = s.v256_load(&Bytes32(b));
    let r = s.v256_to_bytes(s.i16x16_mul_hi(a, a));
    for k in 0..16 {
        let x = i16::from_le_bytes([b[2 * k], b[2 * k + 1]]) as i32;
        assert_eq!(i16::from_le_bytes([r[2 * k], r[2 * k + 1]]) as i32, (x * x) >> 16);
    }
}

#[test]
fn aligned_stores_round_trip() {
    let s = Fallback::new();
    let mut b16 = Bytes16([0; 16]);
    let src16: [u8; 16] = core::array::from_fn(|i| (i * 3 + 1) as u8);
    s.v128_store(&mut b16, s.v128_load(&Bytes16(src16)));
    assert_eq!(b16.0, src16);

    let mut b32 = Bytes32([0; 32]);
    let src32: [u8; 32] = core::array::from_fn(|i| (255 - i) as u8);
    s.v256_store(&mut b32, s.v256_load(&Bytes32(src32)));
    assert_eq!(b32.0, src32);
}

#[test]
fn v512_unaligned_halves_overlap() {
    let s = Fallback::new();
    let src: Vec<u8> = (0..60).collect();
    let v = s.v512_load_unaligned(&src, 5);
    let bytes = s.v512_to_bytes(v);
    let expected: Vec<u8> = (5..37).chain(21..53).collect();
    assert_eq!(&bytes[..], &expected[..]);

    let mut dst = vec![0xeeu8; 50];
    s.v512_store_unaligned(&mut dst, 1, v);
    let mut expected = vec![0xeeu8; 50];
    expected[1..17].copy_from_slice(&bytes[..16]);
    expected[17..49].copy_from_slice(&bytes[32..]);
    assert_eq!(dst, expected);
}

#[test]
fn fallback_kind() {
    assert!(matches!(Fallback::kind(), IsaKind::Fallback));
    assert!(Fallback::detect().is_some());
}
