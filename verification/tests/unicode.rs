use simd::bswap::{bswap_fallback, bswap_simd, BSwapExt};
use simd::isa::{Fallback, InstructionSet};
use simd::unicode::{
    is_ascii_avx2, is_ascii_fallback, is_ascii_simd, is_ascii_simd_v256, is_ascii_sse2, is_utf32le_ct, is_utf32le_fallback, is_utf32le_simd,
    swap_endianness_fallback, swap_endianness_simd, utf16_swap_endianness, utf16_swap_endianness_fallback,
    utf16_swap_endianness_inplace, utf16_swap_endianness_simd, utf32_swap_endianness, utf32_swap_endianness_inplace,
};

#[test]
fn utf32_validation_edges() {
    let good: [u32; 6] = [0, 0x41, 0xD7FF, 0xE000, 0xFFFF, 0x10_FFFF];
    assert!(is_utf32le_fallback(&good));
    assert!(is_utf32le_ct(&good));
    for bad in [0xD800u32, 0xDBFF, 0xDC00, 0xDFFF, 0x11_0000, 0xFFFF_FFFF, 0x8000_0000] {
        assert!(!is_utf32le_fallback(&[bad]), "{:x}", bad);
        assert!(!is_utf32le_ct(&[0x41, bad]), "{:x}", bad);
    }
    assert!(is_utf32le_ct(&[]));
}

#[test]
fn utf32_validation_vector_path() {
    let s = Fallback::new();
    for n in [0usize, 7, 8, 9, 16, 23, 40] {
        let data: Vec<u32> = (0..n as u32).map(|i| 0x1F600 + i).collect();
        assert!(is_utf32le_simd(s, &data));
        for pos in 0..n {
            for bad in [0xD800u32, 0xDFFF, 0x11_0000, 0xFFFF_FFFF] {
                let mut d = data.clone();
                d[pos] = bad;
                assert!(!is_utf32le_simd(s, &d), "n={} pos={} {:x}", n, pos, bad);
                assert!(!is_utf32le_ct(&d));
            }
        }
    }
}

#[test]
fn utf32_swap_values() {
    let src: Vec<u32> = (0..19u32).map(|i| 0x1122_3344u32.wrapping_mul(i + 1)).collect();
    let mut dst = vec![7u32; 21];
    utf32_swap_endianness(&src, &mut dst);
    for i in 0..19 {
        assert_eq!(dst[i], src[i].swap_bytes());
    }
    assert_eq!(&dst[19..], &[7, 7]);

    let mut data = src.clone();
    utf32_swap_endianness_inplace(&mut data);
    assert_eq!(data[0], 0x4433_2211);
    utf32_swap_endianness_inplace(&mut data);
    assert_eq!(data, src);
}

#[test]
fn utf16_swap_values() {
    let src: Vec<u16> = (0..37u16).map(|i| 0x1234u16.wrapping_mul(i + 3)).collect();
    let mut dst = vec![0u16; 37];
    utf16_swap_endianness(&src, &mut dst);
    for i in 0..37 {
        assert_eq!(dst[i], src[i].swap_bytes());
    }
    let mut data = vec![0x1234u16, 0xabcd];
    utf16_swap_endianness_inplace(&mut data);
    assert_eq!(data, vec![0x3412, 0xcdab]);
}

#[test]
fn bswap_all_widths() {
    let s = Fallback::new();
    let src64: Vec<u64> = (0..11u64).map(|i| 0x0102_0304_0506_0708u64.wrapping_mul(i + 1)).collect();
    let mut d1 = vec![0u64; 11];
    let mut d2 = vec![0u64; 12];
    bswap_fallback(&src64, &mut d1);
    bswap_simd(s, &src64, &mut d2);
    for i in 0..11 {
        assert_eq!(d1[i], src64[i].swap_bytes());
        assert_eq!(d2[i], src64[i].swap_bytes());
    }
    assert_eq!(d2[11], 0);
    assert_eq!(<u64 as BSwapExt>::swap_single(0x0102_0304_0506_0708), 0x0807_0605_0403_0201);
    assert_eq!(<u32 as BSwapExt>::swap_single(0x0102_0304), 0x0403_0201);
    assert_eq!(<u16 as BSwapExt>::swap_single(0x0102), 0x0201);

    let src16: Vec<u16> = (0..33u16).collect();
    let mut d3 = vec![0u16; 33];
    bswap_simd(s, &src16, &mut d3);
    for i in 0..33 {
        assert_eq!(d3[i], src16[i].swap_bytes());
    }
}

#[test]
fn ascii_checks_every_length() {
    let s = Fallback::new();
    for len in [0usize, 1, 31, 32, 33, 127, 128, 129, 200, 256, 300, 400] {
        let data: Vec<u8> = (0..len).map(|i| (i % 128) as u8).collect();
        assert!(is_ascii_fallback(&data), "{}", len);
        assert!(is_ascii_simd(s, &data), "{}", len);
        assert!(is_ascii_simd_v256(s, &data), "{}", len);
        for pos in [0, len / 3, len / 2, len.saturating_sub(1)] {
            if pos < len {
                let mut bad = data.clone();
                bad[pos] = 0x80 | bad[pos];
                assert!(!is_ascii_fallback(&bad), "{} {}", len, pos);
                assert!(!is_ascii_simd(s, &bad), "{} {}", len, pos);
                assert!(!is_ascii_simd_v256(s, &bad), "{} {}", len, pos);
            }
        }
    }
}

#[test]
fn named_swaps_agree() {
    let s = Fallback::new();
    let src32: Vec<u32> = (0..19).map(|i| 0x0102_0304u32.wrapping_mul(i + 1)).collect();
    let mut a = vec![7u32; 21];
    let mut b = vec![7u32; 21];
    swap_endianness_fallback(&src32, &mut a);
    swap_endianness_simd(s, &src32, &mut b);
    assert_eq!(a, b);
    for i in 0..19 {
        assert_eq!(a[i], src32[i].swap_bytes());
    }
    assert_eq!(&a[19..], &[7, 7]);

    let src16: Vec<u16> = (0..37).map(|i| 0x0102u16.wrapping_mul(i + 3)).collect();
    let mut c = vec![0u16; 37];
    let mut d = vec![0u16; 37];
    utf16_swap_endianness_fallback(&src16, &mut c);
    utf16_swap_endianness_simd(s, &src16, &mut d);
    assert_eq!(c, d);
    for i in 0..37 {
        assert_eq!(c[i], src16[i].swap_bytes());
    }
}

#[test]
fn ascii_tiers_every_length_and_position() {
    let s = Fallback::new();
    for len in 0usize..=300 {
        let data: Vec<u8> = (0..len).map(|i| ((i * 37 + 11) % 128) as u8).collect();
        assert!(is_ascii_sse2(s, &data), "{}", len);
        assert!(is_ascii_avx2(s, &data), "{}", len);
        for pos in 0..len {
            let mut bad = data.clone();
            bad[pos] |= 0x80;
            assert!(!is_ascii_sse2(s, &bad), "{} {}", len, pos);
            assert!(!is_ascii_avx2(s, &bad), "{} {}", len, pos);
            assert!(!is_ascii_simd(s, &bad), "{} {}", len, pos);
        }
    }
}
