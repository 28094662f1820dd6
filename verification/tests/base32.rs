use simd::base32::{
    crockford_decode_bits_simd, decode_bits, encode_bits, encode_symbols_u8x32, mask8x32_all, merge_bits_u8x32, read_be_bytes, rfc4648_decode_bits_simd,
    split_bits_u8x32, write_be_bytes,
};
use simd::isa::{Fallback, InstructionSet, SIMD256};

/// Packs each half's sixteen 5-bit values into ten bytes, followed by six
/// zeros.
fn pack(values: &[u8; 32]) -> [u8; 32] {
    let mut out = [0u8; 32];
    for half in 0..2 {
        for group in 0..2 {
            let base = 16 * half + 8 * group;
            let mut v: u64 = 0;
            for j in 0..8 {
                v = (v << 5) | values[base + j] as u64;
            }
            for t in 0..5 {
                out[16 * half + 5 * group + t] = (v >> (8 * (4 - t))) as u8;
            }
        }
    }
    out
}

fn load(bytes: &[u8; 32]) -> simd::vector::V256 {
    Fallback::new().v256_load_unaligned(bytes, 0)
}

#[test]
fn merge_packs_five_bit_values() {
    let s = Fallback::new();
    let mut values = [0u8; 32];
    for (i, v) in values.iter_mut().enumerate() {
        *v = ((i * 7 + 3) % 32) as u8;
    }
    let r = s.v256_to_bytes(merge_bits_u8x32(s, load(&values)));
    assert_eq!(r, pack(&values));

    let ones = [31u8; 32];
    let r = s.v256_to_bytes(merge_bits_u8x32(s, load(&ones)));
    let mut expected = [0u8; 32];
    for half in 0..2 {
        for t in 0..10 {
            expected[16 * half + t] = 0xff;
        }
    }
    assert_eq!(r, expected);
}

#[test]
fn mask_all_set() {
    let s = Fallback::new();
    assert!(mask8x32_all(s, load(&[0xff; 32])));
    let mut m = [0xffu8; 32];
    m[31] = 0;
    assert!(!mask8x32_all(s, load(&m)));
}

#[test]
fn rfc4648_symbols_decode() {
    let s = Fallback::new();
    // two ranges: `A`.. and `2`.., six symbols each
    let text: &[u8; 32] = b"ABCDEF234567FEDCBA765432AACC2277";
    let r = rfc4648_decode_bits_simd(s, load(text), b'A', 26, b'2', 6).ok().unwrap();
    let mut values = [0u8; 32];
    for (i, c) in text.iter().enumerate() {
        values[i] = if (b'A'..=b'F').contains(c) { c - b'A' } else { c - b'2' + 26 };
    }
    assert_eq!(s.v256_to_bytes(r), pack(&values));

    let mut bad = *text;
    bad[5] = b'G';
    assert!(rfc4648_decode_bits_simd(s, load(&bad), b'A', 26, b'2', 6).is_err());
    let mut bad = *text;
    bad[31] = b'8';
    assert!(rfc4648_decode_bits_simd(s, load(&bad), b'A', 26, b'2', 6).is_err());
}

#[test]
fn crockford_symbols_decode() {
    let s = Fallback::new();
    let text: &[u8; 32] = b"0123456789KMNPQRSTVW0123456789KM";
    let r = crockford_decode_bits_simd(s, load(text)).ok().unwrap();
    let mut values = [0u8; 32];
    for (i, c) in text.iter().enumerate() {
        values[i] = match *c {
            b'0'..=b'9' => c - b'0',
            // the adjustment table lowers the letters `I` to `L` by two
            b'K' => 18,
            b'M' => 22,
            b'N' => 20,
            b'P' => 22,
            b'Q' => 23,
            b'R' => 24,
            b'S' => 25,
            b'T' => 26,
            b'V' => 28,
            b'W' => 29,
            _ => unreachable!(),
        };
    }
    assert_eq!(s.v256_to_bytes(r), pack(&values));

    for bad_symbol in [b'J', b'O', b'a', b'!', b'_'] {
        let mut bad = *text;
        bad[3] = bad_symbol;
        assert!(crockford_decode_bits_simd(s, load(&bad)).is_err(), "{}", bad_symbol);
    }
}

const RFC4648: &[u8; 32] = b"ABCDEFGHIJKLMNOPQRSTUVWXYZ234567";

/// The decoding table of `charset`: a symbol's index, `0xff` elsewhere.
fn table_of(charset: &[u8; 32]) -> [u8; 256] {
    let mut table = [0xffu8; 256];
    for (i, c) in charset.iter().enumerate() {
        table[*c as usize] = i as u8;
    }
    table
}

#[test]
fn split_spreads_twenty_bytes() {
    let s = Fallback::new();
    let mut values = [0u8; 32];
    for (i, v) in values.iter_mut().enumerate() {
        *v = ((i * 11 + 5) % 32) as u8;
    }
    // the values packed into 20 bytes, placed at 6..26
    let mut x = [0xa5u8; 32];
    for group in 0..4 {
        let mut v: u64 = 0;
        for j in 0..8 {
            v = (v << 5) | values[8 * group + j] as u64;
        }
        for t in 0..5 {
            x[6 + 5 * group + t] = (v >> (8 * (4 - t))) as u8;
        }
    }
    let r = s.v256_to_bytes(split_bits_u8x32(s, load(&x)));
    assert_eq!(r, values);
}

#[test]
fn split_of_zeros_and_ones() {
    let s = Fallback::new();
    let r = s.v256_to_bytes(split_bits_u8x32(s, load(&[0u8; 32])));
    assert_eq!(r, [0u8; 32]);
    let r = s.v256_to_bytes(split_bits_u8x32(s, load(&[0xffu8; 32])));
    assert_eq!(r, [31u8; 32]);
    // only bytes 6..26 count
    let mut x = [0xffu8; 32];
    for b in x.iter_mut().skip(6).take(20) {
        *b = 0;
    }
    let r = s.v256_to_bytes(split_bits_u8x32(s, load(&x)));
    assert_eq!(r, [0u8; 32]);
}

#[test]
fn encode_bits_writes_symbols() {
    // "foobar"[0..5] = 66 6f 6f 62 61 spells MZXW6YTB in base32
    let x: u64 = 0x66_6f6f_6261;
    let mut dst = [b'.'; 10];
    encode_bits::<8>(&mut dst, RFC4648, x);
    assert_eq!(&dst, b"MZXW6YTB..");

    let mut dst = [b'.'; 4];
    encode_bits::<2>(&mut dst, RFC4648, 0b11111_00001);
    assert_eq!(&dst, b"7B..");

    // the first symbol keeps the bits above the others
    let mut dst = [0u8; 2];
    let charset: Vec<u8> = (0..64).collect();
    encode_bits::<2>(&mut dst, &charset, 0b100001_00011);
    assert_eq!(dst, [33, 3]);
}

#[test]
fn decode_bits_reads_symbols() {
    let table = table_of(RFC4648);
    let (v, flag) = decode_bits::<8>(b"MZXW6YTB", &table);
    assert!(flag < 32);
    assert_eq!(v, 0x66_6f6f_6261);

    let (v, flag) = decode_bits::<4>(b"7777", &table);
    assert!(flag < 32);
    assert_eq!(v, 0xfffff);

    let (_, flag) = decode_bits::<5>(b"AB1CD", &table);
    assert!(flag >= 32);
    let (_, flag) = decode_bits::<7>(b"abcdefg", &table);
    assert_eq!(flag, 0xff);
}

#[test]
fn encode_then_decode_bits() {
    let table = table_of(RFC4648);
    for x in [0u64, 1, 0x3ff, 0x12_3456_789a, 0xff_ffff_ffff] {
        let mut dst = [0u8; 8];
        encode_bits::<8>(&mut dst, RFC4648, x);
        assert_eq!(decode_bits::<8>(&dst, &table), (x, or_of(&dst, &table)));
        assert!(or_of(&dst, &table) < 32);
    }
}

fn or_of(symbols: &[u8], table: &[u8; 256]) -> u8 {
    symbols.iter().fold(0, |acc, c| acc | table[*c as usize])
}

#[test]
fn read_be_bytes_values() {
    let src = [0x01u8, 0x02, 0x03, 0x04, 0x05, 0x06, 0x07, 0x08, 0x09];
    assert_eq!(read_be_bytes::<1>(&src), 0x01);
    assert_eq!(read_be_bytes::<2>(&src), 0x0102);
    assert_eq!(read_be_bytes::<3>(&src), 0x01_0203);
    assert_eq!(read_be_bytes::<4>(&src), 0x0102_0304);
    assert_eq!(read_be_bytes::<5>(&src), 0x01_0203_0405);
    assert_eq!(read_be_bytes::<5>(&src[..5]), 0x01_0203_0405);
    assert_eq!(read_be_bytes::<3>(&[0xff, 0xfe, 0xfd]), 0xff_fefd);
}

#[test]
fn write_be_bytes_values() {
    let x: u64 = 0xab_cdef_0123_4567;
    let mut dst = [0u8; 7];
    write_be_bytes::<5>(&mut dst, x);
    assert_eq!(dst, [0xef, 0x01, 0x23, 0x45, 0x67, 0, 0]);
    let mut dst = [9u8; 4];
    write_be_bytes::<3>(&mut dst, x);
    assert_eq!(dst, [0x23, 0x45, 0x67, 9]);
    let mut dst = [9u8; 1];
    write_be_bytes::<1>(&mut dst, x);
    assert_eq!(dst, [0x67]);
}

#[test]
fn write_then_read_be_bytes() {
    for x in [0u64, 0x1234, 0x12_3456_789a, u64::MAX] {
        let mut buf = [0u8; 5];
        write_be_bytes::<5>(&mut buf, x);
        assert_eq!(read_be_bytes::<5>(&buf), x % (1 << 40));
        write_be_bytes::<2>(&mut buf, x);
        assert_eq!(read_be_bytes::<2>(&buf), x % (1 << 16));
    }
}

#[test]
fn rfc4648_wide_ranges_with_small_values() {
    // two ranges of 20 symbols each; only the first 12 of the second are used,
    // so every value stays below 32
    let s = Fallback::new();
    let text: &[u8; 32] = b"abcdefghijklmnopqrstABCDEFGHIJKL";
    let r = rfc4648_decode_bits_simd(s, load(text), b'a', 20, b'A', 20).ok().unwrap();
    let mut values = [0u8; 32];
    for (i, c) in text.iter().enumerate() {
        values[i] = if c.is_ascii_lowercase() { c - b'a' } else { c - b'A' + 20 };
    }
    assert_eq!(s.v256_to_bytes(r), pack(&values));
}

#[test]
fn encode_symbols_low_indices() {
    let s = Fallback::new();
    let lut0 = s.v256_load(&simd::scalar::Bytes32::double(*b"ABCDEFGHIJKLMNOP"));
    let lut1 = s.v256_load(&simd::scalar::Bytes32::double(*b"QRSTUVWXYZ234567"));
    let mut idx = [0u8; 32];
    for (i, v) in idx.iter_mut().enumerate() {
        *v = ((i * 7) % 32) as u8;
    }
    let r = s.v256_to_bytes(encode_symbols_u8x32(s, load(&idx), lut0, lut1));
    for i in 0..32 {
        if idx[i] < 16 {
            assert_eq!(r[i], b"ABCDEFGHIJKLMNOP"[idx[i] as usize], "{}", i);
        } else {
            // the blend mask `x & 0x10` never has its high bit set, so the
            // byte is the portable shuffle of `lut0`, which is zero here
            assert_eq!(r[i], 0, "{}", i);
        }
    }
}

/// The packing of any bytes: per group of eight, the even places count by
/// their low five bits and the odd places by all eight, shifted and ORed.
fn pack_any(x: &[u8; 32]) -> [u8; 32] {
    let mut out = [0u8; 32];
    for half in 0..2 {
        for group in 0..2 {
            let o = 16 * half + 8 * group;
            let e = |k: usize| (x[o + k] % 32) as u32;
            let b = |k: usize| x[o + k] as u32;
            let bytes = [
                ((8 * e(0)) as u8) | ((64 * b(1)) / 256) as u8,
                ((2 * e(2)) as u8) | ((64 * b(1)) % 256) as u8 | ((16 * b(3)) / 256) as u8,
                ((128 * e(4)) / 256) as u8 | ((16 * b(3)) % 256) as u8,
                ((32 * e(6)) / 256) as u8 | ((4 * b(5)) % 256) as u8 | ((128 * e(4)) % 256) as u8,
                ((32 * e(6)) % 256) as u8 | b(7) as u8,
            ];
            out[16 * half + 5 * group..16 * half + 5 * group + 5].copy_from_slice(&bytes);
        }
    }
    out
}

#[test]
fn merge_packs_any_bytes() {
    let s = Fallback::new();
    let mut x = [0u8; 32];
    for (i, v) in x.iter_mut().enumerate() {
        *v = (i * 73 + 19) as u8;
    }
    let r = s.v256_to_bytes(merge_bits_u8x32(s, load(&x)));
    assert_eq!(r, pack_any(&x));
    // on 5-bit values the two packings agree
    let mut y = [0u8; 32];
    for (i, v) in y.iter_mut().enumerate() {
        *v = ((i * 13 + 7) % 32) as u8;
    }
    assert_eq!(pack_any(&y), pack(&y));
}

#[test]
fn rfc4648_values_above_31() {
    // the second range starts at 40, so its values do not fit in five bits
    let s = Fallback::new();
    let text: &[u8; 32] = b"abcdefghijklmnopqrstABCDEFGHIJKL";
    let r = rfc4648_decode_bits_simd(s, load(text), b'a', 40, b'A', 20).ok().unwrap();
    let mut values = [0u8; 32];
    for (i, c) in text.iter().enumerate() {
        values[i] = if c.is_ascii_lowercase() { c - b'a' } else { c - b'A' + 40 };
    }
    assert_eq!(s.v256_to_bytes(r), pack_any(&values));
}
