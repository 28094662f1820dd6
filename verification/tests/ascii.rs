use simd::ascii::{
    find_non_ascii_whitespace_fallback, find_non_ascii_whitespace_simd, is_ascii_ct, is_ascii_ct_fallback,
    is_ascii_ct_simd, remove_ascii_whitespace_fallback,
};
use simd::isa::{Fallback, InstructionSet};

fn long_ascii(n: usize) -> Vec<u8> {
    (0..n).map(|i| b'a' + (i % 26) as u8).collect()
}

#[test]
fn ascii_short_inputs() {
    assert!(is_ascii_ct_fallback(b""));
    assert!(is_ascii_ct_fallback(b"hello, world\x7f\x00"));
    assert!(!is_ascii_ct_fallback(b"caf\xc3\xa9"));
    assert!(!is_ascii_ct_fallback(&[0x80]));
    assert!(is_ascii_ct(b"plain"));
    assert!(!is_ascii_ct(&[0xff]));
}

#[test]
fn ascii_vector_path_agrees_everywhere() {
    let s = Fallback::new();
    for n in [0usize, 1, 31, 32, 33, 64, 100, 130] {
        let data = long_ascii(n);
        assert!(is_ascii_ct_simd(s, &data));
        assert!(is_ascii_ct(&data));
        for pos in 0..n {
            let mut bad = data.clone();
            bad[pos] = 0x80 | (pos as u8);
            assert!(!is_ascii_ct_simd(s, &bad), "n={} pos={}", n, pos);
            assert!(!is_ascii_ct_fallback(&bad));
            assert!(!is_ascii_ct(&bad));
        }
    }
}

#[test]
fn whitespace_search_short() {
    assert_eq!(find_non_ascii_whitespace_fallback(b""), 0);
    assert_eq!(find_non_ascii_whitespace_fallback(b"abcdef"), 6);
    assert_eq!(find_non_ascii_whitespace_fallback(b"abc def"), 3);
    assert_eq!(find_non_ascii_whitespace_fallback(b" abc"), 0);
    assert_eq!(find_non_ascii_whitespace_fallback(b"ab\tc"), 2);
    assert_eq!(find_non_ascii_whitespace_fallback(b"abcdefghij\nk"), 10);
    assert_eq!(find_non_ascii_whitespace_fallback(b"abcdefghijklmnop\x0cq"), 16);
    assert_eq!(find_non_ascii_whitespace_fallback(b"abcdefgh\r"), 8);
    // vertical tab and NUL are not ASCII whitespace
    assert_eq!(find_non_ascii_whitespace_fallback(b"a\x0b\x00b"), 4);
}

#[test]
fn whitespace_search_vector_path() {
    let s = Fallback::new();
    for n in [0usize, 5, 32, 40, 64, 97] {
        let data = long_ascii(n);
        assert_eq!(find_non_ascii_whitespace_simd(s, &data), n);
        for pos in 0..n {
            for ws in [b' ', b'\t', b'\n', 0x0c, b'\r'] {
                let mut d = data.clone();
                d[pos] = ws;
                assert_eq!(find_non_ascii_whitespace_simd(s, &d), pos, "n={} pos={}", n, pos);
                assert_eq!(find_non_ascii_whitespace_fallback(&d), pos);
            }
        }
    }
}

#[test]
fn remove_whitespace_in_place() {
    let mut data = b"a b\tc\nd\re\x0cf  ".to_vec();
    let n = remove_ascii_whitespace_fallback(&mut data);
    assert_eq!(n, 6);
    assert_eq!(&data[..n], b"abcdef");
    // the bytes after the result are left as they were
    assert_eq!(&data[n..], &b"a b\tc\nd\re\x0cf  "[n..]);

    let mut none = b"nowhitespace".to_vec();
    assert_eq!(remove_ascii_whitespace_fallback(&mut none), 12);
    assert_eq!(&none, b"nowhitespace");

    let mut all = b" \t\n\r\x0c".to_vec();
    assert_eq!(remove_ascii_whitespace_fallback(&mut all), 0);

    let mut empty: Vec<u8> = Vec::new();
    assert_eq!(remove_ascii_whitespace_fallback(&mut empty), 0);
}
