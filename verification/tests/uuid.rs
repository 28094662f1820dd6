use simd::ascii::AsciiCase;
use simd::isa::{Fallback, InstructionSet};
use simd::uuid::{fallback, format_hyphenated, format_simple, generic, parse, parse_hyphenated, parse_simple, Error};

const BYTES: [u8; 16] = [
    0x67, 0xe5, 0x50, 0x44, 0x10, 0xb1, 0x42, 0x6f, 0x92, 0x47, 0xbb, 0x68, 0x0e, 0x5f, 0xe0, 0xc8,
];

const SIMPLE_LOWER: &str = "67e5504410b1426f9247bb680e5fe0c8";
const SIMPLE_UPPER: &str = "67E5504410B1426F9247BB680E5FE0C8";
const HYPHENATED_LOWER: &str = "67e55044-10b1-426f-9247-bb680e5fe0c8";
const HYPHENATED_UPPER: &str = "67E55044-10B1-426F-9247-BB680E5FE0C8";

fn ok_cases() -> Vec<(String, [u8; 16])> {
    vec![
        (SIMPLE_LOWER.to_string(), BYTES),
        (SIMPLE_UPPER.to_string(), BYTES),
        (HYPHENATED_LOWER.to_string(), BYTES),
        (HYPHENATED_UPPER.to_string(), BYTES),
        ("67E55044-10b1-426F-9247-bb680E5FE0c8".to_string(), BYTES),
        (format!("{{{}}}", HYPHENATED_LOWER), BYTES),
        (format!("{{{}}}", HYPHENATED_UPPER), BYTES),
        (format!("urn:uuid:{}", HYPHENATED_LOWER), BYTES),
        ("00000000000000000000000000000000".to_string(), [0u8; 16]),
        ("00000000-0000-0000-0000-000000000000".to_string(), [0u8; 16]),
        ("ffffffff-ffff-ffff-ffff-ffffffffffff".to_string(), [0xffu8; 16]),
        ("FFFFFFFFFFFFFFFFFFFFFFFFFFFFFFFF".to_string(), [0xffu8; 16]),
        (
            "0123456789abcdef0123456789ABCDEF".to_string(),
            [
                0x01, 0x23, 0x45, 0x67, 0x89, 0xab, 0xcd, 0xef, 0x01, 0x23, 0x45, 0x67, 0x89, 0xab, 0xcd, 0xef,
            ],
        ),
    ]
}

fn err_cases() -> Vec<String> {
    vec![
        "".to_string(),
        "67e5504410b1426f9247bb680e5fe0c".to_string(),
        "67e5504410b1426f9247bb680e5fe0c88".to_string(),
        "67e5504410b1426f9247bb680e5fe0cg".to_string(),
        "g7e5504410b1426f9247bb680e5fe0c8".to_string(),
        "67e5504410b1426f 247bb680e5fe0c8".to_string(),
        "67e55044-10b1-426f-9247-bb680e5fe0c".to_string(),
        "67e55044-10b1-426f-9247-bb680e5fe0c8-".to_string(),
        "67e55044+10b1-426f-9247-bb680e5fe0c8".to_string(),
        "67e55044-10b1+426f-9247-bb680e5fe0c8".to_string(),
        "67e55044-10b1-426f+9247-bb680e5fe0c8".to_string(),
        "67e55044-10b1-426f-9247+bb680e5fe0c8".to_string(),
        "67e5504-410b1-426f-9247-bb680e5fe0c8".to_string(),
        "67e55044-10b1-426f-9247-bb680e5fe0cZ".to_string(),
        "67e55044-10b1-426f-9247-bb680e5fe0\u{e9}".to_string(),
        format!("[{}]", HYPHENATED_LOWER),
        format!("{{{})", HYPHENATED_LOWER),
        format!("{{{}}}", SIMPLE_LOWER),
        format!("urn:uuix:{}", HYPHENATED_LOWER),
        format!("URN:UUID:{}", HYPHENATED_LOWER),
        format!("urn:uuid:{}", SIMPLE_LOWER),
        format!("urn:uuid:{}}}", HYPHENATED_LOWER),
    ]
}

fn check_parse(f: impl Fn(&[u8]) -> Result<[u8; 16], Error>) {
    for (text, bytes) in ok_cases() {
        match f(text.as_bytes()) {
            Ok(v) => assert_eq!(v, bytes, "{}", text),
            Err(_) => panic!("rejected {}", text),
        }
    }
    for text in err_cases() {
        assert!(f(text.as_bytes()).is_err(), "accepted {}", text);
    }
}

fn check_format(
    simple: impl Fn(&[u8; 16], AsciiCase) -> [u8; 32],
    hyphenated: impl Fn(&[u8; 16], AsciiCase) -> [u8; 36],
) {
    assert_eq!(&simple(&BYTES, AsciiCase::Lower)[..], SIMPLE_LOWER.as_bytes());
    assert_eq!(&simple(&BYTES, AsciiCase::Upper)[..], SIMPLE_UPPER.as_bytes());
    assert_eq!(&hyphenated(&BYTES, AsciiCase::Lower)[..], HYPHENATED_LOWER.as_bytes());
    assert_eq!(&hyphenated(&BYTES, AsciiCase::Upper)[..], HYPHENATED_UPPER.as_bytes());
    assert_eq!(&simple(&[0u8; 16], AsciiCase::Upper)[..], "00000000000000000000000000000000".as_bytes());
    assert_eq!(
        &hyphenated(&[0xffu8; 16], AsciiCase::Lower)[..],
        "ffffffff-ffff-ffff-ffff-ffffffffffff".as_bytes()
    );
    assert_eq!(
        &hyphenated(&[0xabu8; 16], AsciiCase::Upper)[..],
        "ABABABAB-ABAB-ABAB-ABAB-ABABABABABAB".as_bytes()
    );
}

#[test]
fn arch_test_parse() {
    let s = Fallback::new();
    check_parse(|src| generic::parse(s, src));
}

#[test]
fn arch_test_format() {
    let s = Fallback::new();
    check_format(|src, case| generic::format_simple(s, src, case), |src, case| generic::format_hyphenated(s, src, case));
}

#[test]
fn auto_test_parse() {
    check_parse(parse);
}

#[test]
fn auto_test_format() {
    check_format(format_simple, format_hyphenated);
}

#[test]
fn fallback_parse_matches_cases() {
    check_parse(fallback::parse);
}

#[test]
fn fallback_format_matches_cases() {
    check_format(fallback::format_simple, fallback::format_hyphenated);
}

#[test]
fn parse_simple_accepts_only_simple() {
    assert_eq!(parse_simple(SIMPLE_LOWER.as_bytes()).ok(), Some(BYTES));
    assert!(parse_simple(HYPHENATED_LOWER.as_bytes()).is_err());
    assert!(parse_simple(b"67e5504410b1426f9247bb680e5fe0c").is_err());
    let s = Fallback::new();
    assert_eq!(generic::parse_simple(s, SIMPLE_UPPER.as_bytes()).ok(), Some(BYTES));
    assert!(generic::parse_simple(s, b"67e5504410b1426f9247bb680e5fe0cx").is_err());
    assert!(fallback::parse_simple(b"67e5504410b1426f9247bb680e5fe0cx").is_err());
}

#[test]
fn parse_hyphenated_accepts_only_hyphenated() {
    assert_eq!(parse_hyphenated(HYPHENATED_UPPER.as_bytes()).ok(), Some(BYTES));
    assert!(parse_hyphenated(SIMPLE_LOWER.as_bytes()).is_err());
    let braced = format!("{{{}}}", HYPHENATED_LOWER);
    assert!(parse_hyphenated(braced.as_bytes()).is_err());
    let s = Fallback::new();
    assert_eq!(generic::parse_hyphenated(s, HYPHENATED_LOWER.as_bytes()).ok(), Some(BYTES));
    assert!(generic::parse_hyphenated(s, b"67e55044-10b1-426f-9247_bb680e5fe0c8").is_err());
    assert!(fallback::parse_hyphenated(b"67e55044-10b1-426f-9247_bb680e5fe0c8").is_err());
}

#[test]
fn format_then_parse_round_trip() {
    let samples: [[u8; 16]; 3] = [BYTES, [0u8; 16], [0x5au8; 16]];
    for u in samples.iter() {
        for case in [AsciiCase::Lower, AsciiCase::Upper] {
            assert_eq!(parse(&format_simple(u, case)).ok(), Some(*u));
            assert_eq!(parse(&format_hyphenated(u, case)).ok(), Some(*u));
        }
    }
}

#[test]
fn parse_then_format_gives_text_in_case() {
    let u = parse(b"67E55044-10b1-426F-9247-bb680E5FE0c8").ok().unwrap();
    assert_eq!(&format_hyphenated(&u, AsciiCase::Lower)[..], HYPHENATED_LOWER.as_bytes());
    let u = parse_simple(b"67E5504410b1426F9247bb680E5FE0c8").ok().unwrap();
    assert_eq!(&format_simple(&u, AsciiCase::Upper)[..], SIMPLE_UPPER.as_bytes());
}

#[test]
fn test() {
    let s1 = "67e5504410b1426f9247bb680e5fe0c8";
    let s2 = "67e55044-10b1-426f-9247-bb680e5fe0c8";

    let u = uuid::Uuid::from_bytes(parse(s1.as_bytes()).unwrap());

    let a1 = String::from_utf8(format_simple(u.as_bytes(), AsciiCase::Lower).to_vec()).unwrap();
    let a2 = String::from_utf8(format_hyphenated(u.as_bytes(), AsciiCase::Upper).to_vec()).unwrap();

    assert_eq!(a1, s1);
    assert_eq!(a2, s2.to_ascii_uppercase());
    assert_eq!(a1, u.simple().to_string());
}
