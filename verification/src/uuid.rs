//! UUID parsing and formatting: the simple form (32 hex digits), the
//! hyphenated form (8-4-4-4-12), and braced and URN-prefixed variants.
use vstd::prelude::*;

use crate::ascii::AsciiCase;
use crate::isa::{Fallback, InstructionSet};
use crate::hex::{
    all_hex, hex_char, hex_charset, hex_decode, hex_encode, is_hex_digit, lemma_hex_decode_encode, spec_unhex,
};

pub mod fallback;
pub mod generic;

verus! {

/// The error of a failed parse.
#[derive(Debug)]
pub struct Error(());

impl Error {
    /// The parse error.
    pub fn new() -> Self {
        Error(())
    }
}

/// The ASCII code of `-`.
pub open spec fn dash() -> u8 {
    0x2d
}

/// The simple text of the 16 bytes `u`: 32 hex digits.
pub open spec fn simple_text(u: Seq<u8>, case: AsciiCase) -> Seq<u8> {
    hex_encode(u, hex_charset(case))
}

/// The hyphenated text of the 16 bytes `u`: hex digits in groups of
/// 8-4-4-4-12 with `-` between.
pub open spec fn hyphenated_text(u: Seq<u8>, case: AsciiCase) -> Seq<u8> {
    with_dashes(simple_text(u, case))
}

/// Inserts `-` after the 8th, 12th, 16th and 20th character of 32 characters.
pub open spec fn with_dashes(h: Seq<u8>) -> Seq<u8> {
    h.subrange(0, 8) + seq![dash()] + h.subrange(8, 12) + seq![dash()] + h.subrange(12, 16) + seq![dash()]
        + h.subrange(16, 20) + seq![dash()] + h.subrange(20, 32)
}

/// The 36 characters `s` have `-` at positions 8, 13, 18 and 23.
pub open spec fn has_dashes(s: Seq<u8>) -> bool {
    s[8] == dash() && s[13] == dash() && s[18] == dash() && s[23] == dash()
}

/// The 32 characters of `s` other than those at positions 8, 13, 18 and 23.
pub open spec fn without_dashes(s: Seq<u8>) -> Seq<u8> {
    s.subrange(0, 8) + s.subrange(9, 13) + s.subrange(14, 18) + s.subrange(19, 23) + s.subrange(24, 36)
}

/// The UUID that the simple text `s` spells, if it is one.
pub open spec fn spec_parse_simple(s: Seq<u8>) -> Option<Seq<u8>> {
    if s.len() == 32 && all_hex(s) {
        Some(hex_decode(s))
    } else {
        None
    }
}

/// The UUID that the hyphenated text `s` spells, if it is one.
pub open spec fn spec_parse_hyphenated(s: Seq<u8>) -> Option<Seq<u8>> {
    if s.len() == 36 && has_dashes(s) && all_hex(without_dashes(s)) {
        Some(hex_decode(without_dashes(s)))
    } else {
        None
    }
}

/// `urn:uuid:`
pub open spec fn urn_prefix() -> Seq<u8> {
    seq![0x75u8, 0x72, 0x6e, 0x3a, 0x75, 0x75, 0x69, 0x64, 0x3a]
}

/// The UUID that `s` spells in any accepted form: simple, hyphenated,
/// hyphenated in braces (`{...}`), or hyphenated after `urn:uuid:`.
pub open spec fn spec_parse(s: Seq<u8>) -> Option<Seq<u8>> {
    if s.len() == 32 {
        spec_parse_simple(s)
    } else if s.len() == 36 {
        spec_parse_hyphenated(s)
    } else if s.len() == 38 {
        if s[0] == 0x7b && s[37] == 0x7d {
            spec_parse_hyphenated(s.subrange(1, 37))
        } else {
            None
        }
    } else if s.len() == 45 {
        if s.subrange(0, 9) == urn_prefix() {
            spec_parse_hyphenated(s.subrange(9, 45))
        } else {
            None
        }
    } else {
        None
    }
}

/// Whether `src` holds the 9 bytes of `urn:uuid:` before position 9.
fn has_urn_prefix(src: &[u8]) -> (r: bool)
    requires
        src@.len() >= 9,
    ensures
        r == (src@.subrange(0, 9) == urn_prefix()),
{
    let prefix: [u8; 9] = [0x75, 0x72, 0x6e, 0x3a, 0x75, 0x75, 0x69, 0x64, 0x3a];
    assert(prefix@ =~= urn_prefix());
    let mut i: usize = 0;
    while i < 9
        invariant
            i <= 9,
            src@.len() >= 9,
            prefix@ == urn_prefix(),
            forall|j: int| 0 <= j < i ==> src@[j] == prefix@[j],
        decreases 9 - i,
    {
        if src[i] != prefix[i] {
            assert(src@.subrange(0, 9)[i as int] != urn_prefix()[i as int]);
            return false;
        }
        i += 1;
    }
    assert(src@.subrange(0, 9) =~= urn_prefix());
    true
}

/// The hyphenated text inside a braced (38 bytes) or URN-prefixed (45 bytes)
/// UUID, or an error for any other input.
pub(crate) fn judge_other(src: &[u8]) -> (r: Result<&[u8], Error>)
    ensures
        match r {
            Ok(h) => {
                ||| (src@.len() == 38 && src@[0] == 0x7b && src@[37] == 0x7d && h@ == src@.subrange(1, 37))
                ||| (src@.len() == 45 && src@.subrange(0, 9) == urn_prefix() && h@ == src@.subrange(9, 45))
            },
            Err(_) => {
                &&& !(src@.len() == 38 && src@[0] == 0x7b && src@[37] == 0x7d)
                &&& !(src@.len() == 45 && src@.subrange(0, 9) == urn_prefix())
            },
        },
{
    let n = src.len();
    if n == 38 {
        if src[0] == 0x7b && src[37] == 0x7d {
            Ok(&src[1..37])
        } else {
            Err(Error::new())
        }
    } else if n == 45 {
        if has_urn_prefix(src) {
            Ok(&src[9..45])
        } else {
            Err(Error::new())
        }
    } else {
        Err(Error::new())
    }
}

/// `s` with the letters `A-F` made lower case.
pub open spec fn hex_to_lower(s: Seq<u8>) -> Seq<u8> {
    s.map_values(|c: u8| if 0x41 <= c <= 0x46 { (c + 0x20) as u8 } else { c })
}

/// `s` with the letters `a-f` made upper case.
pub open spec fn hex_to_upper(s: Seq<u8>) -> Seq<u8> {
    s.map_values(|c: u8| if 0x61 <= c <= 0x66 { (c - 0x20) as u8 } else { c })
}

/// Parses a UUID from arbitrary bytes, in any accepted form: 32 hex digits,
/// 8-4-4-4-12 hex digits with dashes, the latter in braces, or the latter
/// after `urn:uuid:`. Fails when the length matches none of these forms or
/// the content is invalid.
pub fn parse(src: &[u8]) -> (r: Result<[u8; 16], Error>)
    ensures
        match r {
            Ok(v) => spec_parse(src@) == Some(v@),
            Err(_) => spec_parse(src@) is None,
        },
{
    match Fallback::detect() {
        Some(s) => generic::parse(s, src),
        None => fallback::parse(src),
    }
}

/// Parses a simple UUID (32 hex digits) from arbitrary bytes. Fails when the
/// length is not 32 or some byte is not a hex digit.
pub fn parse_simple(src: &[u8]) -> (r: Result<[u8; 16], Error>)
    ensures
        match r {
            Ok(v) => spec_parse_simple(src@) == Some(v@),
            Err(_) => spec_parse_simple(src@) is None,
        },
{
    match Fallback::detect() {
        Some(s) => generic::parse_simple(s, src),
        None => fallback::parse_simple(src),
    }
}

/// Parses a hyphenated UUID (8-4-4-4-12 hex digits) from arbitrary bytes.
/// Fails when the length is not 36, a dash is missing, or some other byte is
/// not a hex digit.
pub fn parse_hyphenated(src: &[u8]) -> (r: Result<[u8; 16], Error>)
    ensures
        match r {
            Ok(v) => spec_parse_hyphenated(src@) == Some(v@),
            Err(_) => spec_parse_hyphenated(src@) is None,
        },
{
    match Fallback::detect() {
        Some(s) => generic::parse_hyphenated(s, src),
        None => fallback::parse_hyphenated(src),
    }
}

/// Formats `src` as 32 hex digits in `case`.
pub fn format_simple(src: &[u8; 16], case: AsciiCase) -> (r: [u8; 32])
    ensures
        r@ == simple_text(src@, case),
{
    match Fallback::detect() {
        Some(s) => generic::format_simple(s, src, case),
        None => fallback::format_simple(src, case),
    }
}

/// Formats `src` as 8-4-4-4-12 hex digits in `case`, with dashes between.
pub fn format_hyphenated(src: &[u8; 16], case: AsciiCase) -> (r: [u8; 36])
    ensures
        r@ == hyphenated_text(src@, case),
{
    match Fallback::detect() {
        Some(s) => generic::format_hyphenated(s, src, case),
        None => fallback::format_hyphenated(src, case),
    }
}

// ---------------------------------------------------------------------------
// Laws
// ---------------------------------------------------------------------------

/// Parsing the simple text of a UUID gives the UUID back, in either case.
pub proof fn lemma_parse_simple_of_format(u: Seq<u8>, case: AsciiCase)
    requires
        u.len() == 16,
    ensures
        spec_parse_simple(simple_text(u, case)) == Some(u),
{
    lemma_hex_decode_encode(u, case);
}

/// Parsing the hyphenated text of a UUID gives the UUID back, in either case.
pub proof fn lemma_parse_hyphenated_of_format(u: Seq<u8>, case: AsciiCase)
    requires
        u.len() == 16,
    ensures
        spec_parse_hyphenated(hyphenated_text(u, case)) == Some(u),
{
    let h = simple_text(u, case);
    let t = hyphenated_text(u, case);
    lemma_hex_decode_encode(u, case);
    assert(without_dashes(t) =~= h);
}

/// Either text of a UUID is accepted by the general parser and gives the UUID
/// back.
pub proof fn lemma_parse_of_format(u: Seq<u8>, case: AsciiCase)
    requires
        u.len() == 16,
    ensures
        spec_parse(simple_text(u, case)) == Some(u),
        spec_parse(hyphenated_text(u, case)) == Some(u),
{
    lemma_parse_simple_of_format(u, case);
    lemma_parse_hyphenated_of_format(u, case);
}

/// Re-encoding the value of a hex digit gives the digit, in the case asked
/// for.
proof fn lemma_char_of_digit(c: u8)
    requires
        is_hex_digit(c),
    ensures
        spec_unhex(c) < 16,
        hex_char(AsciiCase::Lower, spec_unhex(c)) == if 0x41 <= c <= 0x46 { (c + 0x20) as u8 } else { c },
        hex_char(AsciiCase::Upper, spec_unhex(c)) == if 0x61 <= c <= 0x66 { (c - 0x20) as u8 } else { c },
{
}

/// The nibbles of the byte that two digit values make.
proof fn lemma_digits_of_byte(x: u8, y: u8)
    requires
        x < 16,
        y < 16,
    ensures
        ((16 * x + y) as u8) / 16 == x,
        ((16 * x + y) as u8) % 16 == y,
{
}

/// Formatting what the simple text `s` spells gives `s` back, with its
/// letters in the chosen case.
pub proof fn lemma_format_of_parse_simple(s: Seq<u8>)
    requires
        spec_parse_simple(s) is Some,
    ensures
        simple_text(spec_parse_simple(s)->0, AsciiCase::Lower) == hex_to_lower(s),
        simple_text(spec_parse_simple(s)->0, AsciiCase::Upper) == hex_to_upper(s),
{
    let u = hex_decode(s);
    assert forall|i: int| 0 <= i < 32 implies #[trigger] simple_text(u, AsciiCase::Lower)[i] == hex_to_lower(
        s,
    )[i] && simple_text(u, AsciiCase::Upper)[i] == hex_to_upper(s)[i] by {
        let j = i / 2;
        lemma_char_of_digit(s[2 * j]);
        lemma_char_of_digit(s[2 * j + 1]);
        lemma_digits_of_byte(spec_unhex(s[2 * j]), spec_unhex(s[2 * j + 1]));
    }
    assert(simple_text(u, AsciiCase::Lower) =~= hex_to_lower(s));
    assert(simple_text(u, AsciiCase::Upper) =~= hex_to_upper(s));
}

} // verus!
