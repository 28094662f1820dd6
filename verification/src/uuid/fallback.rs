//! UUID parsing and formatting one byte at a time.
use vstd::prelude::*;

use super::{
    dash, has_dashes, hyphenated_text, judge_other, simple_text, spec_parse, spec_parse_hyphenated,
    spec_parse_simple, with_dashes, without_dashes, Error,
};
use crate::ascii::AsciiCase;
use crate::bits::{lemma_byte_bits, lemma_byte_bits3, lemma_join_bits};
use crate::hex::{
    all_hex, charset, hex_char, hex_charset, hex_decode, is_hex_digit, lemma_join_nibbles, spec_unhex,
    unhex,
};

verus! {

/// `x` shifted left by four bits, dropping what leaves the byte.
fn shl4(x: u8) -> (r: u8)
    ensures
        r == (16 * x) % 256,
{
    proof {
        lemma_join_bits(x, 0);
    }
    x << 4u8
}

proof fn lemma_flag(flag: u8, h1: u8, h2: u8)
    requires
        flag == 0xff || flag < 16,
        h1 == 0xff || h1 < 16,
        h2 == 0xff || h2 < 16,
    ensures
        ((flag | h1 | h2) == 0xff) <==> (flag == 0xff || h1 == 0xff || h2 == 0xff),
        (flag | h1 | h2) == 0xff || (flag | h1 | h2) < 16,
{
    lemma_byte_bits3(flag, h1, h2);
}

/// Decodes the two hex digits `a` and `b` into one byte, and folds whether
/// they are digits into `flag`.
fn decode_pair(flag: u8, a: u8, b: u8) -> (r: (u8, u8))
    requires
        flag == 0xff || flag < 16,
    ensures
        r.1 == 0xff || r.1 < 16,
        (r.1 == 0xff) <==> (flag == 0xff || !is_hex_digit(a) || !is_hex_digit(b)),
        is_hex_digit(a) && is_hex_digit(b) ==> r.0 == 16 * spec_unhex(a) + spec_unhex(b),
{
    let h1 = unhex(a);
    let h2 = unhex(b);
    proof {
        lemma_flag(flag, h1, h2);
    }
    let hi = shl4(h1);
    if is_hex_digit_exec(a) && is_hex_digit_exec(b) {
        proof {
            lemma_join_nibbles(h1, h2, hi);
        }
    }
    (hi | h2, flag | h1 | h2)
}

fn is_hex_digit_exec(x: u8) -> (r: bool)
    ensures
        r == is_hex_digit(x),
{
    unhex(x) != 0xff
}

/// Parses a UUID in any accepted form: simple, hyphenated, braced or
/// URN-prefixed.
pub fn parse(src: &[u8]) -> (r: Result<[u8; 16], Error>)
    ensures
        match r {
            Ok(v) => spec_parse(src@) == Some(v@),
            Err(_) => spec_parse(src@) is None,
        },
{
    let n = src.len();
    if n == 32 {
        return parse_simple(src);
    }
    if n == 36 {
        return parse_hyphenated(src);
    }
    match judge_other(src) {
        Ok(h) => parse_hyphenated(h),
        Err(e) => Err(e),
    }
}

/// Parses the simple text in `src`.
pub fn parse_simple(src: &[u8]) -> (r: Result<[u8; 16], Error>)
    ensures
        match r {
            Ok(v) => spec_parse_simple(src@) == Some(v@),
            Err(_) => spec_parse_simple(src@) is None,
        },
{
    if src.len() != 32 {
        return Err(Error::new());
    }
    let mut dst = [0u8; 16];
    let mut flag: u8 = 0;
    let mut i: usize = 0;
    while i < 16
        invariant
            i <= 16,
            src@.len() == 32,
            flag == 0xff || flag < 16,
            (flag == 0xff) <==> exists|j: int| 0 <= j < 2 * i && !is_hex_digit(#[trigger] src@[j]),
            flag != 0xff ==> forall|j: int| 0 <= j < i ==> #[trigger] dst@[j] == hex_decode(src@)[j],
        decreases 16 - i,
    {
        let (byte, f) = decode_pair(flag, src[2 * i], src[2 * i + 1]);
        proof {
            if f == 0xff && flag != 0xff {
                if !is_hex_digit(src@[2 * i]) {
                    assert(!is_hex_digit(src@[2 * i as int]));
                } else {
                    assert(!is_hex_digit(src@[2 * i + 1]));
                }
            }
        }
        dst[i] = byte;
        flag = f;
        i += 1;
    }
    if flag == 0xff {
        return Err(Error::new());
    }
    assert(dst@ =~= hex_decode(src@));
    Ok(dst)
}

/// Where the `j`-th group of four hex digits starts in a hyphenated text.
spec fn group_start(j: int) -> int {
    if j < 2 {
        4 * j
    } else if j < 6 {
        4 * j + j - 1
    } else {
        4 * j + 4
    }
}

proof fn lemma_without_dashes_index(s: Seq<u8>, j: int, t: int)
    requires
        s.len() == 36,
        0 <= j < 8,
        0 <= t < 4,
    ensures
        without_dashes(s)[4 * j + t] == s[group_start(j) + t],
        without_dashes(s).len() == 32,
{
}

/// Parses the hyphenated text in `src`.
pub fn parse_hyphenated(src: &[u8]) -> (r: Result<[u8; 16], Error>)
    ensures
        match r {
            Ok(v) => spec_parse_hyphenated(src@) == Some(v@),
            Err(_) => spec_parse_hyphenated(src@) is None,
        },
{
    if src.len() != 36 {
        return Err(Error::new());
    }
    if !(src[8] == 0x2d && src[13] == 0x2d && src[18] == 0x2d && src[23] == 0x2d) {
        return Err(Error::new());
    }
    let ghost w = without_dashes(src@);
    let positions: [usize; 8] = [0, 4, 9, 14, 19, 24, 28, 32];
    let mut dst = [0u8; 16];
    let mut flag: u8 = 0;
    let mut j: usize = 0;
    while j < 8
        invariant
            j <= 8,
            src@.len() == 36,
            w == without_dashes(src@),
            w.len() == 32,
            forall|k: int| 0 <= k < 8 ==> #[trigger] positions@[k] == group_start(k),
            flag == 0xff || flag < 16,
            (flag == 0xff) <==> exists|k: int| 0 <= k < 4 * j && !is_hex_digit(#[trigger] w[k]),
            flag != 0xff ==> forall|k: int| 0 <= k < 2 * j ==> #[trigger] dst@[k] == hex_decode(w)[k],
        decreases 8 - j,
    {
        let i = positions[j];
        proof {
            lemma_without_dashes_index(src@, j as int, 0);
            lemma_without_dashes_index(src@, j as int, 1);
            lemma_without_dashes_index(src@, j as int, 2);
            lemma_without_dashes_index(src@, j as int, 3);
        }
        let (b0, f0) = decode_pair(flag, src[i], src[i + 1]);
        let (b1, f1) = decode_pair(f0, src[i + 2], src[i + 3]);
        proof {
            if f1 == 0xff && flag != 0xff {
                if !is_hex_digit(w[4 * j as int]) {
                } else if !is_hex_digit(w[4 * j + 1]) {
                } else if !is_hex_digit(w[4 * j + 2]) {
                } else {
                    assert(!is_hex_digit(w[4 * j + 3]));
                }
            }
        }
        dst[2 * j] = b0;
        dst[2 * j + 1] = b1;
        flag = f1;
        j += 1;
    }
    if flag == 0xff {
        return Err(Error::new());
    }
    assert(dst@ =~= hex_decode(w));
    Ok(dst)
}

/// The hex digits of the values `0..16` in `case`.
fn char_lut(case: AsciiCase) -> (r: [u8; 16])
    ensures
        r@ == hex_charset(case),
{
    charset(case)
}

proof fn lemma_nibble_bits(x: u8)
    ensures
        (x >> 4u8) == x / 16,
        (x & 0x0f) == x % 16,
{
    lemma_byte_bits(x, 0);
}

/// The simple text of `src` in `case`.
pub fn format_simple(src: &[u8; 16], case: AsciiCase) -> (r: [u8; 32])
    ensures
        r@ == simple_text(src@, case),
{
    let lut = char_lut(case);
    let mut dst = [0u8; 32];
    let mut i: usize = 0;
    while i < 16
        invariant
            i <= 16,
            lut@ == hex_charset(case),
            forall|p: int| 0 <= p < 2 * i ==> #[trigger] dst@[p] == simple_text(src@, case)[p],
        decreases 16 - i,
    {
        let x = src[i];
        proof {
            lemma_nibble_bits(x);
        }
        dst[2 * i] = lut[(x >> 4u8) as usize];
        dst[2 * i + 1] = lut[(x & 0x0f) as usize];
        i += 1;
    }
    assert(dst@ =~= simple_text(src@, case));
    dst
}

proof fn lemma_with_dashes_index(h: Seq<u8>, g: int, p: int)
    requires
        h.len() == 32,
        0 <= g < 5,
        group_start_pos(g) <= p < group_end_pos(g),
    ensures
        with_dashes(h)[p] == h[p - g],
        with_dashes(h).len() == 36,
        g < 4 ==> with_dashes(h)[group_end_pos(g)] == dash(),
{
}

/// Where the `g`-th group starts in a hyphenated text.
spec fn group_start_pos(g: int) -> int {
    if g == 0 {
        0
    } else if g == 1 {
        9
    } else if g == 2 {
        14
    } else if g == 3 {
        19
    } else {
        24
    }
}

/// Where the `g`-th group ends in a hyphenated text.
spec fn group_end_pos(g: int) -> int {
    if g == 0 {
        8
    } else if g == 1 {
        13
    } else if g == 2 {
        18
    } else if g == 3 {
        23
    } else {
        36
    }
}

/// The hyphenated text of `src` in `case`.
pub fn format_hyphenated(src: &[u8; 16], case: AsciiCase) -> (r: [u8; 36])
    ensures
        r@ == hyphenated_text(src@, case),
{
    let ghost h = simple_text(src@, case);
    let ghost t = hyphenated_text(src@, case);
    let lut = char_lut(case);
    let groups: [(usize, usize); 5] = [(0, 8), (9, 13), (14, 18), (19, 23), (24, 36)];
    let mut dst = [0u8; 36];
    let mut i: usize = 0;
    let mut g: usize = 0;
    while g < 5
        invariant
            g <= 5,
            lut@ == hex_charset(case),
            h == simple_text(src@, case),
            t == with_dashes(h),
            forall|k: int| 0 <= k < 5 ==> #[trigger] groups@[k] == (group_start_pos(k) as usize, group_end_pos(k) as usize),
            g < 5 ==> 2 * i + g == group_start_pos(g as int),
            g == 5 ==> i == 16,
            forall|p: int| 0 <= p < (if g < 5 { group_start_pos(g as int) } else { 36 }) ==> #[trigger] dst@[p] == t[p],
        decreases 5 - g,
    {
        let (start, end) = groups[g];
        let mut j = start;
        while j < end
            invariant
                g < 5,
                lut@ == hex_charset(case),
                h == simple_text(src@, case),
                t == with_dashes(h),
                start == group_start_pos(g as int),
                end == group_end_pos(g as int),
                start <= j <= end,
                (j - start) % 2 == 0,
                2 * i + g == j,
                forall|p: int| 0 <= p < j ==> #[trigger] dst@[p] == t[p],
            decreases end - j,
        {
            let x = src[i];
            proof {
                lemma_nibble_bits(x);
                lemma_with_dashes_index(h, g as int, j as int);
                lemma_with_dashes_index(h, g as int, j + 1);
            }
            dst[j] = lut[(x >> 4u8) as usize];
            dst[j + 1] = lut[(x & 0x0f) as usize];
            i += 1;
            j += 2;
        }
        if g < 4 {
            proof {
                lemma_with_dashes_index(h, g as int, start as int);
            }
            dst[end] = 0x2d;
        }
        g += 1;
    }
    assert(dst@ =~= t);
    dst
}

} // verus!
