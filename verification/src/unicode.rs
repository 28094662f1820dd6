//! ASCII and UTF-32 validation, and byte-order swapping of UTF-16 and UTF-32
//! text.
use vstd::prelude::*;

use crate::bswap::{bswap_fallback, bswap_simd, BSwapExt};
use crate::ascii::{is_ascii, is_ascii_ct_fallback};
use crate::isa::{high_bits, Fallback, InstructionSet, IsaKind, SIMD128, SIMD256};
use vstd::slice::slice_to_vec;
use crate::bits::{lemma_byte_bits, lemma_u32_high4, lemma_u64_high8, lemma_u64_or_high8};
use crate::vector::{lane, lane32, lanes2, lemma_bytes2, lemma_u32_bytes, op2, splat, Op2, V128, V256};

verus! {

/// `x` is a Unicode scalar value: a code point below `0x11_0000` that is not
/// a surrogate (`0xD800..0xE000`).
pub open spec fn is_scalar_value(x: u32) -> bool {
    x < 0xD800 || (0xE000 <= x && x < 0x11_0000)
}

/// Every item of `s` is a Unicode scalar value.
pub open spec fn is_utf32(s: Seq<u32>) -> bool {
    forall|i: int| 0 <= i < s.len() ==> is_scalar_value(#[trigger] s[i])
}

/// `p + q` is ASCII exactly when both parts are.
proof fn lemma_is_ascii_concat(p: Seq<u8>, q: Seq<u8>)
    ensures
        is_ascii(p + q) == (is_ascii(p) && is_ascii(q)),
{
    let s = p + q;
    if is_ascii(p) && is_ascii(q) {
        assert forall|k: int| 0 <= k < s.len() implies #[trigger] s[k] < 0x80 by {
            if k < p.len() {
                assert(s[k] == p[k]);
            } else {
                assert(s[k] == q[k - p.len()]);
            }
        }
    }
    if is_ascii(s) {
        assert forall|k: int| 0 <= k < p.len() implies #[trigger] p[k] < 0x80 by {
            assert(s[k] == p[k]);
        }
        assert forall|k: int| 0 <= k < q.len() implies #[trigger] q[k] < 0x80 by {
            assert(s[k + p.len()] == q[k]);
        }
    }
}

/// The byte-wise OR `r` of `a` and `b` is ASCII exactly when both are.
proof fn lemma_is_ascii_or(a: Seq<u8>, b: Seq<u8>, r: Seq<u8>)
    requires
        lanes2(Op2::Or, 1, a, b, r),
    ensures
        is_ascii(r) == (is_ascii(a) && is_ascii(b)),
{
    lemma_bytes2(Op2::Or, a, b, r);
    reveal(op2);
    assert forall|k: int| 0 <= k < r.len() implies (#[trigger] r[k] < 0x80) == (a[k] < 0x80 && b[k] < 0x80) by {
        lemma_byte_bits(a[k], b[k]);
    }
    if is_ascii(r) {
        assert forall|k: int| 0 <= k < a.len() implies #[trigger] a[k] < 0x80 by {
            assert(r[k] < 0x80);
        }
        assert forall|k: int| 0 <= k < b.len() implies #[trigger] b[k] < 0x80 by {
            assert(r[k] < 0x80);
        }
    }
}

/// The high-bit mask from position `i` on is zero exactly when the bytes
/// from `i` on are ASCII.
proof fn lemma_high_bits_ascii(s: Seq<u8>, i: int)
    requires
        0 <= i <= s.len(),
    ensures
        high_bits(s, i) >= 0,
        (high_bits(s, i) == 0) == (forall|j: int| i <= j < s.len() ==> #[trigger] s[j] < 0x80),
    decreases s.len() - i,
{
    if i < s.len() {
        lemma_high_bits_ascii(s, i + 1);
        if forall|j: int| i + 1 <= j < s.len() ==> #[trigger] s[j] < 0x80 {
            if s[i] < 0x80 {
                assert forall|j: int| i <= j < s.len() implies #[trigger] s[j] < 0x80 by {
                    if j > i {
                        assert(i + 1 <= j);
                    }
                }
            }
        }
    }
}

/// Whether some byte of `a` has its high bit set.
fn u8x32_highbit_any<S: SIMD256>(s: S, a: V256) -> (r: bool)
    ensures
        r == !is_ascii(a@),
{
    let m = s.u8x32_bitmask(a);
    proof {
        lemma_high_bits_ascii(a@, 0);
    }
    m != 0
}

/// Whether every byte of `data` is ASCII: the bytes are ORed together and
/// the result tested once.
pub fn is_ascii_fallback(data: &[u8]) -> (r: bool)
    ensures
        r == is_ascii(data@),
{
    is_ascii_ct_fallback(data)
}

/// Whether every byte of `data` is ASCII, with the vector operations of `s`:
/// the AVX2 and SSE2 instruction sets take their own paths, any other the
/// 256-bit one.
pub fn is_ascii_simd<S: SIMD256>(s: S, data: &[u8]) -> (r: bool)
    ensures
        r == is_ascii(data@),
{
    match S::kind() {
        IsaKind::Avx2 => is_ascii_avx2(s, data),
        IsaKind::Sse2 => is_ascii_sse2(s, data),
        _ => is_ascii_simd_v256(s, data),
    }
}

/// The bytes of `s` from `a` up to `b` are ASCII.
spec fn ascii_in(s: Seq<u8>, a: int, b: int) -> bool {
    forall|i: int| a <= i < b ==> #[trigger] s[i] < 0x80
}

/// A slice of `s` is ASCII exactly when its bytes are.
proof fn lemma_ascii_in_sub(s: Seq<u8>, a: int, b: int)
    requires
        0 <= a <= b <= s.len(),
    ensures
        is_ascii(s.subrange(a, b)) == ascii_in(s, a, b),
{
    let t = s.subrange(a, b);
    if is_ascii(t) {
        assert forall|i: int| a <= i < b implies #[trigger] s[i] < 0x80 by {
            assert(t[i - a] == s[i]);
        }
    }
    if ascii_in(s, a, b) {
        assert forall|k: int| 0 <= k < t.len() implies #[trigger] t[k] < 0x80 by {
            assert(s[a + k] < 0x80);
        }
    }
}

/// The eight bytes of `data` from `pos` on, least significant first.
fn load_u64(data: &[u8], pos: usize) -> (r: u64)
    requires
        pos + 8 <= data@.len(),
    ensures
        ((r & 0x8080_8080_8080_8080) == 0) == ascii_in(data@, pos as int, pos + 8),
{
    let (b0, b1, b2, b3) = (data[pos], data[pos + 1], data[pos + 2], data[pos + 3]);
    let (b4, b5, b6, b7) = (data[pos + 4], data[pos + 5], data[pos + 6], data[pos + 7]);
    let v = (b0 as u64) | ((b1 as u64) << 8u64) | ((b2 as u64) << 16u64) | ((b3 as u64) << 24u64) | ((b4 as u64)
        << 32u64) | ((b5 as u64) << 40u64) | ((b6 as u64) << 48u64) | ((b7 as u64) << 56u64);
    proof {
        lemma_u64_high8(v, b0, b1, b2, b3, b4, b5, b6, b7);
        if (b0 < 0x80 && b1 < 0x80 && b2 < 0x80 && b3 < 0x80 && b4 < 0x80 && b5 < 0x80 && b6 < 0x80 && b7 < 0x80) {
            assert forall|i: int| pos <= i < pos + 8 implies #[trigger] data@[i] < 0x80 by {
                assert(i == pos || i == pos + 1 || i == pos + 2 || i == pos + 3 || i == pos + 4 || i == pos + 5 || i
                    == pos + 6 || i == pos + 7);
            }
        }
        if ascii_in(data@, pos as int, pos + 8) {
            assert(data@[pos + 7] < 0x80);
        }
    }
    v
}

/// The four bytes of `data` from `pos` on, least significant first.
fn load_u32(data: &[u8], pos: usize) -> (r: u32)
    requires
        pos + 4 <= data@.len(),
    ensures
        ((r & 0x8080_8080) == 0) == ascii_in(data@, pos as int, pos + 4),
{
    let (b0, b1, b2, b3) = (data[pos], data[pos + 1], data[pos + 2], data[pos + 3]);
    let v = (b0 as u32) | ((b1 as u32) << 8u32) | ((b2 as u32) << 16u32) | ((b3 as u32) << 24u32);
    proof {
        lemma_u32_high4(v, b0, b1, b2, b3);
        if (b0 < 0x80 && b1 < 0x80 && b2 < 0x80 && b3 < 0x80) {
            assert forall|i: int| pos <= i < pos + 4 implies #[trigger] data@[i] < 0x80 by {
                assert(i == pos || i == pos + 1 || i == pos + 2 || i == pos + 3);
            }
        }
        if ascii_in(data@, pos as int, pos + 4) {
            assert(data@[pos + 3] < 0x80);
        }
    }
    v
}

/// Whether the four bytes in `x` are ASCII.
fn check4(x: u32) -> (r: bool)
    ensures
        r == ((x & 0x8080_8080) == 0),
{
    (x & 0x8080_8080) == 0
}

/// Whether the eight bytes in `x` are ASCII.
fn check8(x: u64) -> (r: bool)
    ensures
        r == ((x & 0x8080_8080_8080_8080) == 0),
{
    (x & 0x8080_8080_8080_8080) == 0
}

/// Whether the 16 bytes of `x` are ASCII.
fn check16<S: SIMD128>(s: S, x: V128) -> (r: bool)
    ensures
        r == is_ascii(x@),
{
    let m = s.u8x16_bitmask(x);
    proof {
        lemma_high_bits_ascii(x@, 0);
    }
    m == 0
}

/// Whether the `len` bytes of `data` from `pos` on are ASCII, for `len` up to
/// 8: eight bytes as one 64-bit value, else four bytes as one 32-bit value,
/// and the rest, up to three, one by one.
fn check_tiny(data: &[u8], pos: usize, len: usize) -> (r: bool)
    requires
        len <= 8,
        pos + len <= data@.len(),
    ensures
        r == ascii_in(data@, pos as int, pos + len),
{
    let _n = data.len();
    if len == 8 {
        return check8(load_u64(data, pos));
    }
    let mut p = pos;
    let mut l = len;
    if l >= 4 {
        if !check4(load_u32(data, p)) {
            return false;
        }
        p += 4;
        l -= 4;
    }
    let start = p;
    let end = p + l;
    let mut acc: u8 = 0;
    let mut k: usize = 0;
    while k < 3
        invariant
            l <= 3,
            end == start + l,
            end == pos + len,
            pos + len <= data@.len(),
            pos <= start <= p <= end,
            start - pos == 0 || start - pos == 4,
            start - pos == 4 ==> ascii_in(data@, pos as int, start as int),
            p - start == if k <= l { k } else { l },
            k <= 3,
            (acc < 0x80) == ascii_in(data@, start as int, p as int),
        decreases 3 - k,
    {
        if p < end {
            let x = data[p];
            proof {
                lemma_byte_bits(acc, x);
            }
            acc |= x;
            p += 1;
        }
        k += 1;
    }
    proof {
        assert(p == end);
    }
    acc < 0x80
}

/// Whether the `len` bytes of `data` from `pos` on are ASCII, for `len` from
/// 9 to 16: the first eight and the last eight, as two overlapping 64-bit
/// values.
fn check_short(data: &[u8], pos: usize, len: usize) -> (r: bool)
    requires
        9 <= len <= 16,
        pos + len <= data@.len(),
    ensures
        r == ascii_in(data@, pos as int, pos + len),
{
    let _n = data.len();
    let x1 = load_u64(data, pos);
    let x2 = load_u64(data, pos + len - 8);
    proof {
        lemma_u64_or_high8(x1, x2);
    }
    check8(x1 | x2)
}

/// Whether the `len` bytes of `data` from `pos` on are ASCII, for `len` from
/// 17 to 64: 16-byte blocks from the front and one that ends at the last
/// byte, ORed together and tested once.
fn check_medium<S: SIMD128>(s: S, data: &[u8], pos: usize, len: usize) -> (r: bool)
    requires
        17 <= len <= 64,
        pos + len <= data@.len(),
    ensures
        r == ascii_in(data@, pos as int, pos + len),
{
    let _n = data.len();
    let mut x = s.v128_load_unaligned(data, pos);
    proof {
        lemma_ascii_in_sub(data@, pos as int, pos + 16);
    }
    let ghost mut covered: int = pos + 16;
    if len >= 32 {
        let y = s.v128_load_unaligned(data, pos + 16);
        let z = s.v128_or(x, y);
        proof {
            lemma_ascii_in_sub(data@, pos + 16, pos + 32);
            lemma_is_ascii_or(x@, y@, z@);
            covered = pos + 32;
        }
        x = z;
    }
    if len >= 48 {
        let y = s.v128_load_unaligned(data, pos + 32);
        let z = s.v128_or(x, y);
        proof {
            lemma_ascii_in_sub(data@, pos + 32, pos + 48);
            lemma_is_ascii_or(x@, y@, z@);
            covered = pos + 48;
        }
        x = z;
    }
    proof {
        assert(is_ascii(x@) == ascii_in(data@, pos as int, covered));
        assert(pos + len - 16 <= covered);
    }
    let y = s.v128_load_unaligned(data, pos + len - 16);
    let z = s.v128_or(x, y);
    proof {
        lemma_ascii_in_sub(data@, pos + len - 16, pos + len);
        lemma_is_ascii_or(x@, y@, z@);
    }
    check16(s, z)
}

/// Whether the `len` bytes of `data` from `pos` on are ASCII, for `len` from
/// 65 to 127: 32-byte blocks from the front and one that ends at the last
/// byte, ORed together and tested once.
fn check_wide<S: SIMD256>(s: S, data: &[u8], pos: usize, len: usize) -> (r: bool)
    requires
        65 <= len <= 127,
        pos + len <= data@.len(),
    ensures
        r == ascii_in(data@, pos as int, pos + len),
{
    let _n = data.len();
    let x0 = s.v256_load_unaligned(data, pos);
    let x1 = s.v256_load_unaligned(data, pos + 32);
    let mut x = s.v256_or(x0, x1);
    proof {
        lemma_ascii_in_sub(data@, pos as int, pos + 32);
        lemma_ascii_in_sub(data@, pos + 32, pos + 64);
        lemma_is_ascii_or(x0@, x1@, x@);
    }
    let ghost mut covered: int = pos + 64;
    if len >= 96 {
        let y = s.v256_load_unaligned(data, pos + 64);
        let z = s.v256_or(x, y);
        proof {
            lemma_ascii_in_sub(data@, pos + 64, pos + 96);
            lemma_is_ascii_or(x@, y@, z@);
            covered = pos + 96;
        }
        x = z;
    }
    proof {
        assert(is_ascii(x@) == ascii_in(data@, pos as int, covered));
        assert(pos + len - 32 <= covered);
    }
    let y = s.v256_load_unaligned(data, pos + len - 32);
    let z = s.v256_or(x, y);
    proof {
        lemma_ascii_in_sub(data@, pos + len - 32, pos + len);
        lemma_is_ascii_or(x@, y@, z@);
    }
    !u8x32_highbit_any(s, z)
}

/// Whether every byte of `data` is ASCII, in four tiers by length: up to 8
/// bytes as 64- and 32-bit values and single bytes; 9 to 16 bytes as two
/// overlapping 64-bit values; 17 to 63 bytes as overlapping 16-byte blocks;
/// from 64 bytes on, 64-byte blocks one by one, stopping at the first that is
/// not ASCII, and the rest by the tier of its length.
pub fn is_ascii_sse2<S: SIMD128>(s: S, data: &[u8]) -> (r: bool)
    ensures
        r == is_ascii(data@),
{
    let len = data.len();
    if len <= 8 {
        check_tiny(data, 0, len)
    } else if len <= 16 {
        check_short(data, 0, len)
    } else if len < 64 {
        check_medium(s, data, 0, len)
    } else {
        let end = len / 64 * 64;
        let mut p: usize = 0;
        while p < end
            invariant
                len == data@.len(),
                end == len / 64 * 64,
                end <= len,
                p <= end,
                p % 64 == 0,
                ascii_in(data@, 0, p as int),
            decreases end - p,
        {
            let x0 = s.v128_load_unaligned(data, p);
            let x1 = s.v128_load_unaligned(data, p + 16);
            let x2 = s.v128_load_unaligned(data, p + 32);
            let x3 = s.v128_load_unaligned(data, p + 48);
            let y01 = s.v128_or(x0, x1);
            let y23 = s.v128_or(x2, x3);
            let y = s.v128_or(y01, y23);
            proof {
                lemma_ascii_in_sub(data@, p as int, p + 16);
                lemma_ascii_in_sub(data@, p + 16, p + 32);
                lemma_ascii_in_sub(data@, p + 32, p + 48);
                lemma_ascii_in_sub(data@, p + 48, p + 64);
                lemma_is_ascii_or(x0@, x1@, y01@);
                lemma_is_ascii_or(x2@, x3@, y23@);
                lemma_is_ascii_or(y01@, y23@, y@);
            }
            if !check16(s, y) {
                return false;
            }
            p += 64;
        }
        let rest = len - p;
        if rest == 0 {
            return true;
        }
        let tail = if rest <= 8 {
            check_tiny(data, p, rest)
        } else if rest <= 16 {
            check_short(data, p, rest)
        } else {
            check_medium(s, data, p, rest)
        };
        tail
    }
}

/// Whether every byte of `data` is ASCII, in five tiers by length: up to 8
/// bytes and 9 to 16 bytes as in [`is_ascii_sse2`]; 17 to 64 bytes as
/// overlapping 16-byte blocks; 65 to 127 bytes as overlapping 32-byte blocks;
/// from 128 bytes on, 64-byte blocks (two 32-byte halves) one by one,
/// stopping at the first that is not ASCII, and the rest by the tier of its
/// length.
pub fn is_ascii_avx2<S: SIMD256>(s: S, data: &[u8]) -> (r: bool)
    ensures
        r == is_ascii(data@),
{
    let len = data.len();
    if len <= 8 {
        check_tiny(data, 0, len)
    } else if len <= 16 {
        check_short(data, 0, len)
    } else if len <= 64 {
        check_medium(s, data, 0, len)
    } else if len < 128 {
        check_wide(s, data, 0, len)
    } else {
        let end = len / 64 * 64;
        let mut p: usize = 0;
        while p < end
            invariant
                len == data@.len(),
                end == len / 64 * 64,
                end <= len,
                p <= end,
                p % 64 == 0,
                ascii_in(data@, 0, p as int),
            decreases end - p,
        {
            let x0 = s.v256_load_unaligned(data, p);
            let x1 = s.v256_load_unaligned(data, p + 32);
            let y = s.v256_or(x0, x1);
            proof {
                lemma_ascii_in_sub(data@, p as int, p + 32);
                lemma_ascii_in_sub(data@, p + 32, p + 64);
                lemma_is_ascii_or(x0@, x1@, y@);
            }
            if u8x32_highbit_any(s, y) {
                return false;
            }
            p += 64;
        }
        let rest = len - p;
        if rest == 0 {
            return true;
        }
        let tail = if rest <= 8 {
            check_tiny(data, p, rest)
        } else if rest <= 16 {
            check_short(data, p, rest)
        } else if rest <= 64 {
            check_medium(s, data, p, rest)
        } else {
            check_wide(s, data, p, rest)
        };
        tail
    }
}

/// Whether every byte of `data` is ASCII: blocks of 128 bytes are tested one
/// by one, stopping at the first that is not ASCII; the 32-byte chunks that
/// remain are ORed together and tested once, and the last bytes one by one.
pub fn is_ascii_simd_v256<S: SIMD256>(s: S, data: &[u8]) -> (r: bool)
    ensures
        r == is_ascii(data@),
{
    let n = data.len();
    let block_end = n / 128 * 128;
    let mut i: usize = 0;
    while i < block_end
        invariant
            n == data@.len(),
            block_end == n / 128 * 128,
            block_end <= n,
            i <= block_end,
            i % 128 == 0,
            is_ascii(data@.subrange(0, i as int)),
        decreases block_end - i,
    {
        let x0 = s.v256_load_unaligned(data, i);
        let x1 = s.v256_load_unaligned(data, i + 32);
        let x2 = s.v256_load_unaligned(data, i + 64);
        let x3 = s.v256_load_unaligned(data, i + 96);
        let y01 = s.v256_or(x0, x1);
        let y23 = s.v256_or(x2, x3);
        let y = s.v256_or(y01, y23);
        proof {
            lemma_is_ascii_or(x0@, x1@, y01@);
            lemma_is_ascii_or(x2@, x3@, y23@);
            lemma_is_ascii_or(y01@, y23@, y@);
            let block = data@.subrange(i as int, i + 128);
            assert(block =~= x0@ + x1@ + x2@ + x3@);
            lemma_is_ascii_concat(x0@, x1@);
            lemma_is_ascii_concat(x0@ + x1@, x2@);
            lemma_is_ascii_concat(x0@ + x1@ + x2@, x3@);
            assert(data@.subrange(0, i + 128) =~= data@.subrange(0, i as int) + block);
            lemma_is_ascii_concat(data@.subrange(0, i as int), block);
            if !is_ascii(block) {
                lemma_is_ascii_concat(data@.subrange(0, i + 128), data@.subrange(i + 128, n as int));
                assert(data@ =~= data@.subrange(0, i + 128) + data@.subrange(i + 128, n as int));
            }
        }
        if u8x32_highbit_any(s, y) {
            return false;
        }
        i += 128;
    }
    let end = i + (n - i) / 32 * 32;
    let mut y = s.v256_create_zero();
    proof {
        assert(is_ascii(y@));
        assert(data@.subrange(i as int, i as int) =~= Seq::<u8>::empty());
    }
    let start = i;
    while i < end
        invariant
            n == data@.len(),
            start <= i <= end <= n,
            (i - start) % 32 == 0,
            (end - start) % 32 == 0,
            y@.len() == 32,
            is_ascii(data@.subrange(0, start as int)),
            is_ascii(y@) == is_ascii(data@.subrange(start as int, i as int)),
        decreases end - i,
    {
        let x = s.v256_load_unaligned(data, i);
        let y2 = s.v256_or(y, x);
        proof {
            lemma_is_ascii_or(y@, x@, y2@);
            assert(data@.subrange(start as int, i + 32) =~= data@.subrange(start as int, i as int) + x@);
            lemma_is_ascii_concat(data@.subrange(start as int, i as int), x@);
        }
        y = y2;
        i += 32;
    }
    let mut ans = !u8x32_highbit_any(s, y);
    let rest = is_ascii_fallback(&data[i..n]);
    proof {
        let p = data@.subrange(0, start as int);
        let m = data@.subrange(start as int, i as int);
        let t = data@.subrange(i as int, n as int);
        assert(data@ =~= p + m + t);
        lemma_is_ascii_concat(p, m);
        lemma_is_ascii_concat(p + m, t);
    }
    ans = ans && rest;
    ans
}

/// `(x ^ 0xD800) - 0x800`, wrapping around: it stays below `0x10_F800`
/// exactly for scalar values.
spec fn scalar_key(x: u32) -> int {
    let t = x ^ 0xD800u32;
    if t >= 0x800 {
        t - 0x800
    } else {
        t - 0x800 + 0x1_0000_0000
    }
}

/// The wrapping key of `x` is below `0x10_F800` exactly for scalar values.
proof fn lemma_scalar_key(x: u32)
    ensures
        (scalar_key(x) < 0x10_F800) == is_scalar_value(x),
        0 <= scalar_key(x) < 0x1_0000_0000,
{
    let t = x ^ 0xD800u32;
    assert(((if t >= 0x800 { t - 0x800 } else { t - 0x800 + 0x1_0000_0000 }) < 0x10_F800) == (x < 0xD800 || (
    0xE000 <= x && x < 0x11_0000))) by (bit_vector)
        requires
            t == x ^ 0xD800u32,
    ;
}

/// Whether `x` is a Unicode scalar value, without branches.
fn is_unicode_scalar_value(x: u32) -> (r: bool)
    ensures
        r == is_scalar_value(x),
{
    let t = x ^ 0xD800u32;
    let k = t.wrapping_sub(0x800);
    proof {
        lemma_scalar_key(x);
    }
    k < 0x11_0000 - 0x800
}

/// Appending a code unit keeps a sequence valid exactly when the unit is a
/// scalar value.
proof fn lemma_is_utf32_push(p: Seq<u32>, x: u32)
    ensures
        is_utf32(p.push(x)) == (is_utf32(p) && is_scalar_value(x)),
{
    let q = p.push(x);
    if is_utf32(q) {
        assert(q[p.len() as int] == x);
        assert forall|k: int| 0 <= k < p.len() implies is_scalar_value(#[trigger] p[k]) by {
            assert(q[k] == p[k]);
        }
    }
    if is_utf32(p) && is_scalar_value(x) {
        assert forall|k: int| 0 <= k < q.len() implies is_scalar_value(#[trigger] q[k]) by {
            if k < p.len() {
                assert(q[k] == p[k]);
            }
        }
    }
}

/// Whether every item of `data` is a Unicode scalar value, looking at every
/// item whatever their values.
pub fn is_utf32le_fallback(data: &[u32]) -> (r: bool)
    ensures
        r == is_utf32(data@),
{
    let mut flag = true;
    let mut i: usize = 0;
    while i < data.len()
        invariant
            i <= data@.len(),
            flag == is_utf32(data@.subrange(0, i as int)),
        decreases data@.len() - i,
    {
        let ok = is_unicode_scalar_value(data[i]);
        proof {
            assert(data@.subrange(0, i + 1) =~= data@.subrange(0, i as int).push(data@[i as int]));
            lemma_is_utf32_push(data@.subrange(0, i as int), data@[i as int]);
        }
        flag = flag && ok;
        i += 1;
    }
    assert(data@.subrange(0, i as int) =~= data@);
    flag
}

/// A vector holding `data[pos..pos + 8]`, one item per 32-bit lane.
fn load_u32x8(data: &[u32], pos: usize) -> (r: V256)
    requires
        pos + 8 <= data@.len(),
    ensures
        forall|k: int| 0 <= k < 8 ==> #[trigger] lane32(r@, k) == data@[pos + k],
{
    let mut lo = [0u8; 16];
    let mut hi = [0u8; 16];
    let mut k: usize = 0;
    while k < 4
        invariant
            k <= 4,
            pos + 8 <= data.len(),
            forall|j: int| 0 <= j < k ==> #[trigger] lane32(lo@, j) == data@[pos + j],
            forall|j: int| 0 <= j < k ==> #[trigger] lane32(hi@, j) == data@[pos + 4 + j],
        decreases 4 - k,
    {
        let x = data[pos + k];
        let y = data[pos + 4 + k];
        proof {
            lemma_u32_bytes(x);
            lemma_u32_bytes(y);
        }
        let ghost lo0 = lo@;
        let ghost hi0 = hi@;
        lo[4 * k] = #[verifier::truncate] ((x & 0xff) as u8);
        lo[4 * k + 1] = #[verifier::truncate] (((x >> 8u32) & 0xff) as u8);
        lo[4 * k + 2] = #[verifier::truncate] (((x >> 16u32) & 0xff) as u8);
        lo[4 * k + 3] = #[verifier::truncate] ((x >> 24u32) as u8);
        hi[4 * k] = #[verifier::truncate] ((y & 0xff) as u8);
        hi[4 * k + 1] = #[verifier::truncate] (((y >> 8u32) & 0xff) as u8);
        hi[4 * k + 2] = #[verifier::truncate] (((y >> 16u32) & 0xff) as u8);
        hi[4 * k + 3] = #[verifier::truncate] ((y >> 24u32) as u8);
        proof {
            assert forall|j: int| 0 <= j < k implies #[trigger] lane32(lo@, j) == lane32(lo0, j) by {
                assert(lo@[4 * j] == lo0[4 * j] && lo@[4 * j + 1] == lo0[4 * j + 1] && lo@[4 * j + 2] == lo0[4 * j
                    + 2] && lo@[4 * j + 3] == lo0[4 * j + 3]);
            }
            assert forall|j: int| 0 <= j < k implies #[trigger] lane32(hi@, j) == lane32(hi0, j) by {
                assert(hi@[4 * j] == hi0[4 * j] && hi@[4 * j + 1] == hi0[4 * j + 1] && hi@[4 * j + 2] == hi0[4 * j
                    + 2] && hi@[4 * j + 3] == hi0[4 * j + 3]);
            }
            assert(lane32(lo@, k as int) == x);
            assert(lane32(hi@, k as int) == y);
        }
        k += 1;
    }
    let r = V256 { lo: V128(lo), hi: V128(hi) };
    assert forall|k: int| 0 <= k < 8 implies #[trigger] lane32(r@, k) == data@[pos + k] by {
        if k < 4 {
            assert(lane32(lo@, k) == data@[pos + k]);
            assert(r@[4 * k] == lo@[4 * k] && r@[4 * k + 1] == lo@[4 * k + 1] && r@[4 * k + 2] == lo@[4 * k + 2]
                && r@[4 * k + 3] == lo@[4 * k + 3]);
        } else {
            let j = k - 4;
            assert(lane32(hi@, j) == data@[pos + 4 + j]);
            assert(r@[4 * k] == hi@[4 * j] && r@[4 * k + 1] == hi@[4 * j + 1] && r@[4 * k + 2] == hi@[4 * j + 2]
                && r@[4 * k + 3] == hi@[4 * j + 3]);
        }
    }
    r
}

/// Byte-wise XOR is XOR of the 32-bit lanes.
proof fn lemma_xor_lane32(a: Seq<u8>, b: Seq<u8>, r: Seq<u8>, k: int)
    requires
        lanes2(Op2::Xor, 1, a, b, r),
        0 <= k,
        4 * k + 4 <= a.len(),
    ensures
        lane32(r, k) == (lane32(a, k) as u32 ^ lane32(b, k) as u32) as int,
{
    lemma_bytes2(Op2::Xor, a, b, r);
    reveal(op2);
    let (a0, a1, a2, a3) = (a[4 * k], a[4 * k + 1], a[4 * k + 2], a[4 * k + 3]);
    let (b0, b1, b2, b3) = (b[4 * k], b[4 * k + 1], b[4 * k + 2], b[4 * k + 3]);
    let (r0, r1, r2, r3) = (r[4 * k], r[4 * k + 1], r[4 * k + 2], r[4 * k + 3]);
    assert(r0 == a0 ^ b0 && r1 == a1 ^ b1 && r2 == a2 ^ b2 && r3 == a3 ^ b3);
    assert(r0 + 256 * r1 + 0x1_0000 * (r2 + 256 * r3) == ((a0 + 256 * a1 + 0x1_0000 * (a2 + 256 * a3)) as u32 ^ (
    b0 + 256 * b1 + 0x1_0000 * (b2 + 256 * b3)) as u32)) by (bit_vector)
        requires
            r0 == a0 ^ b0,
            r1 == a1 ^ b1,
            r2 == a2 ^ b2,
            r3 == a3 ^ b3,
    ;
}

/// Every 32-bit lane of `v` is below `0x10_F800`.
spec fn lanes_below_limit(v: Seq<u8>) -> bool {
    forall|k: int| 0 <= k < 8 ==> #[trigger] lane32(v, k) < 0x10_F800
}

/// The lanes of one block: `key` holds the scalar keys of `data[pos..pos + 8]`.
proof fn lemma_block_keys(data: Seq<u32>, pos: int, x: Seq<u8>, c1: Seq<u8>, a1: Seq<u8>, c2: Seq<u8>, key: Seq<u8>)
    requires
        0 <= pos,
        pos + 8 <= data.len(),
        x.len() == 32,
        forall|k: int| 0 <= k < 8 ==> #[trigger] lane32(x, k) == data[pos + k],
        splat(4, 0xD800, c1),
        lanes2(Op2::Xor, 1, x, c1, a1),
        splat(4, 0x800, c2),
        lanes2(Op2::Sub, 4, a1, c2, key),
    ensures
        forall|k: int| 0 <= k < 8 ==> #[trigger] lane32(key, k) == scalar_key(data[pos + k]),
        lanes_below_limit(key) == is_utf32(data.subrange(pos, pos + 8)),
{
    reveal(lane);
    reveal(op2);
    assert forall|k: int| 0 <= k < 8 implies #[trigger] lane32(key, k) == scalar_key(data[pos + k]) by {
        assert(lane(4, c1, k) == 0xD800);
        assert(lane(4, c2, k) == 0x800);
        lemma_xor_lane32(x, c1, a1, k);
        assert(lane(4, key, k) == op2(Op2::Sub, 4, lane(4, a1, k), lane(4, c2, k)));
        lemma_scalar_key(data[pos + k]);
    }
    let blk = data.subrange(pos, pos + 8);
    if lanes_below_limit(key) {
        assert forall|j: int| 0 <= j < blk.len() implies is_scalar_value(#[trigger] blk[j]) by {
            assert(lane32(key, j) < 0x10_F800);
            lemma_scalar_key(data[pos + j]);
        }
    }
    if is_utf32(blk) {
        assert forall|k: int| 0 <= k < 8 implies #[trigger] lane32(key, k) < 0x10_F800 by {
            assert(is_scalar_value(blk[k]));
            lemma_scalar_key(data[pos + k]);
        }
    }
}

/// A concatenation is valid exactly when both parts are.
proof fn lemma_is_utf32_concat(p: Seq<u32>, q: Seq<u32>)
    ensures
        is_utf32(p + q) == (is_utf32(p) && is_utf32(q)),
{
    let s = p + q;
    if is_utf32(s) {
        assert forall|k: int| 0 <= k < p.len() implies is_scalar_value(#[trigger] p[k]) by {
            assert(s[k] == p[k]);
        }
        assert forall|k: int| 0 <= k < q.len() implies is_scalar_value(#[trigger] q[k]) by {
            assert(s[k + p.len()] == q[k]);
        }
    }
    if is_utf32(p) && is_utf32(q) {
        assert forall|k: int| 0 <= k < s.len() implies is_scalar_value(#[trigger] s[k]) by {
            if k < p.len() {
                assert(s[k] == p[k]);
            } else {
                assert(s[k] == q[k - p.len()]);
            }
        }
    }
}

/// Whether every item of `data` is a Unicode scalar value. Blocks of 8 items
/// fold their scalar keys into a running lane-wise maximum that is tested
/// once at the end; the tail is tested item by item. There is no early exit.
pub fn is_utf32le_simd<S: SIMD256>(s: S, data: &[u32]) -> (r: bool)
    ensures
        r == is_utf32(data@),
{
    let n = data.len();
    let blocks = n / 8;
    let mut y = s.u32x8_splat(0);
    proof {
        reveal(lane);
        assert forall|k: int| 0 <= k < 8 implies #[trigger] lane32(y@, k) < 0x10_F800 by {
            assert(lane(4, y@, k) == 0);
        }
        assert(data@.subrange(0, 0) =~= Seq::<u32>::empty());
    }
    let mut i: usize = 0;
    while i < blocks
        invariant
            n == data@.len(),
            blocks == n / 8,
            i <= blocks,
            lanes_below_limit(y@) == is_utf32(data@.subrange(0, 8 * i)),
        decreases blocks - i,
    {
        let x = load_u32x8(data, 8 * i);
        let c1 = s.u32x8_splat(0xD800);
        let a1 = s.v256_xor(x, c1);
        let c2 = s.u32x8_splat(0x800);
        let a2 = s.u32x8_sub(a1, c2);
        let y2 = s.u32x8_max(y, a2);
        proof {
            lemma_block_keys(data@, 8 * i, x@, c1@, a1@, c2@, a2@);
            reveal(lane);
            reveal(op2);
            assert forall|k: int| 0 <= k < 8 implies (#[trigger] lane32(y2@, k) < 0x10_F800) == (lane32(y@, k)
                < 0x10_F800 && lane32(a2@, k) < 0x10_F800) by {
                assert(lane(4, y2@, k) == op2(Op2::MaxU, 4, lane(4, y@, k), lane(4, a2@, k)));
            }
            if lanes_below_limit(y@) && lanes_below_limit(a2@) {
                assert forall|k: int| 0 <= k < 8 implies #[trigger] lane32(y2@, k) < 0x10_F800 by {
                    assert(lane32(y@, k) < 0x10_F800 && lane32(a2@, k) < 0x10_F800);
                }
            }
            if lanes_below_limit(y2@) {
                assert forall|k: int| 0 <= k < 8 implies #[trigger] lane32(y@, k) < 0x10_F800 by {
                    assert(lane32(y2@, k) < 0x10_F800);
                }
                assert forall|k: int| 0 <= k < 8 implies #[trigger] lane32(a2@, k) < 0x10_F800 by {
                    assert(lane32(y2@, k) < 0x10_F800);
                }
            }
            lemma_is_utf32_concat(data@.subrange(0, 8 * i), data@.subrange(8 * i, 8 * i + 8));
            assert(data@.subrange(0, 8 * i) + data@.subrange(8 * i, 8 * i + 8) =~= data@.subrange(0, 8 * (i + 1)));
        }
        y = y2;
        i += 1;
    }
    let m = s.u32x8_splat(0x11_0000 - 0x800 - 1);
    let lt = s.u32x8_lt(m, y);
    let ans = s.v256_all_zero(lt);
    proof {
        reveal(lane);
        reveal(op2);
        assert forall|k: int| 0 <= k < 8 implies (lane32(#[trigger] lt@, k) == 0) == (lane32(y@, k) < 0x10_F800) by {
            assert(lane(4, m@, k) == 0x10_F7FF);
            assert(lane(4, lt@, k) == op2(Op2::LtU, 4, lane(4, m@, k), lane(4, y@, k)));
        }
        if ans {
            assert forall|k: int| 0 <= k < 8 implies #[trigger] lane32(y@, k) < 0x10_F800 by {
                assert(lt@[4 * k] == 0 && lt@[4 * k + 1] == 0 && lt@[4 * k + 2] == 0 && lt@[4 * k + 3] == 0);
                assert(lane32(lt@, k) == 0);
            }
        }
        if lanes_below_limit(y@) {
            assert forall|j: int| 0 <= j < 32 implies #[trigger] lt@[j] == 0 by {
                let k = j / 4;
                assert(lane32(y@, k) < 0x10_F800);
                assert(lane32(lt@, k) == 0);
            }
        }
    }
    let tail = &data[8 * blocks..n];
    let rest = is_utf32le_fallback(tail);
    proof {
        lemma_is_utf32_concat(data@.subrange(0, 8 * blocks), tail@);
        assert(data@.subrange(0, 8 * blocks) + tail@ =~= data@);
    }
    ans && rest
}

/// Whether every item of `data` is a Unicode scalar value, with the best
/// instruction set available, looking at every item.
pub fn is_utf32le_ct(data: &[u32]) -> (r: bool)
    ensures
        r == is_utf32(data@),
{
    match Fallback::detect() {
        Some(s) => is_utf32le_simd(s, data),
        None => is_utf32le_fallback(data),
    }
}

/// Writes the UTF-32 code units of `src` with their byte order reversed into
/// `dst[..src.len()]`, with the best instruction set available. The rest of
/// `dst` is left as it was.
pub fn utf32_swap_endianness(src: &[u32], dst: &mut [u32])
    requires
        src@.len() <= old(dst)@.len(),
    ensures
        final(dst)@.len() == old(dst)@.len(),
        forall|i: int| 0 <= i < src@.len() ==> #[trigger] final(dst)@[i] == <u32 as BSwapExt>::spec_swap(src@[i]),
        forall|i: int| src@.len() <= i < old(dst)@.len() ==> #[trigger] final(dst)@[i] == old(dst)@[i],
{
    match Fallback::detect() {
        Some(s) => swap_endianness_simd(s, src, dst),
        None => swap_endianness_fallback(src, dst),
    }
}

/// Reverses the byte order of every UTF-32 code unit of `data`.
pub fn utf32_swap_endianness_inplace(data: &mut [u32])
    ensures
        final(data)@.len() == old(data)@.len(),
        forall|i: int| 0 <= i < old(data)@.len() ==> #[trigger] final(data)@[i] == <u32 as BSwapExt>::spec_swap(
            old(data)@[i],
        ),
{
    let copy = slice_to_vec(data);
    utf32_swap_endianness(copy.as_slice(), data);
}

/// Writes the UTF-16 code units of `src` with their byte order reversed into
/// `dst[..src.len()]`, with the best instruction set available. The rest of
/// `dst` is left as it was.
pub fn utf16_swap_endianness(src: &[u16], dst: &mut [u16])
    requires
        src@.len() <= old(dst)@.len(),
    ensures
        final(dst)@.len() == old(dst)@.len(),
        forall|i: int| 0 <= i < src@.len() ==> #[trigger] final(dst)@[i] == <u16 as BSwapExt>::spec_swap(src@[i]),
        forall|i: int| src@.len() <= i < old(dst)@.len() ==> #[trigger] final(dst)@[i] == old(dst)@[i],
{
    match Fallback::detect() {
        Some(s) => utf16_swap_endianness_simd(s, src, dst),
        None => utf16_swap_endianness_fallback(src, dst),
    }
}

/// Reverses the byte order of every UTF-16 code unit of `data`.
pub fn utf16_swap_endianness_inplace(data: &mut [u16])
    ensures
        final(data)@.len() == old(data)@.len(),
        forall|i: int| 0 <= i < old(data)@.len() ==> #[trigger] final(data)@[i] == <u16 as BSwapExt>::spec_swap(
            old(data)@[i],
        ),
{
    let copy = slice_to_vec(data);
    utf16_swap_endianness(copy.as_slice(), data);
}

/// Writes the UTF-32 code units of `src` with their byte order reversed into
/// `dst[..src.len()]`, one by one.
pub fn swap_endianness_fallback(src: &[u32], dst: &mut [u32])
    requires
        src@.len() <= old(dst)@.len(),
    ensures
        final(dst)@.len() == old(dst)@.len(),
        forall|i: int| 0 <= i < src@.len() ==> #[trigger] final(dst)@[i] == <u32 as BSwapExt>::spec_swap(src@[i]),
        forall|i: int| src@.len() <= i < old(dst)@.len() ==> #[trigger] final(dst)@[i] == old(dst)@[i],
{
    bswap_fallback(src, dst)
}

/// Writes the UTF-32 code units of `src` with their byte order reversed into
/// `dst[..src.len()]`, with the vector operations of `s`.
pub fn swap_endianness_simd<S: SIMD256>(s: S, src: &[u32], dst: &mut [u32])
    requires
        src@.len() <= old(dst)@.len(),
    ensures
        final(dst)@.len() == old(dst)@.len(),
        forall|i: int| 0 <= i < src@.len() ==> #[trigger] final(dst)@[i] == <u32 as BSwapExt>::spec_swap(src@[i]),
        forall|i: int| src@.len() <= i < old(dst)@.len() ==> #[trigger] final(dst)@[i] == old(dst)@[i],
{
    bswap_simd(s, src, dst)
}

/// Writes the UTF-16 code units of `src` with their byte order reversed into
/// `dst[..src.len()]`, one by one.
pub fn utf16_swap_endianness_fallback(src: &[u16], dst: &mut [u16])
    requires
        src@.len() <= old(dst)@.len(),
    ensures
        final(dst)@.len() == old(dst)@.len(),
        forall|i: int| 0 <= i < src@.len() ==> #[trigger] final(dst)@[i] == <u16 as BSwapExt>::spec_swap(src@[i]),
        forall|i: int| src@.len() <= i < old(dst)@.len() ==> #[trigger] final(dst)@[i] == old(dst)@[i],
{
    bswap_fallback(src, dst)
}

/// Writes the UTF-16 code units of `src` with their byte order reversed into
/// `dst[..src.len()]`, with the vector operations of `s`.
pub fn utf16_swap_endianness_simd<S: SIMD256>(s: S, src: &[u16], dst: &mut [u16])
    requires
        src@.len() <= old(dst)@.len(),
    ensures
        final(dst)@.len() == old(dst)@.len(),
        forall|i: int| 0 <= i < src@.len() ==> #[trigger] final(dst)@[i] == <u16 as BSwapExt>::spec_swap(src@[i]),
        forall|i: int| src@.len() <= i < old(dst)@.len() ==> #[trigger] final(dst)@[i] == old(dst)@[i],
{
    bswap_simd(s, src, dst)
}

} // verus!
