//! ASCII checks and whitespace search.
use vstd::prelude::*;

use crate::bits::lemma_byte_bits;
use crate::isa::{Fallback, InstructionSet, SIMD128, SIMD256};
use crate::scalar::Bytes32;
use crate::vector::{all_zero, lemma_bytes2, lemma_splat_bytes, op2, swizzled, Op2, V128, V256};

verus! {

/// Letter case of hex digits and other ASCII output.
#[derive(Debug, Clone, Copy, PartialEq, Eq, Structural)]
pub enum AsciiCase {
    Lower,
    Upper,
}

/// Every byte of `s` is ASCII (below `0x80`).
pub open spec fn is_ascii(s: Seq<u8>) -> bool {
    forall|i: int| 0 <= i < s.len() ==> #[trigger] s[i] < 0x80
}

/// `c` is ASCII whitespace: tab, line feed, form feed, carriage return or
/// space.
pub open spec fn is_ascii_whitespace(c: u8) -> bool {
    c == 0x09 || c == 0x0a || c == 0x0c || c == 0x0d || c == 0x20
}

/// The position of the first ASCII whitespace byte of `s`, or its length if
/// there is none.
pub open spec fn whitespace_free_prefix(s: Seq<u8>, r: int) -> bool {
    &&& 0 <= r <= s.len()
    &&& forall|i: int| 0 <= i < r ==> !is_ascii_whitespace(#[trigger] s[i])
    &&& r < s.len() ==> is_ascii_whitespace(s[r])
}

/// `s` without its ASCII whitespace, in order.
pub open spec fn remove_whitespace(s: Seq<u8>) -> Seq<u8>
    decreases s.len(),
{
    if s.len() == 0 {
        s
    } else if is_ascii_whitespace(s.last()) {
        remove_whitespace(s.drop_last())
    } else {
        remove_whitespace(s.drop_last()).push(s.last())
    }
}

/// An OR of two bytes is ASCII exactly when both are.
proof fn lemma_or_ascii(x: u8, y: u8)
    ensures
        ((x | y) < 0x80) == (x < 0x80 && y < 0x80),
{
    lemma_byte_bits(x, y);
}

/// Appending a byte keeps a sequence ASCII exactly when the byte is ASCII.
proof fn lemma_is_ascii_push(p: Seq<u8>, x: u8)
    ensures
        is_ascii(p.push(x)) == (is_ascii(p) && x < 0x80),
{
    let q = p.push(x);
    if is_ascii(q) {
        assert(q[p.len() as int] == x);
        assert forall|k: int| 0 <= k < p.len() implies #[trigger] p[k] < 0x80 by {
            assert(q[k] == p[k]);
        }
    }
    if is_ascii(p) && x < 0x80 {
        assert forall|k: int| 0 <= k < q.len() implies #[trigger] q[k] < 0x80 by {
            if k < p.len() {
                assert(q[k] == p[k]);
            }
        }
    }
}

/// Whether every byte of `data` is ASCII, looking at every byte whatever
/// their values.
pub fn is_ascii_ct_fallback(data: &[u8]) -> (r: bool)
    ensures
        r == is_ascii(data@),
{
    let mut ans: u8 = 0;
    let mut i: usize = 0;
    while i < data.len()
        invariant
            i <= data@.len(),
            (ans < 0x80) == is_ascii(data@.subrange(0, i as int)),
        decreases data@.len() - i,
    {
        let x = data[i];
        proof {
            lemma_or_ascii(ans, x);
            assert(data@.subrange(0, i + 1) =~= data@.subrange(0, i as int).push(x));
            lemma_is_ascii_push(data@.subrange(0, i as int), x);
        }
        ans = ans | x;
        i += 1;
    }
    assert(data@.subrange(0, i as int) =~= data@);
    ans < 0x80
}

/// The ASCII test of a whole vector, which instruction sets answer in their
/// own way.
pub trait SIMDExt: SIMD256 {
    /// Whether every byte of `a` is ASCII.
    fn is_ascii_u8x32(self, a: V256) -> (r: bool)
        ensures
            r == is_ascii(a@),
    ;
}

impl SIMDExt for Fallback {
    fn is_ascii_u8x32(self, a: V256) -> (r: bool) {
        let x = self.v128_or(a.lo, a.hi);
        let z = self.v128_create_zero();
        let m = self.i8x16_lt(x, z);
        proof {
            lemma_bytes2(Op2::Or, a.lo@, a.hi@, x@);
            lemma_bytes2(Op2::LtS, x@, z@, m@);
            reveal(op2);
            assert forall|k: int| 0 <= k < 16 implies (#[trigger] m@[k] == 0) == (a.lo@[k] < 0x80 && a.hi@[k]
                < 0x80) by {
                lemma_or_ascii(a.lo@[k], a.hi@[k]);
                assert(z@[k] == 0);
            }
            if is_ascii(a@) {
                assert forall|k: int| 0 <= k < 16 implies #[trigger] m@[k] == 0 by {
                    assert(a@[k] == a.lo@[k] && a@[k + 16] == a.hi@[k]);
                }
            }
            if all_zero(m@) {
                assert forall|i: int| 0 <= i < 32 implies #[trigger] a@[i] < 0x80 by {
                    if i < 16 {
                        assert(m@[i] == 0);
                    } else {
                        assert(m@[i - 16] == 0);
                    }
                }
            }
        }
        self.v128_all_zero(m)
    }
}

/// The byte-wise OR of two sequences is ASCII exactly when both are.
proof fn lemma_is_ascii_or(m: Seq<u8>, a: Seq<u8>, r: Seq<u8>)
    requires
        lanes2_or(m, a, r),
    ensures
        is_ascii(r) == (is_ascii(m) && is_ascii(a)),
{
    assert forall|k: int| 0 <= k < r.len() implies (#[trigger] r[k] < 0x80) == (m[k] < 0x80 && a[k] < 0x80) by {
        lemma_or_ascii(m[k], a[k]);
    }
    if is_ascii(r) {
        assert forall|k: int| 0 <= k < m.len() implies #[trigger] m[k] < 0x80 by {
            assert(r[k] < 0x80);
        }
        assert forall|k: int| 0 <= k < a.len() implies #[trigger] a[k] < 0x80 by {
            assert(r[k] < 0x80);
        }
    }
}

/// `r` is the byte-wise OR of `m` and `a`.
spec fn lanes2_or(m: Seq<u8>, a: Seq<u8>, r: Seq<u8>) -> bool {
    &&& m.len() == a.len()
    &&& r.len() == a.len()
    &&& forall|k: int| 0 <= k < r.len() ==> #[trigger] r[k] == (m[k] | a[k])
}

/// Whether every byte of `data` is ASCII: whole 32-byte blocks are ORed
/// together and tested once, the rest byte by byte, with no early exit.
pub fn is_ascii_ct_simd<S: SIMDExt>(s: S, data: &[u8]) -> (r: bool)
    ensures
        r == is_ascii(data@),
{
    let n = data.len();
    let chunks = n / 32;
    let mut mask = s.v256_create_zero();
    let mut i: usize = 0;
    while i < chunks
        invariant
            n == data@.len(),
            chunks == n / 32,
            i <= chunks,
            is_ascii(mask@) == is_ascii(data@.subrange(0, 32 * i)),
        decreases chunks - i,
    {
        let a = s.v256_load_unaligned(data, 32 * i);
        let m2 = s.v256_or(mask, a);
        proof {
            lemma_bytes2(Op2::Or, mask@, a@, m2@);
            reveal(op2);
            lemma_is_ascii_or(mask@, a@, m2@);
            let p = data@.subrange(0, 32 * i);
            let q = data@.subrange(0, 32 * (i + 1));
            assert(q =~= p + a@);
            assert(is_ascii(q) == (is_ascii(p) && is_ascii(a@))) by {
                if is_ascii(p) && is_ascii(a@) {
                    assert forall|k: int| 0 <= k < q.len() implies #[trigger] q[k] < 0x80 by {
                        if k < p.len() {
                            assert(q[k] == p[k]);
                        } else {
                            assert(q[k] == a@[k - p.len()]);
                        }
                    }
                }
                if is_ascii(q) {
                    assert forall|k: int| 0 <= k < p.len() implies #[trigger] p[k] < 0x80 by {
                        assert(q[k] == p[k]);
                    }
                    assert forall|k: int| 0 <= k < a@.len() implies #[trigger] a@[k] < 0x80 by {
                        assert(q[k + p.len()] == a@[k]);
                    }
                }
            }
        }
        mask = m2;
        i += 1;
    }
    let ans = s.is_ascii_u8x32(mask);
    let rest = is_ascii_ct_fallback(&data[32 * chunks..n]);
    proof {
        let p = data@.subrange(0, 32 * chunks);
        let t = data@.subrange(32 * chunks as int, n as int);
        assert(data@ =~= p + t);
        if is_ascii(p) && is_ascii(t) {
            assert forall|k: int| 0 <= k < data@.len() implies #[trigger] data@[k] < 0x80 by {
                if k < p.len() {
                    assert(data@[k] == p[k]);
                } else {
                    assert(data@[k] == t[k - p.len()]);
                }
            }
        }
        if is_ascii(data@) {
            assert forall|k: int| 0 <= k < p.len() implies #[trigger] p[k] < 0x80 by {
                assert(data@[k] == p[k]);
            }
            assert forall|k: int| 0 <= k < t.len() implies #[trigger] t[k] < 0x80 by {
                assert(data@[k + p.len()] == t[k]);
            }
        }
    }
    ans && rest
}

/// Whether every byte of `data` is ASCII, with the best instruction set
/// available.
pub fn is_ascii_ct(data: &[u8]) -> (r: bool)
    ensures
        r == is_ascii(data@),
{
    match Fallback::detect() {
        Some(s) => is_ascii_ct_simd(s, data),
        None => is_ascii_ct_fallback(data),
    }
}

/// `0xff` for an ASCII whitespace byte, `0` for any other.
fn lookup_ascii_whitespace(c: u8) -> (r: u8)
    ensures
        r == if is_ascii_whitespace(c) { 0xffu8 } else { 0u8 },
{
    if c == 0x09 || c == 0x0a || c == 0x0c || c == 0x0d || c == 0x20 {
        0xff
    } else {
        0
    }
}

/// The position of the first ASCII whitespace byte of `data`, or its length
/// if there is none. Blocks of 8 bytes are tested together first.
pub fn find_non_ascii_whitespace_fallback(data: &[u8]) -> (r: usize)
    ensures
        whitespace_free_prefix(data@, r as int),
{
    let n = data.len();
    let end = n / 8 * 8;
    assert(end % 8 == 0 && end <= n) by (nonlinear_arith)
        requires
            end == n / 8 * 8,
    ;
    let mut src: usize = 0;
    while src < end
        invariant
            n == data@.len(),
            end <= n,
            src <= end,
            src % 8 == 0,
            end % 8 == 0,
            forall|j: int| 0 <= j < src ==> !is_ascii_whitespace(#[trigger] data@[j]),
        ensures
            src <= n,
            forall|j: int| 0 <= j < src ==> !is_ascii_whitespace(#[trigger] data@[j]),
        decreases end - src,
    {
        let mut flag: u8 = 0;
        let mut k: usize = 0;
        while k < 8
            invariant
                n == data@.len(),
                src < end,
                end <= n,
                end - src >= 8,
                k <= 8,
                flag == 0 || flag == 0xff,
                (flag == 0) == (forall|j: int| src <= j < src + k ==> !is_ascii_whitespace(#[trigger] data@[j])),
            decreases 8 - k,
        {
            let w = lookup_ascii_whitespace(data[src + k]);
            proof {
                lemma_byte_bits(flag, w);
            }
            flag = flag | w;
            k += 1;
        }
        if flag != 0 {
            break;
        }
        src += 8;
    }
    while src < n
        invariant
            n == data@.len(),
            src <= n,
            forall|j: int| 0 <= j < src ==> !is_ascii_whitespace(#[trigger] data@[j]),
        ensures
            src <= n,
            forall|j: int| 0 <= j < src ==> !is_ascii_whitespace(#[trigger] data@[j]),
            src < n ==> is_ascii_whitespace(data@[src as int]),
        decreases n - src,
    {
        if lookup_ascii_whitespace(data[src]) != 0 {
            break;
        }
        src += 1;
    }
    src
}

/// The whitespace table by low nibble: zero at tab, line feed, form feed and
/// carriage return.
spec fn whitespace_lut() -> Seq<u8> {
    seq![
        0xffu8, 0xff, 0xff, 0xff, 0xff, 0xff, 0xff, 0xff, 0xff, 0x00, 0x00, 0xff, 0x00, 0x00, 0xff, 0xff,
    ]
}

/// The lane test of one byte `x`, given the intermediate bytes.
proof fn lemma_whitespace_byte(x: u8, m1: u8, m2: u8, o: u8, m3: u8, m4: u8, m5: u8)
    requires
        m2 == (x & 0xf0u8),
        x < 16 ==> m1 == whitespace_lut()[x as int],
        o == (m1 | m2),
        m3 == if o == 0 { 0xffu8 } else { 0u8 },
        m4 == if x == 0x20 { 0xffu8 } else { 0u8 },
        m5 == (m3 | m4),
    ensures
        (m5 == 0) == !is_ascii_whitespace(x),
{
    lemma_byte_bits(x, 0);
    lemma_byte_bits(m1, m2);
    lemma_byte_bits(m1, 0);
    lemma_byte_bits(m3, m4);
}

/// Whether some byte of `a` is ASCII whitespace.
fn check_non_ascii_whitespace_u8x32<S: SIMD256>(s: S, a: V256) -> (r: bool)
    ensures
        r == exists|i: int| 0 <= i < 32 && is_ascii_whitespace(#[trigger] a@[i]),
{
    let table = Bytes32::double(
        [
            0xff, 0xff, 0xff, 0xff, 0xff, 0xff, 0xff, 0xff, //
            0xff, 0x00, 0x00, 0xff, 0x00, 0x00, 0xff, 0xff, //
        ],
    );
    let lut = s.v256_load(&table);
    let m1 = s.u8x16x2_swizzle(lut, a);
    let f0 = s.u8x32_splat(0xf0);
    let m2 = s.v256_and(a, f0);
    let o = s.v256_or(m1, m2);
    let z = s.v256_create_zero();
    let m3 = s.u8x32_eq(o, z);
    let sp = s.u8x32_splat(0x20);
    let m4 = s.u8x32_eq(a, sp);
    let m5 = s.v256_or(m3, m4);
    let none = s.v256_all_zero(m5);
    proof {
        reveal(op2);
        lemma_splat_bytes(0xf0, f0@);
        lemma_splat_bytes(0x20, sp@);
        lemma_bytes2(Op2::And, a@, f0@, m2@);
        lemma_bytes2(Op2::Or, m1@, m2@, o@);
        lemma_bytes2(Op2::Eq, o@, z@, m3@);
        lemma_bytes2(Op2::Eq, a@, sp@, m4@);
        lemma_bytes2(Op2::Or, m3@, m4@, m5@);
        assert(lut@ =~= whitespace_lut() + whitespace_lut());
        assert forall|i: int| 0 <= i < 32 implies (#[trigger] m5@[i] == 0) == !is_ascii_whitespace(a@[i]) by {
            assert(z@[i] == 0);
            if a@[i] < 16 {
                assert(m1@[i] == lut@[i - i % 16 + a@[i]]);
                assert(lut@[i - i % 16 + a@[i]] == whitespace_lut()[a@[i] as int]);
            }
            lemma_whitespace_byte(a@[i], m1@[i], m2@[i], o@[i], m3@[i], m4@[i], m5@[i]);
        }
        if !none {
            let i = choose|i: int| 0 <= i < 32 && #[trigger] m5@[i] != 0;
            assert(is_ascii_whitespace(a@[i]));
        } else {
            assert forall|i: int| 0 <= i < 32 implies !is_ascii_whitespace(#[trigger] a@[i]) by {
                assert(m5@[i] == 0);
            }
        }
    }
    !none
}

/// The position of the first ASCII whitespace byte of `data`, or its length
/// if there is none. Whole 32-byte blocks are tested as vectors; the block
/// that holds whitespace, and the tail, are searched byte by byte.
pub fn find_non_ascii_whitespace_simd<S: SIMD256>(s: S, data: &[u8]) -> (r: usize)
    ensures
        whitespace_free_prefix(data@, r as int),
{
    let n = data.len();
    let chunks = n / 32;
    let mut pos: usize = 0;
    let mut i: usize = 0;
    while i < chunks
        invariant
            n == data@.len(),
            chunks == n / 32,
            i <= chunks,
            pos == 32 * i,
            forall|j: int| 0 <= j < pos ==> !is_ascii_whitespace(#[trigger] data@[j]),
        decreases chunks - i,
    {
        let a = s.v256_load_unaligned(data, pos);
        if check_non_ascii_whitespace_u8x32(s, a) {
            let block = &data[pos..pos + 32];
            let offset = find_non_ascii_whitespace_fallback(block);
            proof {
                assert forall|j: int| 0 <= j < pos + offset implies !is_ascii_whitespace(#[trigger] data@[j]) by {
                    if j >= pos {
                        assert(data@[j] == block@[j - pos]);
                    }
                }
                if offset == 32 {
                    let k = choose|k: int| 0 <= k < 32 && is_ascii_whitespace(#[trigger] a@[k]);
                    assert(a@[k] == block@[k]);
                }
                assert(block@[offset as int] == data@[pos + offset]);
            }
            return pos + offset;
        }
        proof {
            assert forall|j: int| 0 <= j < pos + 32 implies !is_ascii_whitespace(#[trigger] data@[j]) by {
                if j >= pos {
                    assert(data@[j] == a@[j - pos]);
                }
            }
        }
        pos += 32;
        i += 1;
    }
    let tail = &data[pos..n];
    let offset = find_non_ascii_whitespace_fallback(tail);
    proof {
        assert forall|j: int| 0 <= j < pos + offset implies !is_ascii_whitespace(#[trigger] data@[j]) by {
            if j >= pos {
                assert(data@[j] == tail@[j - pos]);
            }
        }
        if offset < tail@.len() {
            assert(tail@[offset as int] == data@[pos + offset]);
        }
    }
    pos + offset
}

/// Removes the ASCII whitespace of `data` in place: the other bytes move to
/// the front, in order, and their number is returned. The bytes after them
/// keep their old values.
pub fn remove_ascii_whitespace_fallback(data: &mut [u8]) -> (r: usize)
    ensures
        r <= old(data)@.len(),
        final(data)@.len() == old(data)@.len(),
        final(data)@.subrange(0, r as int) == remove_whitespace(old(data)@),
        final(data)@.subrange(r as int, old(data)@.len() as int) == old(data)@.subrange(
            r as int,
            old(data)@.len() as int,
        ),
{
    let ghost d0 = data@;
    let n = data.len();
    let mut src: usize = 0;
    let mut dst: usize = 0;
    while src < n
        invariant
            n == d0.len(),
            data@.len() == n,
            dst <= src <= n,
            data@.subrange(0, dst as int) == remove_whitespace(d0.subrange(0, src as int)),
            data@.subrange(src as int, n as int) == d0.subrange(src as int, n as int),
            forall|j: int| dst <= j < src ==> #[trigger] data@[j] == d0[j],
        decreases n - src,
    {
        let byte = data[src];
        proof {
            assert(byte == d0[src as int]) by {
                assert(data@.subrange(src as int, n as int)[0] == d0.subrange(src as int, n as int)[0]);
            }
            assert(d0.subrange(0, src + 1).drop_last() =~= d0.subrange(0, src as int));
            assert(d0.subrange(0, src + 1).last() == byte);
        }
        if lookup_ascii_whitespace(byte) == 0 {
            let ghost before = data@;
            data[dst] = byte;
            proof {
                assert(data@.subrange(0, dst + 1) =~= before.subrange(0, dst as int).push(byte));
                assert(data@.subrange(src + 1, n as int) =~= before.subrange(src + 1, n as int));
                assert(before.subrange(src + 1, n as int) =~= d0.subrange(src + 1, n as int)) by {
                    assert forall|k: int| 0 <= k < n - src - 1 implies #[trigger] before.subrange(src + 1, n as int)[k]
                        == d0.subrange(src + 1, n as int)[k] by {
                        assert(before.subrange(src as int, n as int)[k + 1] == d0.subrange(src as int, n as int)[k
                            + 1]);
                    }
                }
            }
            dst += 1;
        } else {
            proof {
                assert(data@.subrange(src + 1, n as int) =~= d0.subrange(src + 1, n as int)) by {
                    assert forall|k: int| 0 <= k < n - src - 1 implies #[trigger] data@.subrange(src + 1, n as int)[k]
                        == d0.subrange(src + 1, n as int)[k] by {
                        assert(data@.subrange(src as int, n as int)[k + 1] == d0.subrange(src as int, n as int)[k
                            + 1]);
                    }
                }
                assert(data@[src as int] == d0[src as int]);
            }
        }
        src += 1;
    }
    proof {
        assert(d0.subrange(0, n as int) =~= d0);
        assert(data@.subrange(dst as int, n as int) =~= d0.subrange(dst as int, n as int));
    }
    dst
}

} // verus!
