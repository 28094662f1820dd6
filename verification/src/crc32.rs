//! CRC-32 checksums in the reflected (least significant bit first) form that
//! the CRC instructions of x86 and ARM compute.
use vstd::prelude::*;

use crate::bits::{lemma_u32_bits, lemma_u64_pack};
use crate::isa::{Fallback, InstructionSet};

verus! {

/// The generator polynomial of CRC-32 (IEEE 802.3), most significant bit
/// first.
pub const POLYNOMIAL_CRC32_IEEE: u32 = 0x04C11DB7;

/// The generator polynomial of CRC-32C (Castagnoli), most significant bit
/// first.
pub const POLYNOMIAL_CRC32C: u32 = 0x1EDC6F41;

/// The low `n` bits of `x` in reverse order: bit `i` moves to bit `n - 1 - i`.
pub open spec fn reflect_bits(x: u32, n: nat) -> u32
    decreases n,
{
    if n == 0 {
        0
    } else {
        (reflect_bits(x, (n - 1) as nat) << 1u32) | ((x >> ((n - 1) as u32)) & 1u32)
    }
}

/// One bit step of the reflected CRC register `c` with the reflected
/// polynomial `poly`.
pub open spec fn crc_shift(poly: u32, c: u32) -> u32 {
    if c & 1u32 == 1u32 {
        (c >> 1u32) ^ poly
    } else {
        c >> 1u32
    }
}

/// `n` bit steps of the register `c`.
pub open spec fn crc_shifts(poly: u32, c: u32, n: nat) -> u32
    decreases n,
{
    if n == 0 {
        c
    } else {
        crc_shift(poly, crc_shifts(poly, c, (n - 1) as nat))
    }
}

/// The register after feeding the byte `b` to the register `c`, for the
/// polynomial `p` (most significant bit first).
pub open spec fn crc_byte(p: u32, c: u32, b: u8) -> u32 {
    crc_shifts(reflect_bits(p, 32), c ^ (b as u32), 8)
}

/// The byte step of the polynomial `p` as a function.
pub open spec fn crc_step(p: u32) -> spec_fn(u32, u8) -> u32 {
    |c: u32, b: u8| crc_byte(p, c, b)
}

/// The register after feeding the bytes of `s`, first to last, to `c`.
pub open spec fn crc_bytes(p: u32, c: u32, s: Seq<u8>) -> u32 {
    s.fold_left(c, crc_step(p))
}

/// The CRC of `data` for the polynomial `p`, continuing from the CRC `init` of
/// what came before (zero at the start).
pub open spec fn crc32(p: u32, init: u32, data: Seq<u8>) -> u32 {
    !crc_bytes(p, !init, data)
}

/// The bytes of `v`, least significant first.
pub open spec fn le_bytes_u16(v: u16) -> Seq<u8> {
    seq![(v & 0xff) as u8, (v >> 8u16) as u8]
}

/// The bytes of `v`, least significant first.
pub open spec fn le_bytes_u32(v: u32) -> Seq<u8> {
    Seq::new(4, |k: int| ((v >> (8 * k) as u32) & 0xff) as u8)
}

/// The bytes of `v`, least significant first.
pub open spec fn le_bytes_u64(v: u64) -> Seq<u8> {
    Seq::new(8, |k: int| ((v >> (8 * k) as u64) & 0xff) as u8)
}

/// CRC instructions of an instruction set, for the polynomial `P` (most
/// significant bit first). Each feeds its value, least significant byte
/// first, to the register `crc`.
pub trait CRC32<const P: u32>: InstructionSet {
    /// Feeds one byte.
    fn crc32_u8(self, crc: u32, value: u8) -> (r: u32)
        ensures
            r == crc_byte(P, crc, value),
    ;

    /// Feeds two bytes.
    fn crc32_u16(self, crc: u32, value: u16) -> (r: u32)
        ensures
            r == crc_bytes(P, crc, le_bytes_u16(value)),
    ;

    /// Feeds four bytes.
    fn crc32_u32(self, crc: u32, value: u32) -> (r: u32)
        ensures
            r == crc_bytes(P, crc, le_bytes_u32(value)),
    ;

    /// Feeds eight bytes.
    fn crc32_u64(self, crc: u32, value: u64) -> (r: u32)
        ensures
            r == crc_bytes(P, crc, le_bytes_u64(value)),
    ;
}

/// `x` with its 32 bits in reverse order.
fn reflect32(x: u32) -> (r: u32)
    ensures
        r == reflect_bits(x, 32),
{
    let mut r: u32 = 0;
    let mut i: u32 = 0;
    while i < 32
        invariant
            i <= 32,
            r == reflect_bits(x, i as nat),
        decreases 32 - i,
    {
        r = (r << 1u32) | ((x >> i) & 1u32);
        i += 1;
    }
    r
}

/// The register `c` after one byte step: eight bit steps on `c ^ b`.
fn crc_byte_bitwise(poly: u32, c: u32, b: u8) -> (r: u32)
    ensures
        r == crc_shifts(poly, c ^ (b as u32), 8),
{
    let mut x = c ^ (b as u32);
    let mut k: u32 = 0;
    while k < 8
        invariant
            k <= 8,
            x == crc_shifts(poly, c ^ (b as u32), k as nat),
        decreases 8 - k,
    {
        x = if x & 1u32 == 1u32 {
            (x >> 1u32) ^ poly
        } else {
            x >> 1u32
        };
        k += 1;
    }
    x
}

/// Feeding the bytes of `s` one more byte `b` feeds `b` last.
proof fn lemma_crc_bytes_push(p: u32, c: u32, s: Seq<u8>, b: u8)
    ensures
        crc_bytes(p, c, s.push(b)) == crc_byte(p, crc_bytes(p, c, s), b),
{
    assert(s.push(b).drop_last() =~= s);
}

/// Feeds the `n` low bytes of `value`, least significant first.
fn crc_fold_le<const P: u32>(s: Fallback, crc: u32, value: u64, n: u32) -> (r: u32)
    requires
        n <= 8,
    ensures
        r == crc_bytes(P, crc, le_bytes_u64(value).take(n as int)),
{
    let mut c = crc;
    let mut k: u32 = 0;
    while k < n
        invariant
            k <= n <= 8,
            c == crc_bytes(P, crc, le_bytes_u64(value).take(k as int)),
        decreases n - k,
    {
        let b = ((value >> (8 * k) as u64) & 0xff) as u8;
        proof {
            assert(le_bytes_u64(value).take(k + 1) =~= le_bytes_u64(value).take(k as int).push(b));
            lemma_crc_bytes_push(P, crc, le_bytes_u64(value).take(k as int), b);
        }
        c = <Fallback as CRC32<P>>::crc32_u8(s, c, b);
        k += 1;
    }
    c
}

/// Feeds the 4 bytes of `value`, least significant first.
fn crc_fold_u32<const P: u32>(s: Fallback, crc: u32, value: u32) -> (r: u32)
    ensures
        r == crc_bytes(P, crc, le_bytes_u32(value)),
{
    let mut c = crc;
    let mut k: u32 = 0;
    while k < 4
        invariant
            k <= 4,
            c == crc_bytes(P, crc, le_bytes_u32(value).take(k as int)),
        decreases 4 - k,
    {
        let b = ((value >> (8 * k)) & 0xff) as u8;
        proof {
            assert(le_bytes_u32(value).take(k + 1) =~= le_bytes_u32(value).take(k as int).push(b));
            lemma_crc_bytes_push(P, crc, le_bytes_u32(value).take(k as int), b);
        }
        c = <Fallback as CRC32<P>>::crc32_u8(s, c, b);
        k += 1;
    }
    assert(le_bytes_u32(value).take(4) =~= le_bytes_u32(value));
    c
}

/// The bit-by-bit software CRC, for any polynomial.
impl<const P: u32> CRC32<P> for Fallback {
    fn crc32_u8(self, crc: u32, value: u8) -> (r: u32) {
        let poly = reflect32(P);
        crc_byte_bitwise(poly, crc, value)
    }

    fn crc32_u16(self, crc: u32, value: u16) -> (r: u32) {
        let b0 = (value & 0xff) as u8;
        let b1 = (value >> 8u16) as u8;
        let c0 = <Fallback as CRC32<P>>::crc32_u8(self, crc, b0);
        let c1 = <Fallback as CRC32<P>>::crc32_u8(self, c0, b1);
        proof {
            let e = Seq::<u8>::empty();
            lemma_crc_bytes_push(P, crc, e, b0);
            lemma_crc_bytes_push(P, crc, e.push(b0), b1);
            assert(e.push(b0).push(b1) =~= le_bytes_u16(value));
        }
        c1
    }

    fn crc32_u32(self, crc: u32, value: u32) -> (r: u32) {
        crc_fold_u32::<P>(self, crc, value)
    }

    fn crc32_u64(self, crc: u32, value: u64) -> (r: u32) {
        assert(le_bytes_u64(value).take(8) =~= le_bytes_u64(value));
        crc_fold_le::<P>(self, crc, value, 8)
    }
}

/// The 64-bit value whose bytes, least significant first, are
/// `data[pos..pos + 8]`.
fn read_u64_le(data: &[u8], pos: usize) -> (r: u64)
    requires
        pos + 8 <= data@.len(),
    ensures
        le_bytes_u64(r) == data@.subrange(pos as int, pos + 8),
{
    let b0 = data[pos];
    let b1 = data[pos + 1];
    let b2 = data[pos + 2];
    let b3 = data[pos + 3];
    let b4 = data[pos + 4];
    let b5 = data[pos + 5];
    let b6 = data[pos + 6];
    let b7 = data[pos + 7];
    let v = (b0 as u64) | ((b1 as u64) << 8u64) | ((b2 as u64) << 16u64) | ((b3 as u64) << 24u64) | ((
    b4 as u64) << 32u64) | ((b5 as u64) << 40u64) | ((b6 as u64) << 48u64) | ((b7 as u64) << 56u64);
    proof {
        lemma_u64_pack(v, b0, b1, b2, b3, b4, b5, b6, b7);
    }
    assert(le_bytes_u64(v) =~= data@.subrange(pos as int, pos + 8));
    v
}

/// Folds `f` over the items of `slice`, first to last, from `init`; `g` says
/// what each call of `f` returns.
fn fold_copied<T: Copy, B>(slice: &[T], init: B, f: impl Fn(B, T) -> B, Ghost(g): Ghost<spec_fn(B, T) -> B>) -> (r:
    B)
    requires
        forall|b: B, t: T| #[trigger] f.requires((b, t)),
        forall|b: B, t: T, r: B| f.ensures((b, t), r) ==> r == g(b, t),
    ensures
        r == slice@.fold_left(init, g),
{
    let mut acc = init;
    let mut i: usize = 0;
    while i < slice.len()
        invariant
            i <= slice@.len(),
            forall|b: B, t: T| #[trigger] f.requires((b, t)),
            forall|b: B, t: T, r: B| f.ensures((b, t), r) ==> r == g(b, t),
            acc == slice@.take(i as int).fold_left(init, g),
        decreases slice@.len() - i,
    {
        let x = slice[i];
        proof {
            assert(slice@.take(i + 1).drop_last() =~= slice@.take(i as int));
        }
        acc = f(acc, x);
        i += 1;
    }
    assert(slice@.take(i as int) =~= slice@);
    acc
}

/// Feeding `a` then `b` feeds `a + b`.
proof fn lemma_crc_bytes_concat(p: u32, c: u32, a: Seq<u8>, b: Seq<u8>)
    ensures
        crc_bytes(p, crc_bytes(p, c, a), b) == crc_bytes(p, c, a + b),
{
    let s = a + b;
    s.lemma_fold_left_split(c, crc_step(p), a.len() as int);
    assert(s.subrange(0, a.len() as int) =~= a);
    assert(s.subrange(a.len() as int, s.len() as int) =~= b);
}

/// The CRC of `data` for the polynomial `P`, continuing from the CRC `init`
/// of what came before (zero at the start). Eight bytes are fed at a time
/// while they last, then single bytes.
pub fn compute<S, const P: u32>(s: S, init: u32, data: &[u8]) -> (r: u32)
    where
        S: CRC32<P>,
    ensures
        r == crc32(P, init, data@),
{
    let mut crc = !init;
    let n = data.len();
    let words = n / 8;
    let mut i: usize = 0;
    while i < words
        invariant
            n == data@.len(),
            words == n / 8,
            i <= words,
            crc == crc_bytes(P, !init, data@.subrange(0, 8 * i)),
        decreases words - i,
    {
        let v = read_u64_le(data, 8 * i);
        let ghost before = crc;
        crc = s.crc32_u64(crc, v);
        proof {
            lemma_crc_bytes_concat(P, !init, data@.subrange(0, 8 * i), le_bytes_u64(v));
            assert(data@.subrange(0, 8 * i) + le_bytes_u64(v) =~= data@.subrange(0, 8 * (i + 1)));
        }
        i += 1;
    }
    let tail = &data[8 * words..n];
    let step = |c: u32, x: u8| -> (r: u32)
        ensures
            r == crc_byte(P, c, x),
        { s.crc32_u8(c, x) };
    crc = fold_copied(tail, crc, step, Ghost(crc_step(P)));
    proof {
        lemma_crc_bytes_concat(P, !init, data@.subrange(0, 8 * words), tail@);
        assert(data@.subrange(0, 8 * words) + tail@ =~= data@);
    }
    !crc
}

/// Checksums continue: the CRC of `a` followed by `b` is the CRC of `b`
/// started from the CRC of `a`.
pub proof fn lemma_crc32_concat(p: u32, init: u32, a: Seq<u8>, b: Seq<u8>)
    ensures
        crc32(p, crc32(p, init, a), b) == crc32(p, init, a + b),
{
    let c = crc_bytes(p, !init, a);
    lemma_u32_bits(c, 0, 0, 0, 0);
    lemma_crc_bytes_concat(p, !init, a, b);
}

} // verus!
