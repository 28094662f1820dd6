//! Base32 building blocks on 256-bit vectors: symbols to 5-bit values, and
//! 5-bit values packed into bytes.
use vstd::arithmetic::div_mod::lemma_div_denominator;
use vstd::arithmetic::power2::{lemma2_to64, lemma2_to64_rest, pow2};
use vstd::prelude::*;

use crate::bits::{
    lemma_andnot_bits, lemma_bit4_only, lemma_letter_ors, lemma_byte_bits, lemma_low5, lemma_or_5bit, lemma_shift5_or, lemma_u64_low5, lemma_u64_low_byte, lemma_pack5, lemma_split5_v0, lemma_split5_v1, lemma_split5_v2,
    lemma_bytes5_of_value, lemma_split5_join, lemma_split5_v3, lemma_split5_v4, lemma_split5_v5, lemma_split5_v6, lemma_split5_v7,
};
use crate::isa::{SIMD256, SIMD256Ext};
use crate::scalar::Bytes32;
use crate::vector::{
    lane, lane16, lanes1, lemma_digits, lanes2, lemma_bytes2, lemma_lanes1_16, lemma_splat_bytes, op1, op2, splat, swizzled, Op1,
    Op2, V256,
};

verus! {

/// `256^n`.
pub open spec fn pow256(n: nat) -> nat
    decreases n,
{
    if n == 0 {
        1
    } else {
        256 * pow256((n - 1) as nat)
    }
}

/// The number that the bytes `s` spell, most significant first.
pub open spec fn be_value(s: Seq<u8>) -> nat
    decreases s.len(),
{
    if s.len() == 0 {
        0
    } else {
        be_value(s.drop_last()) * 256 + s.last() as nat
    }
}

/// The `n` bytes of `x` modulo `256^n`, most significant first.
pub open spec fn be_bytes(x: nat, n: nat) -> Seq<u8> {
    Seq::new(n, |i: int| ((x / pow256((n - 1 - i) as nat)) % 256) as u8)
}

/// The symbol index `i` of `x` spread over `n` five-bit digits, most
/// significant first. The first index keeps every bit above the others.
pub open spec fn symbol_index(x: nat, n: nat, i: int) -> nat {
    if i == 0 {
        x / pow2((5 * (n - 1)) as nat)
    } else {
        (x / pow2((5 * (n - 1 - i)) as nat)) % 32
    }
}

/// The `n` symbols of `x` in `charset`, most significant first.
pub open spec fn encoded(x: nat, n: nat, charset: Seq<u8>) -> Seq<u8> {
    Seq::new(n, |i: int| charset[symbol_index(x, n, i) as int])
}

/// The values that `table` gives the first `n` bytes of `src`.
pub open spec fn symbol_values(src: Seq<u8>, table: Seq<u8>, n: int) -> Seq<u8> {
    Seq::new(n as nat, |i: int| table[src[i] as int])
}

/// The number that the 5-bit values `s` spell, most significant first.
pub open spec fn radix32(s: Seq<u8>) -> nat
    decreases s.len(),
{
    if s.len() == 0 {
        0
    } else {
        radix32(s.drop_last()) * 32 + s.last() as nat
    }
}

/// The values `s` accumulated five bits apart, most significant first: each
/// step shifts the total left by five bits, dropping what leaves 64 bits, and
/// ORs in the next value, all eight of its bits.
pub open spec fn fold5(s: Seq<u8>) -> u64
    decreases s.len(),
{
    if s.len() == 0 {
        0
    } else {
        (fold5(s.drop_last()) << 5u64) | (s.last() as u64)
    }
}

/// The bitwise OR of the bytes `s`.
pub open spec fn or_all(s: Seq<u8>) -> u8
    decreases s.len(),
{
    if s.len() == 0 {
        0
    } else {
        or_all(s.drop_last()) | s.last()
    }
}

/// The powers of 256 up to the fifth.
proof fn lemma_pow256_small()
    ensures
        pow256(0) == 1,
        pow256(1) == 0x100,
        pow256(2) == 0x1_0000,
        pow256(3) == 0x100_0000,
        pow256(4) == 0x1_0000_0000,
        pow256(5) == 0x100_0000_0000,
{
    reveal_with_fuel(pow256, 6);
}

/// The powers of 256 that the byte helpers use are `2^(8n)`.
proof fn lemma_pow256_pow2(n: nat)
    requires
        n <= 4,
    ensures
        pow256(n) == pow2(8 * n),
        pow256(n) <= 0x1_0000_0000,
{
    lemma_pow256_small();
    lemma2_to64();
}

/// Writes the `N` symbols of `x` (most significant first, five bits each)
/// from `charset` to the front of `dst`: see [`encoded`].
pub fn encode_bits<const N: usize>(dst: &mut [u8], charset: &[u8], x: u64)
    requires
        N == 2 || N == 4 || N == 5 || N == 7 || N == 8,
        N <= old(dst).len(),
        32 <= charset.len(),
        x as nat / pow2((5 * (N - 1)) as nat) < charset.len(),
    ensures
        final(dst)@ == encoded(x as nat, N as nat, charset@) + old(dst)@.skip(N as int),
{
    let ghost d0 = dst@;
    proof {
        lemma2_to64();
    }
    let shift: u64 = ((N - 1) * 5) as u64;
    proof {
        vstd::bits::lemma_u64_shr_is_div(x, shift);
    }
    dst[0] = charset[(x >> shift) as usize];
    let mut i: usize = 1;
    while i < N
        invariant
            1 <= i <= N <= 8,
            N <= d0.len(),
            32 <= charset.len(),
            dst@.len() == d0.len(),
            forall|j: int| 0 <= j < i ==> #[trigger] dst@[j] == encoded(x as nat, N as nat, charset@)[j],
            forall|j: int| N <= j < d0.len() ==> #[trigger] dst@[j] == d0[j],
        decreases N - i,
    {
        let shift: u64 = ((N - 1 - i) * 5) as u64;
        let y = x >> shift;
        proof {
            vstd::bits::lemma_u64_shr_is_div(x, shift);
            lemma_u64_low5(y);
        }
        dst[i] = charset[(y & 0x1f) as usize];
        i += 1;
    }
    assert(dst@ =~= encoded(x as nat, N as nat, charset@) + d0.skip(N as int));
}

/// Reads the first `N` bytes of `src` through `table` and accumulates their
/// values five bits apart; also returns the OR of the values. With a table
/// that marks bytes outside the alphabet by values of 32 and above, the OR is
/// below 32 exactly when every byte is a symbol, and then the first result is
/// the number that the symbols spell.
pub fn decode_bits<const N: usize>(src: &[u8], table: &[u8]) -> (r: (u64, u8))
    requires
        N == 2 || N == 4 || N == 5 || N == 7 || N == 8,
        N <= src.len(),
        forall|i: int| 0 <= i < N ==> #[trigger] src@[i] < table.len(),
    ensures
        r.0 == fold5(symbol_values(src@, table@, N as int)),
        r.1 == or_all(symbol_values(src@, table@, N as int)),
        r.1 < 32 <==> forall|i: int| 0 <= i < N ==> #[trigger] symbol_values(src@, table@, N as int)[i] < 32,
        r.1 < 32 ==> r.0 == radix32(symbol_values(src@, table@, N as int)),
{
    let mut ans: u64 = 0;
    let mut flag: u8 = 0;
    let mut i: usize = 0;
    while i < N
        invariant
            i <= N <= 8,
            N <= src.len(),
            forall|j: int| 0 <= j < N ==> #[trigger] src@[j] < table.len(),
            ans == fold5(symbol_values(src@, table@, i as int)),
            flag == or_all(symbol_values(src@, table@, i as int)),
        decreases N - i,
    {
        let bits = table[src[i] as usize];
        proof {
            assert(symbol_values(src@, table@, i + 1).drop_last() =~= symbol_values(src@, table@, i as int));
        }
        flag |= bits;
        ans = (ans << 5) | (bits as u64);
        i += 1;
    }
    proof {
        let vals = symbol_values(src@, table@, N as int);
        lemma_or_all_5bit(vals);
        if flag < 32 {
            lemma_fold5_radix32(vals);
        }
    }
    (ans, flag)
}

/// The OR of bytes is below 32 exactly when each byte is.
proof fn lemma_or_all_5bit(s: Seq<u8>)
    ensures
        or_all(s) < 32 <==> forall|i: int| 0 <= i < s.len() ==> #[trigger] s[i] < 32,
    decreases s.len(),
{
    if s.len() > 0 {
        lemma_or_all_5bit(s.drop_last());
        lemma_or_5bit(or_all(s.drop_last()), s.last());
        if or_all(s) < 32 {
            assert forall|i: int| 0 <= i < s.len() implies #[trigger] s[i] < 32 by {
                if i < s.len() - 1 {
                    assert(s.drop_last()[i] == s[i]);
                }
            }
        } else {
            if forall|i: int| 0 <= i < s.len() ==> #[trigger] s[i] < 32 {
                assert forall|i: int| 0 <= i < s.len() - 1 implies #[trigger] s.drop_last()[i] < 32 by {
                    assert(s[i] < 32);
                }
            }
        }
    }
}

/// On 5-bit values, up to eleven of them, the accumulation is the number
/// that they spell, below `32^len`.
proof fn lemma_fold5_radix32(s: Seq<u8>)
    requires
        s.len() <= 11,
        forall|i: int| 0 <= i < s.len() ==> #[trigger] s[i] < 32,
    ensures
        fold5(s) == radix32(s),
        radix32(s) < pow2((5 * s.len()) as nat),
    decreases s.len(),
{
    lemma2_to64();
    if s.len() > 0 {
        let p = s.drop_last();
        assert forall|i: int| 0 <= i < p.len() implies #[trigger] p[i] < 32 by {
            assert(s[i] < 32);
        }
        lemma_fold5_radix32(p);
        assert(s.last() < 32) by {
            assert(s[s.len() - 1] < 32);
        }
        vstd::arithmetic::power2::lemma_pow2_adds((5 * p.len()) as nat, 5);
        vstd::arithmetic::power2::lemma_pow2_strictly_increases((5 * p.len()) as nat, 55);
        assert(pow2(55) == 0x80_0000_0000_0000) by {
            lemma2_to64_rest();
        }
        lemma_shift5_or(fold5(p), s.last());
    }
}

/// The 5-bit digits of `x` are its symbol indices: below 32, and they spell
/// `x`, when `x` is below `2^(5n)`.
proof fn lemma_digits32(x: nat, n: nat)
    requires
        1 <= n,
        x < pow2(5 * n),
    ensures
        forall|i: int| 0 <= i < n ==> #[trigger] symbol_index(x, n, i) < 32,
        radix32(Seq::new(n, |i: int| symbol_index(x, n, i) as u8)) == x,
    decreases n,
{
    let d = Seq::new(n, |i: int| symbol_index(x, n, i) as u8);
    lemma2_to64();
    vstd::arithmetic::power2::lemma_pow2_adds((5 * (n - 1)) as nat, 5);
    assert(pow2(5 * n) == pow2((5 * (n - 1)) as nat) * 32) by {
        assert((5 * (n - 1)) as nat + 5 == 5 * n);
    }
    vstd::arithmetic::power2::lemma_pow2_pos((5 * (n - 1)) as nat);
    // the first index is below 32
    vstd::arithmetic::div_mod::lemma_multiply_divide_lt(x as int, pow2((5 * (n - 1)) as nat) as int, 32);
    assert forall|i: int| 0 <= i < n implies #[trigger] symbol_index(x, n, i) < 32 by {}
    assert(radix32(d) == radix32(d.drop_last()) * 32 + d.last());
    if n == 1 {
        assert(d.drop_last() =~= Seq::<u8>::empty());
        assert(x / pow2(0) == x);
        assert(d.last() == d[0]);
    } else {
        let m = (n - 1) as nat;
        let y = x / 32;
        vstd::arithmetic::div_mod::lemma_multiply_divide_lt(x as int, 32, pow2(5 * m) as int);
        assert(pow2(5 * m) * 32 == pow2(5 * n));
        lemma_digits32(y, m);
        assert forall|i: int| 0 <= i < m implies #[trigger] d.drop_last()[i] == symbol_index(y, m, i) as u8 by {
            let e = (5 * (m - 1 - i)) as nat;
            vstd::arithmetic::power2::lemma_pow2_adds(5, e);
            assert((5 * (n - 1 - i)) as nat == 5 + e);
            vstd::arithmetic::power2::lemma_pow2_pos(e);
            vstd::arithmetic::div_mod::lemma_div_denominator(x as int, 32, pow2(e) as int);
        }
        assert(d.drop_last() =~= Seq::new(m, |i: int| symbol_index(y, m, i) as u8));
        assert(d.last() == x % 32) by {
            assert(d.last() == d[n - 1]);
            assert((5 * (n - 1 - (n - 1))) as nat == 0);
        }
        vstd::arithmetic::div_mod::lemma_fundamental_div_mod(x as int, 32);
    }
    assert(radix32(d) == x);
}

/// Decoding the symbols that encoding writes gives the number back: with a
/// table that maps each of the first 32 symbols of `charset` back to its
/// position, the values read from the `n` symbols of `x` are all below 32
/// and spell `x`, for every `x` below `2^(5n)`.
pub proof fn lemma_decode_encoded(x: nat, n: nat, charset: Seq<u8>, table: Seq<u8>)
    requires
        1 <= n,
        x < pow2(5 * n),
        32 <= charset.len(),
        forall|i: int| 0 <= i < 32 ==> (#[trigger] charset[i]) < table.len() && table[charset[i] as int] == i,
    ensures
        forall|i: int| 0 <= i < n ==> #[trigger] encoded(x, n, charset)[i] < table.len(),
        forall|i: int| 0 <= i < n ==> #[trigger] symbol_values(encoded(x, n, charset), table, n as int)[i] < 32,
        radix32(symbol_values(encoded(x, n, charset), table, n as int)) == x,
{
    lemma_digits32(x, n);
    let e = encoded(x, n, charset);
    let v = symbol_values(e, table, n as int);
    assert forall|i: int| 0 <= i < n implies #[trigger] e[i] < table.len() && v[i] == symbol_index(x, n, i) by {
        assert(symbol_index(x, n, i) < 32);
        assert(e[i] == charset[symbol_index(x, n, i) as int]);
    }
    assert(v =~= Seq::new(n, |i: int| symbol_index(x, n, i) as u8));
}

/// Reads the first `N` bytes of `src` as a number, most significant first.
/// Exactly those `N` bytes are read, one at a time, on every target; for
/// `N == 5` no byte beyond `src[..5]` is read or enters the result.
pub fn read_be_bytes<const N: usize>(src: &[u8]) -> (r: u64)
    requires
        1 <= N <= 5,
        N <= src.len(),
    ensures
        r == be_value(src@.take(N as int)),
{
    let mut ans: u64 = 0;
    let mut i: usize = 0;
    proof {
        lemma_pow256_small();
        assert(src@.take(0) =~= Seq::<u8>::empty());
    }
    while i < N
        invariant
            i <= N <= 5,
            N <= src.len(),
            ans == be_value(src@.take(i as int)),
            ans < pow256(i as nat),
        decreases N - i,
    {
        proof {
            assert(src@.take(i + 1).drop_last() =~= src@.take(i as int));
            lemma_pow256_pow2(i as nat);
            assert(pow256((i + 1) as nat) == 256 * pow256(i as nat));
        }
        ans = ans * 256 + src[i] as u64;
        i += 1;
    }
    ans
}

/// Writes the low `N` bytes of `x` to the front of `dst`, most significant
/// first: see [`be_bytes`].
pub fn write_be_bytes<const N: usize>(dst: &mut [u8], x: u64)
    requires
        1 <= N <= 5,
        N <= old(dst).len(),
    ensures
        final(dst)@ == be_bytes(x as nat, N as nat) + old(dst)@.skip(N as int),
{
    let ghost d0 = dst@;
    let mut i: usize = 0;
    while i < N
        invariant
            i <= N <= 5,
            N <= d0.len(),
            dst@.len() == d0.len(),
            forall|j: int| 0 <= j < i ==> #[trigger] dst@[j] == be_bytes(x as nat, N as nat)[j],
            forall|j: int| N <= j < d0.len() ==> #[trigger] dst@[j] == d0[j],
        decreases N - i,
    {
        let shift: u64 = ((N - 1 - i) * 8) as u64;
        let y = x >> shift;
        proof {
            vstd::bits::lemma_u64_shr_is_div(x, shift);
            lemma_pow256_pow2((N - 1 - i) as nat);
            lemma_u64_low_byte(y);
        }
        dst[i] = y as u8;
        i += 1;
    }
    assert(dst@ =~= be_bytes(x as nat, N as nat) + d0.skip(N as int));
}

/// Writing `n` bytes of a number and reading them back gives the number
/// modulo `256^n`.
pub proof fn lemma_be_bytes_value(x: nat, n: nat)
    ensures
        be_value(be_bytes(x, n)) == x % pow256(n),
    decreases n,
{
    if n == 0 {
        assert(be_bytes(x, 0) =~= Seq::<u8>::empty());
    } else {
        let m = (n - 1) as nat;
        lemma_be_bytes_value(x / 256, m);
        assert forall|i: int| 0 <= i < m implies #[trigger] be_bytes(x, n).drop_last()[i] == be_bytes(x / 256, m)[i] by {
            lemma_pow256_positive((m - 1 - i) as nat);
            vstd::arithmetic::div_mod::lemma_div_denominator(x as int, 256, pow256((m - 1 - i) as nat) as int);
        }
        assert(be_bytes(x, n).drop_last() =~= be_bytes(x / 256, m));
        assert(be_bytes(x, n).last() == x % 256) by {
            assert(pow256(0) == 1) by {
                reveal_with_fuel(pow256, 1);
            }
            assert(be_bytes(x, n).last() == be_bytes(x, n)[n - 1]);
            assert(x / pow256(0) == x);
        }
        lemma_pow256_positive(m);
        vstd::arithmetic::div_mod::lemma_mod_breakdown(x as int, 256, pow256(m) as int);
    }
}

/// Powers of 256 are positive.
proof fn lemma_pow256_positive(n: nat)
    ensures
        pow256(n) > 0,
    decreases n,
{
    if n > 0 {
        lemma_pow256_positive((n - 1) as nat);
    }
}

/// The 40-bit number that the eight 5-bit values `x[base..base + 8]` spell,
/// most significant first.
pub open spec fn group_value(x: Seq<u8>, base: int) -> int {
    x[base] * 0x8_0000_0000 + x[base + 1] * 0x4000_0000 + x[base + 2] * 0x200_0000 + x[base + 3] * 0x10_0000
        + x[base + 4] * 0x8000 + x[base + 5] * 0x400 + x[base + 6] * 0x20 + x[base + 7]
}

/// Byte `t` (0 to 4, most significant first) of the 40-bit number `v`.
pub open spec fn byte_of_40(v: int, t: int) -> u8 {
    (if t == 0 {
        (v / 0x100_0000 / 0x100) % 256
    } else if t == 1 {
        (v / 0x100_0000) % 256
    } else if t == 2 {
        (v / 0x1_0000) % 256
    } else if t == 3 {
        (v / 0x100) % 256
    } else {
        v % 256
    }) as u8
}

/// Each 16-byte half of `x` holds sixteen 5-bit values; the matching half of
/// the result holds the 10 bytes that they spell, most significant first,
/// eight values to five bytes, followed by six zero bytes.
pub open spec fn merged(x: Seq<u8>) -> Seq<u8> {
    Seq::new(
        32,
        |i: int|
            {
                let h = i / 16;
                let p = i % 16;
                if p < 10 {
                    byte_of_40(group_value(x, 16 * h + 8 * (p / 5)), p % 5)
                } else {
                    0u8
                }
            },
    )
}

/// Every byte of `x` is below 32.
pub open spec fn all_5bit(x: Seq<u8>) -> bool {
    forall|i: int| 0 <= i < x.len() ==> #[trigger] x[i] < 32
}

/// Byte `t` (0 to 4) that the packing computes for the eight bytes at
/// `x[o..o + 8]`: the bytes at even places count by their low five bits, those
/// at odd places by all eight, and the shifted values are ORed together. On
/// 5-bit values these are the bytes of [`group_value`] (see [`merged`]).
pub open spec fn merge_byte(x: Seq<u8>, o: int, t: int) -> u8 {
    let e0 = x[o] % 32;
    let b1 = x[o + 1];
    let e2 = x[o + 2] % 32;
    let b3 = x[o + 3];
    let e4 = x[o + 4] % 32;
    let b5 = x[o + 5];
    let e6 = x[o + 6] % 32;
    let b7 = x[o + 7];
    if t == 0 {
        ((8 * e0) as u8) | (((64 * b1) / 256) as u8)
    } else if t == 1 {
        (((2 * e2) as u8) | (((64 * b1) % 256) as u8)) | (((16 * b3) / 256) as u8)
    } else if t == 2 {
        (((128 * e4) / 256) as u8) | (((16 * b3) % 256) as u8)
    } else if t == 3 {
        ((((32 * e6) / 256) as u8) | (((4 * b5) % 256) as u8)) | (((128 * e4) % 256) as u8)
    } else {
        (((32 * e6) % 256) as u8) | b7
    }
}

/// What the packing computes for any bytes: in each 16-byte half of `x`, two
/// groups of eight bytes give five bytes each (see [`merge_byte`]), followed
/// by six zero bytes.
pub open spec fn merged_bits(x: Seq<u8>) -> Seq<u8> {
    Seq::new(
        32,
        |i: int|
            {
                let h = i / 16;
                let p = i % 16;
                if p < 10 {
                    merge_byte(x, 16 * h + 8 * (p / 5), p % 5)
                } else {
                    0u8
                }
            },
    )
}

/// On eight 5-bit values, the bytes of the packing are those of the number
/// they spell.
proof fn lemma_merge_byte_5bit(x: Seq<u8>, o: int)
    requires
        0 <= o,
        o + 8 <= x.len(),
        forall|k: int| o <= k < o + 8 ==> #[trigger] x[k] < 32,
    ensures
        forall|t: int| 0 <= t < 5 ==> #[trigger] merge_byte(x, o, t) == byte_of_40(group_value(x, o), t),
{
    let (b0, b1, b2, b3, b4, b5, b6, b7) = (x[o], x[o + 1], x[o + 2], x[o + 3], x[o + 4], x[o + 5], x[o + 6], x[o
        + 7]);
    assert(b0 < 32 && b1 < 32 && b2 < 32 && b3 < 32 && b4 < 32 && b5 < 32 && b6 < 32 && b7 < 32);
    assert(b0 % 32 == b0 && b2 % 32 == b2 && b4 % 32 == b4 && b6 % 32 == b6);
    lemma_pack5(b0, b1, b2, b3, b4, b5, b6, b7);
    lemma_byte_bits(((16 * b3) / 256) as u8, 0);
    lemma_byte_bits(((128 * b4) % 256) as u8, 0);
    assert((4 * b5) % 256 == 4 * b5);
}

/// On 5-bit values the packing is [`merged`].
pub proof fn lemma_merged_bits_5bit(x: Seq<u8>)
    requires
        x.len() == 32,
        all_5bit(x),
    ensures
        merged_bits(x) == merged(x),
{
    lemma_merge_byte_5bit(x, 0);
    lemma_merge_byte_5bit(x, 8);
    lemma_merge_byte_5bit(x, 16);
    lemma_merge_byte_5bit(x, 24);
    assert forall|i: int| 0 <= i < 32 implies #[trigger] merged_bits(x)[i] == merged(x)[i] by {
        let p = i % 16;
        if p < 10 {
            let o = 16 * (i / 16) + 8 * (p / 5);
            assert(o == 0 || o == 8 || o == 16 || o == 24);
            assert(merge_byte(x, o, p % 5) == byte_of_40(group_value(x, o), p % 5));
        }
    }
    assert(merged_bits(x) =~= merged(x));
}

/// The 16-bit digit `j` (0 to 3, lowest first) of `d0` to `d3`.
spec fn digit4(j: int, d0: int, d1: int, d2: int, d3: int) -> int {
    if j == 0 {
        d0
    } else if j == 1 {
        d1
    } else if j == 2 {
        d2
    } else {
        d3
    }
}

/// The 16-bit lanes of a splat of `m`, which holds the 16-bit digits `d0`
/// (lowest) to `d3`.
proof fn lemma_splat64_lanes(c: Seq<u8>, m: int, d0: int, d1: int, d2: int, d3: int)
    requires
        c.len() == 32,
        splat(8, m, c),
        m == d0 + 0x1_0000 * (d1 + 0x1_0000 * (d2 + 0x1_0000 * d3)),
        0 <= d0 < 0x1_0000,
        0 <= d1 < 0x1_0000,
        0 <= d2 < 0x1_0000,
        0 <= d3 < 0x1_0000,
    ensures
        forall|k: int| 0 <= k < 16 ==> #[trigger] lane16(c, k) == digit4(k % 4, d0, d1, d2, d3),
{
    reveal(lane);
    assert forall|k: int| 0 <= k < 16 implies #[trigger] lane16(c, k) == digit4(k % 4, d0, d1, d2, d3) by {
        let q = k / 4;
        assert(lane(8, c, q) == m);
        let (l0, l1, l2, l3) = (lane16(c, 4 * q), lane16(c, 4 * q + 1), lane16(c, 4 * q + 2), lane16(c, 4 * q + 3));
        assert(0 <= l0 < 0x1_0000 && 0 <= l1 < 0x1_0000 && 0 <= l2 < 0x1_0000 && 0 <= l3 < 0x1_0000);
        assert(l0 + 0x1_0000 * (l1 + 0x1_0000 * (l2 + 0x1_0000 * l3)) == m);
        lemma_digits(l0, l1 + 0x1_0000 * (l2 + 0x1_0000 * l3), d0, d1 + 0x1_0000 * (d2 + 0x1_0000 * d3), 0x1_0000);
        lemma_digits(l1, l2 + 0x1_0000 * l3, d1, d2 + 0x1_0000 * d3, 0x1_0000);
        lemma_digits(l2, l3, d2, d3, 0x1_0000);
        assert(k == 4 * q + k % 4);
    }
}

/// Packs the 5-bit values in each half of `x` into bytes: see [`merged`];
/// on any bytes the result is [`merged_bits`].
pub fn merge_bits_u8x32<S: SIMD256>(s: S, x: V256) -> (r: V256)
    ensures
        r@ == merged_bits(x@),
        all_5bit(x@) ==> r@ == merged(x@),
{
    let t1 = Bytes32::double(
        [
            0x00, 0x02, 0x05, 0x07, 0x06, 0x80, 0x80, 0x04, //
            0x08, 0x0A, 0x0D, 0x0F, 0x0E, 0x80, 0x80, 0x0C, //
        ],
    );
    let t2 = Bytes32::double(
        [
            0x01, 0x00, 0x02, 0x04, 0x06, 0x03, 0x80, 0x80, //
            0x09, 0x08, 0x0A, 0x0C, 0x0E, 0x0B, 0x80, 0x80, //
        ],
    );
    let t3 = Bytes32::double(
        [
            0x00, 0x01, 0x02, 0x03, 0x04, //
            0x08, 0x09, 0x0A, 0x0B, 0x0C, //
            0x80, 0x80, 0x80, 0x80, 0x80, 0x80, //
        ],
    );
    let t4 = Bytes32::double(
        [
            0x80, 0x05, 0x80, 0x07, 0x80, //
            0x80, 0x0D, 0x80, 0x0F, 0x80, //
            0x80, 0x80, 0x80, 0x80, 0x80, 0x80, //
        ],
    );
    let m1 = s.u16x16_splat(0x001f);
    let x1 = s.v256_and(x, m1);
    let c2 = s.u64x4_splat(0x0020_0080_0002_0008);
    let x2 = s.i16x16_mul_lo(x1, c2);
    let x3 = s.u16x16_shr::<8>(x);
    let c3 = s.u64x4_splat(0x0001_0004_0010_0040);
    let x4 = s.i16x16_mul_lo(x3, c3);
    let s1 = s.v256_load(&t1);
    let x5 = s.u8x16x2_swizzle(x2, s1);
    let s2 = s.v256_load(&t2);
    let x6 = s.u8x16x2_swizzle(x4, s2);
    let x7 = s.v256_or(x5, x6);
    let s3 = s.v256_load(&t3);
    let x8 = s.u8x16x2_swizzle(x7, s3);
    let s4 = s.v256_load(&t4);
    let x9 = s.u8x16x2_swizzle(x7, s4);
    let r = s.v256_or(x8, x9);
    proof {
        assert(t1.0@ =~= merge_t1() + merge_t1());
        assert(t2.0@ =~= merge_t2() + merge_t2());
        assert(t3.0@ =~= merge_t3() + merge_t3());
        assert(t4.0@ =~= merge_t4() + merge_t4());
        lemma_merge(x@, m1@, x1@, c2@, x2@, x3@, c3@, x4@, s1@, x5@, s2@, x6@, x7@, s3@, x8@, s4@, x9@, r@);
        if all_5bit(x@) {
            lemma_merged_bits_5bit(x@);
        }
    }
    r
}

/// The steps of the packing, from the input to the result.
proof fn lemma_merge(
    x: Seq<u8>,
    m1: Seq<u8>,
    x1: Seq<u8>,
    c2: Seq<u8>,
    x2: Seq<u8>,
    x3: Seq<u8>,
    c3: Seq<u8>,
    x4: Seq<u8>,
    s1: Seq<u8>,
    x5: Seq<u8>,
    s2: Seq<u8>,
    x6: Seq<u8>,
    x7: Seq<u8>,
    s3: Seq<u8>,
    x8: Seq<u8>,
    s4: Seq<u8>,
    x9: Seq<u8>,
    r: Seq<u8>,
)
    requires
        x.len() == 32,
        splat(2, 0x1f, m1),
        m1.len() == 32,
        lanes2(Op2::And, 1, x, m1, x1),
        splat(8, 0x0020_0080_0002_0008, c2),
        c2.len() == 32,
        lanes2(Op2::MulLo, 2, x1, c2, x2),
        lanes1(Op1::Shr(8), 2, x, x3),
        splat(8, 0x0001_0004_0010_0040, c3),
        c3.len() == 32,
        lanes2(Op2::MulLo, 2, x3, c3, x4),
        s1 == merge_t1() + merge_t1(),
        s2 == merge_t2() + merge_t2(),
        s3 == merge_t3() + merge_t3(),
        s4 == merge_t4() + merge_t4(),
        swizzled(x2, s1, x5),
        swizzled(x4, s2, x6),
        lanes2(Op2::Or, 1, x5, x6, x7),
        swizzled(x7, s3, x8),
        swizzled(x7, s4, x9),
        lanes2(Op2::Or, 1, x8, x9, r),
    ensures
        r == merged_bits(x),
{
    lemma_merge_products(x, m1, x1, c2, x2, x3, c3, x4);
    lemma_merge_shuffles(x, x2, x4, s1, x5, s2, x6, x7, s3, x8, s4, x9, r);
}

/// The multiplier of the even byte of a 16-bit lane, by lane position in a
/// group of four.
spec fn product2(j: int) -> int {
    if j == 0 {
        8
    } else if j == 1 {
        2
    } else if j == 2 {
        128
    } else {
        32
    }
}

/// The multiplier of the odd byte of a 16-bit lane, by lane position in a
/// group of four.
spec fn product4(j: int) -> int {
    if j == 0 {
        64
    } else if j == 1 {
        16
    } else if j == 2 {
        4
    } else {
        1
    }
}

/// The products in the packing: lane `k` of `x2` holds the even byte of lane
/// `k` of `x` shifted left by 3, 1, 7 or 5 bits, and lane `k` of `x4` the odd
/// byte shifted by 6, 4, 2 or 0 bits, as `k % 4` is 0, 1, 2 or 3.
#[verifier::spinoff_prover]
#[verifier::rlimit(50)]
proof fn lemma_merge_products(
    x: Seq<u8>,
    m1: Seq<u8>,
    x1: Seq<u8>,
    c2: Seq<u8>,
    x2: Seq<u8>,
    x3: Seq<u8>,
    c3: Seq<u8>,
    x4: Seq<u8>,
)
    requires
        x.len() == 32,
        splat(2, 0x1f, m1),
        m1.len() == 32,
        lanes2(Op2::And, 1, x, m1, x1),
        splat(8, 0x0020_0080_0002_0008, c2),
        c2.len() == 32,
        lanes2(Op2::MulLo, 2, x1, c2, x2),
        lanes1(Op1::Shr(8), 2, x, x3),
        splat(8, 0x0001_0004_0010_0040, c3),
        c3.len() == 32,
        lanes2(Op2::MulLo, 2, x3, c3, x4),
    ensures
        forall|k: int|
            #![trigger lane16(x2, k)]
            #![trigger lane16(x4, k)]
            0 <= k < 16 ==> lane16(x2, k) == product2(k % 4) * (x[2 * k] % 32) && lane16(x4, k) == product4(k % 4) * x[2 * k
                + 1],
{
    reveal(lane);
    reveal(op2);
    reveal(op1);
    lemma2_to64();
    lemma_splat64_lanes(c2, 0x0020_0080_0002_0008, 8, 2, 128, 32);
    assert(0x0020_0080_0002_0008 == 8 + 0x1_0000 * (2 + 0x1_0000 * (128 + 0x1_0000 * 32)));
    lemma_splat64_lanes(c3, 0x0001_0004_0010_0040, 64, 16, 4, 1);
    lemma_bytes2(Op2::And, x, m1, x1);
    lemma_lanes1_16(Op1::Shr(8), x, x3);
    assert forall|k: int| 0 <= k < 16 implies #[trigger] lane16(x1, k) == x[2 * k] % 32 && lane16(x3, k) == x[2 * k
        + 1] by {
        assert(lane(2, m1, k) == 0x1f);
        assert(m1[2 * k] == 0x1f && m1[2 * k + 1] == 0);
        lemma_low5(x[2 * k]);
        lemma_byte_bits(x[2 * k + 1], 0);
        assert(lane16(x3, k) == lane16(x, k) / 256);
        lemma_digits(x[2 * k] as int, x[2 * k + 1] as int, lane16(x, k) % 256, lane16(x, k) / 256, 256);
    }
    assert forall|k: int| 0 <= k < 16 implies #[trigger] lane16(x2, k) == (lane16(x1, k) * lane16(c2, k)) % 0x1_0000
        && lane16(x4, k) == (lane16(x3, k) * lane16(c3, k)) % 0x1_0000 by {
        assert(lane(2, x2, k) == op2(Op2::MulLo, 2, lane(2, x1, k), lane(2, c2, k)));
        assert(lane(2, x4, k) == op2(Op2::MulLo, 2, lane(2, x3, k), lane(2, c3, k)));
    }
    assert forall|k: int|
        #![trigger lane16(x2, k)]
        #![trigger lane16(x4, k)]
        0 <= k < 16 implies lane16(x2, k) == product2(k % 4) * (x[2 * k] % 32) && lane16(x4, k) == product4(k % 4) * x[2 * k
            + 1] by {
        let j = k % 4;
        assert(lane16(c2, k) == product2(j));
        assert(lane16(c3, k) == product4(j));
        assert(lane16(x1, k) == x[2 * k] % 32 && lane16(x3, k) == x[2 * k + 1]);
        assert(0 <= product2(k % 4) * (x[2 * k] % 32) < 0x1_0000) by (nonlinear_arith)
            requires
                0 <= product2(k % 4) <= 128,
                x[2 * k] % 32 < 32,
        ;
        assert(0 <= product4(k % 4) * x[2 * k + 1] < 0x1_0000) by (nonlinear_arith)
            requires
                0 <= product4(k % 4) <= 128,
                x[2 * k + 1] < 256,
        ;
        assert(lane16(x2, k) == (lane16(x1, k) * lane16(c2, k)) % 0x1_0000);
        assert(lane16(x4, k) == (lane16(x3, k) * lane16(c3, k)) % 0x1_0000);
    }
}

/// The shuffle that gathers the even-lane products.
spec fn merge_t1() -> Seq<u8> {
    seq![0x00u8, 0x02, 0x05, 0x07, 0x06, 0x80, 0x80, 0x04, 0x08, 0x0A, 0x0D, 0x0F, 0x0E, 0x80, 0x80, 0x0C]
}

/// The shuffle that gathers the odd-lane products.
spec fn merge_t2() -> Seq<u8> {
    seq![0x01u8, 0x00, 0x02, 0x04, 0x06, 0x03, 0x80, 0x80, 0x09, 0x08, 0x0A, 0x0C, 0x0E, 0x0B, 0x80, 0x80]
}

/// The shuffle that moves the first five bytes of each group to the front.
spec fn merge_t3() -> Seq<u8> {
    seq![0x00u8, 0x01, 0x02, 0x03, 0x04, 0x08, 0x09, 0x0A, 0x0B, 0x0C, 0x80, 0x80, 0x80, 0x80, 0x80, 0x80]
}

/// The shuffle that adds the spilled bits of the second and fourth bytes.
spec fn merge_t4() -> Seq<u8> {
    seq![0x80u8, 0x05, 0x80, 0x07, 0x80, 0x80, 0x0D, 0x80, 0x0F, 0x80, 0x80, 0x80, 0x80, 0x80, 0x80, 0x80]
}

/// The bytes of one group of eight values, from the products to the packed
/// bytes at `w..w + 5`; `hb` is where the half starts and `o` where the
/// group's values are.
#[verifier::spinoff_prover]
#[verifier::rlimit(50)]
proof fn lemma_merge_group(
    x: Seq<u8>,
    x2: Seq<u8>,
    x4: Seq<u8>,
    s1: Seq<u8>,
    x5: Seq<u8>,
    s2: Seq<u8>,
    x6: Seq<u8>,
    x7: Seq<u8>,
    s3: Seq<u8>,
    x8: Seq<u8>,
    s4: Seq<u8>,
    x9: Seq<u8>,
    r: Seq<u8>,
    hb: int,
    o: int,
    w: int,
)
    requires
        hb == 0 || hb == 16,
        o == hb || o == hb + 8,
        w == hb + (o - hb) / 8 * 5,
        x.len() == 32,
        lane16(x2, o / 2) == 8 * (x[o] % 32),
        lane16(x2, o / 2 + 1) == 2 * (x[o + 2] % 32),
        lane16(x2, o / 2 + 2) == 128 * (x[o + 4] % 32),
        lane16(x2, o / 2 + 3) == 32 * (x[o + 6] % 32),
        lane16(x4, o / 2) == 64 * x[o + 1],
        lane16(x4, o / 2 + 1) == 16 * x[o + 3],
        lane16(x4, o / 2 + 2) == 4 * x[o + 5],
        lane16(x4, o / 2 + 3) == x[o + 7],
        swizzled(x2, s1, x5),
        swizzled(x4, s2, x6),
        lanes2(Op2::Or, 1, x5, x6, x7),
        swizzled(x7, s3, x8),
        swizzled(x7, s4, x9),
        lanes2(Op2::Or, 1, x8, x9, r),
        x2.len() == 32,
        x4.len() == 32,
        s1[o] == o - hb,
        s1[o + 1] == o - hb + 2,
        s1[o + 2] == o - hb + 5,
        s1[o + 3] == o - hb + 7,
        s1[o + 4] == o - hb + 6,
        s1[o + 5] >= 128,
        s1[o + 7] == o - hb + 4,
        s2[o] == o - hb + 1,
        s2[o + 1] == o - hb,
        s2[o + 2] == o - hb + 2,
        s2[o + 3] == o - hb + 4,
        s2[o + 4] == o - hb + 6,
        s2[o + 5] == o - hb + 3,
        s2[o + 7] >= 128,
        s3[w] == o - hb,
        s3[w + 1] == o - hb + 1,
        s3[w + 2] == o - hb + 2,
        s3[w + 3] == o - hb + 3,
        s3[w + 4] == o - hb + 4,
        s4[w] >= 128,
        s4[w + 1] == o - hb + 5,
        s4[w + 2] >= 128,
        s4[w + 3] == o - hb + 7,
        s4[w + 4] >= 128,
    ensures
        forall|t: int| 0 <= t < 5 ==> #[trigger] r[w + t] == merge_byte(x, o, t),
{
    reveal(op2);
    lemma_bytes2(Op2::Or, x5, x6, x7);
    lemma_bytes2(Op2::Or, x8, x9, r);
    let (e0, b1, e2, b3, e4, b5, e6, b7) = (x[o] % 32, x[o + 1], x[o + 2] % 32, x[o + 3], x[o + 4] % 32, x[o + 5], x[o
        + 6] % 32, x[o + 7]);
    // bytes of the products
    assert(x2[o] == 8 * e0 && x2[o + 2] == 2 * e2);
    assert(x2[o + 4] == (128 * e4) % 256 && x2[o + 5] == (128 * e4) / 256);
    assert(x2[o + 6] == (32 * e6) % 256 && x2[o + 7] == (32 * e6) / 256);
    assert(x4[o] == (64 * b1) % 256 && x4[o + 1] == (64 * b1) / 256);
    assert(x4[o + 2] == (16 * b3) % 256 && x4[o + 3] == (16 * b3) / 256);
    assert(x4[o + 4] == (4 * b5) % 256 && x4[o + 6] == b7);
    // the first shuffles and their union
    assert(x5[o] == x2[o] && x6[o] == x4[o + 1]);
    assert(x5[o + 1] == x2[o + 2] && x6[o + 1] == x4[o]);
    assert(x5[o + 2] == x2[o + 5] && x6[o + 2] == x4[o + 2]);
    assert(x5[o + 3] == x2[o + 7] && x6[o + 3] == x4[o + 4]);
    assert(x5[o + 4] == x2[o + 6] && x6[o + 4] == x4[o + 6]);
    assert(x5[o + 5] == 0 && x6[o + 5] == x4[o + 3]);
    assert(x5[o + 7] == x2[o + 4] && x6[o + 7] == 0);
    // the second shuffles
    assert(x8[w] == x7[o] && x9[w] == 0);
    assert(x8[w + 1] == x7[o + 1] && x9[w + 1] == x7[o + 5]);
    assert(x8[w + 2] == x7[o + 2] && x9[w + 2] == 0);
    assert(x8[w + 3] == x7[o + 3] && x9[w + 3] == x7[o + 7]);
    assert(x8[w + 4] == x7[o + 4] && x9[w + 4] == 0);
    lemma_byte_bits(x7[o], 0);
    lemma_byte_bits(x7[o + 2], 0);
    lemma_byte_bits(x7[o + 4], 0);
    lemma_byte_bits(x2[o + 4], 0);
    lemma_byte_bits(x4[o + 3], 0);
    assert forall|t: int| 0 <= t < 5 implies #[trigger] r[w + t] == merge_byte(x, o, t) by {
        if t == 0 {
            assert(r[w] == x7[o]);
        } else if t == 2 {
            assert(r[w + 2] == x7[o + 2]);
        } else if t == 4 {
            assert(r[w + 4] == x7[o + 4]);
        }
    }
}

/// The products of one group of four lanes.
proof fn lemma_products_at(x: Seq<u8>, x2: Seq<u8>, x4: Seq<u8>, q: int)
    requires
        0 <= q < 4,
        forall|k: int|
            #![trigger lane16(x2, k)]
            #![trigger lane16(x4, k)]
            0 <= k < 16 ==> lane16(x2, k) == product2(k % 4) * (x[2 * k] % 32) && lane16(x4, k) == product4(k % 4)
                * x[2 * k + 1],
    ensures
        lane16(x2, 4 * q) == 8 * (x[8 * q] % 32),
        lane16(x2, 4 * q + 1) == 2 * (x[8 * q + 2] % 32),
        lane16(x2, 4 * q + 2) == 128 * (x[8 * q + 4] % 32),
        lane16(x2, 4 * q + 3) == 32 * (x[8 * q + 6] % 32),
        lane16(x4, 4 * q) == 64 * x[8 * q + 1],
        lane16(x4, 4 * q + 1) == 16 * x[8 * q + 3],
        lane16(x4, 4 * q + 2) == 4 * x[8 * q + 5],
        lane16(x4, 4 * q + 3) == x[8 * q + 7],
{
    assert((4 * q) % 4 == 0 && (4 * q + 1) % 4 == 1 && (4 * q + 2) % 4 == 2 && (4 * q + 3) % 4 == 3);
    assert(lane16(x2, 4 * q) == product2(0) * (x[8 * q] % 32));
    assert(lane16(x2, 4 * q + 1) == product2(1) * (x[8 * q + 2] % 32));
    assert(lane16(x2, 4 * q + 2) == product2(2) * (x[8 * q + 4] % 32));
    assert(lane16(x2, 4 * q + 3) == product2(3) * (x[8 * q + 6] % 32));
    assert(lane16(x4, 4 * q) == product4(0) * x[8 * q + 1]);
    assert(lane16(x4, 4 * q + 1) == product4(1) * x[8 * q + 3]);
    assert(lane16(x4, 4 * q + 2) == product4(2) * x[8 * q + 5]);
    assert(lane16(x4, 4 * q + 3) == product4(3) * x[8 * q + 7]);
}

/// The shuffles and unions of the packing put each group's bytes in place and
/// clear the rest of each half.
#[verifier::spinoff_prover]
#[verifier::rlimit(50)]
proof fn lemma_merge_shuffles(
    x: Seq<u8>,
    x2: Seq<u8>,
    x4: Seq<u8>,
    s1: Seq<u8>,
    x5: Seq<u8>,
    s2: Seq<u8>,
    x6: Seq<u8>,
    x7: Seq<u8>,
    s3: Seq<u8>,
    x8: Seq<u8>,
    s4: Seq<u8>,
    x9: Seq<u8>,
    r: Seq<u8>,
)
    requires
        x.len() == 32,
        x2.len() == 32,
        x4.len() == 32,
        forall|k: int|
            #![trigger lane16(x2, k)]
            #![trigger lane16(x4, k)]
            0 <= k < 16 ==> lane16(x2, k) == product2(k % 4) * (x[2 * k] % 32) && lane16(x4, k) == product4(k % 4)
                * x[2 * k + 1],
        s1 == merge_t1() + merge_t1(),
        s2 == merge_t2() + merge_t2(),
        s3 == merge_t3() + merge_t3(),
        s4 == merge_t4() + merge_t4(),
        swizzled(x2, s1, x5),
        swizzled(x4, s2, x6),
        lanes2(Op2::Or, 1, x5, x6, x7),
        swizzled(x7, s3, x8),
        swizzled(x7, s4, x9),
        lanes2(Op2::Or, 1, x8, x9, r),
    ensures
        r == merged_bits(x),
{
    lemma_products_at(x, x2, x4, 0);
    lemma_products_at(x, x2, x4, 1);
    lemma_products_at(x, x2, x4, 2);
    lemma_products_at(x, x2, x4, 3);
    lemma_merge_group(x, x2, x4, s1, x5, s2, x6, x7, s3, x8, s4, x9, r, 0, 0, 0);
    lemma_merge_group(x, x2, x4, s1, x5, s2, x6, x7, s3, x8, s4, x9, r, 0, 8, 5);
    lemma_merge_group(x, x2, x4, s1, x5, s2, x6, x7, s3, x8, s4, x9, r, 16, 16, 16);
    lemma_merge_group(x, x2, x4, s1, x5, s2, x6, x7, s3, x8, s4, x9, r, 16, 24, 21);
    reveal(op2);
    lemma_bytes2(Op2::Or, x8, x9, r);
    lemma_byte_bits(0, 0);
    assert forall|i: int| 0 <= i < 32 implies #[trigger] r[i] == merged_bits(x)[i] by {
        let p = i % 16;
        if p >= 10 {
            assert(s3[i] >= 128 && s4[i] >= 128);
            assert(x8[i] == 0 && x9[i] == 0);
        } else {
            let h = i / 16;
            let g = p / 5;
            let t = p % 5;
            assert(r[(16 * h + 5 * g) + t] == merge_byte(x, 16 * h + 8 * g, t));
        }
    }
    assert(r =~= merged_bits(x));
}

/// The 40-bit number that the five bytes `x[base..base + 5]` spell, most
/// significant first.
pub open spec fn bytes_value(x: Seq<u8>, base: int) -> int {
    x[base] * 0x1_0000_0000 + x[base + 1] * 0x100_0000 + x[base + 2] * 0x1_0000 + x[base + 3] * 0x100 + x[base + 4]
}

/// The weight of the lowest bit of value `m` (0 to 7) in a group of eight
/// 5-bit values, most significant first.
pub open spec fn place5(m: int) -> int {
    if m == 0 {
        0x8_0000_0000
    } else if m == 1 {
        0x4000_0000
    } else if m == 2 {
        0x200_0000
    } else if m == 3 {
        0x10_0000
    } else if m == 4 {
        0x8000
    } else if m == 5 {
        0x400
    } else if m == 6 {
        0x20
    } else {
        1
    }
}

/// The 32 five-bit values that the 20 bytes `x[6..26]` spell, most
/// significant first: value `j` is bits `5j..5j + 5`, counted from the top.
pub open spec fn split(x: Seq<u8>) -> Seq<u8> {
    Seq::new(32, |j: int| ((bytes_value(x, 6 + 5 * (j / 8)) / place5(j % 8)) % 32) as u8)
}

/// The shuffle that puts the two bytes that hold each pair of values in a
/// 16-bit lane, the higher byte on top.
spec fn split_t() -> Seq<u8> {
    seq![
        0x07u8, 0x06, 0x08, 0x07, 0x09, 0x08, 0x0A, 0x09, 0x0C, 0x0B, 0x0D, 0x0C, 0x0E, 0x0D, 0x0F, 0x0E,
        0x01, 0x00, 0x02, 0x01, 0x03, 0x02, 0x04, 0x03, 0x06, 0x05, 0x07, 0x06, 0x08, 0x07, 0x09, 0x08,
    ]
}

/// Spreads the 20 bytes `x[6..26]` into 32 five-bit values, one per byte:
/// see [`split`].
pub fn split_bits_u8x32<S: SIMD256>(s: S, x: V256) -> (r: V256)
    ensures
        r@ == split(x@),
{
    let t = Bytes32(
        [
            0x07, 0x06, 0x08, 0x07, 0x09, 0x08, 0x0A, 0x09, //
            0x0C, 0x0B, 0x0D, 0x0C, 0x0E, 0x0D, 0x0F, 0x0E, //
            0x01, 0x00, 0x02, 0x01, 0x03, 0x02, 0x04, 0x03, //
            0x06, 0x05, 0x07, 0x06, 0x08, 0x07, 0x09, 0x08, //
        ],
    );
    let s1 = s.v256_load(&t);
    let x1 = s.u8x16x2_swizzle(x, s1);
    let x2 = s.u16x16_shr::<4>(x1);
    let c1 = s.u64x4_splat(0x0080_0020_0008_0002);
    let x3 = s.i16x16_mul_lo(x2, c1);
    let c2 = s.u64x4_splat(0x0100_0040_0010_0004);
    let x4 = s.i16x16_mul_lo(x1, c2);
    let m3 = s.u16x16_splat(0x1f00);
    let x5 = s.v256_and(x3, m3);
    let x6 = s.v256_and(x4, m3);
    let x7 = s.u16x16_shr::<8>(x5);
    let r = s.v256_or(x6, x7);
    proof {
        assert(t.0@ =~= split_t());
        lemma_split_bytes(x3@, x4@, m3@, x5@, x6@, x7@, r@);
        lemma_split_products(x@, s1@, x1@, x2@, c1@, x3@, c2@, x4@);
        assert forall|j: int| 0 <= j < 32 implies #[trigger] r@[j] == split(x@)[j] by {
            lemma_split_value(x@, x1@, x2@, x3@, x4@, r@, j / 2);
        }
        assert(r@ =~= split(x@));
    }
    r
}

/// Bytes `2k` and `2k + 1` of `r` are bits 8 to 12 of lane `k` of `x3` and
/// of lane `k` of `x4`.
spec fn split_bytes(x3: Seq<u8>, x4: Seq<u8>, r: Seq<u8>, k: int) -> bool {
    &&& r[2 * k] == (lane16(x3, k) / 256) % 32
    &&& r[2 * k + 1] == (lane16(x4, k) / 256) % 32
}

/// Lane `k` of the shuffle `x1` holds bytes `split_hi(k)` (on top) and
/// `split_hi(k) + 1` of `x`; `x2` is it shifted right by four, and `x3` and
/// `x4` are the products of the spreading.
spec fn split_lanes(x: Seq<u8>, x1: Seq<u8>, x2: Seq<u8>, x3: Seq<u8>, x4: Seq<u8>, k: int) -> bool {
    &&& lane16(x1, k) == x[split_hi(k) + 1] + 256 * x[split_hi(k)]
    &&& lane16(x2, k) == lane16(x1, k) / 16
    &&& lane16(x3, k) == (lane16(x2, k) * digit4(k % 4, 2, 8, 32, 128)) % 0x1_0000
    &&& lane16(x4, k) == (lane16(x1, k) * digit4(k % 4, 4, 16, 64, 256)) % 0x1_0000
}

/// The bytes of the result of the spreading, from the products: byte `2k` is
/// bits 8 to 12 of lane `k` of `x3`, byte `2k + 1` those of lane `k` of `x4`.
proof fn lemma_split_bytes(x3: Seq<u8>, x4: Seq<u8>, m3: Seq<u8>, x5: Seq<u8>, x6: Seq<u8>, x7: Seq<u8>, r: Seq<u8>)
    requires
        x3.len() == 32,
        splat(2, 0x1f00, m3),
        m3.len() == 32,
        lanes2(Op2::And, 1, x3, m3, x5),
        lanes2(Op2::And, 1, x4, m3, x6),
        lanes1(Op1::Shr(8), 2, x5, x7),
        lanes2(Op2::Or, 1, x6, x7, r),
    ensures
        forall|k: int| 0 <= k < 16 ==> #[trigger] split_bytes(x3, x4, r, k),
{
    reveal(lane);
    reveal(op2);
    reveal(op1);
    lemma2_to64();
    lemma_bytes2(Op2::And, x3, m3, x5);
    lemma_bytes2(Op2::And, x4, m3, x6);
    lemma_bytes2(Op2::Or, x6, x7, r);
    lemma_lanes1_16(Op1::Shr(8), x5, x7);
    assert forall|k: int| 0 <= k < 16 implies #[trigger] split_bytes(x3, x4, r, k) by {
        assert(lane(2, m3, k) == 0x1f00);
        lemma_digits(m3[2 * k] as int, m3[2 * k + 1] as int, 0, 0x1f, 256);
        lemma_byte_bits(x3[2 * k], 0);
        lemma_byte_bits(x4[2 * k], 0);
        lemma_low5(x3[2 * k + 1]);
        lemma_low5(x4[2 * k + 1]);
        assert(x5[2 * k] == 0 && x5[2 * k + 1] == x3[2 * k + 1] % 32);
        assert(x6[2 * k] == 0 && x6[2 * k + 1] == x4[2 * k + 1] % 32);
        assert(lane16(x7, k) == lane16(x5, k) / 256);
        lemma_digits(x7[2 * k] as int, x7[2 * k + 1] as int, x5[2 * k + 1] as int, 0, 256);
        lemma_byte_bits(x7[2 * k], 0);
        lemma_byte_bits(x6[2 * k + 1], 0);
        lemma_digits(
            x3[2 * k] as int,
            x3[2 * k + 1] as int,
            lane16(x3, k) % 256,
            lane16(x3, k) / 256,
            256,
        );
        lemma_digits(
            x4[2 * k] as int,
            x4[2 * k + 1] as int,
            lane16(x4, k) % 256,
            lane16(x4, k) / 256,
            256,
        );
    }
}

/// The byte of `x` that lands in the upper half of lane `k` of the shuffle;
/// the next byte lands in the lower half.
spec fn split_hi(k: int) -> int {
    6 + 5 * (k / 4) + k % 4
}

/// The products of the spreading: lane `k` of `x1` holds bytes
/// `split_hi(k)` (on top) and `split_hi(k) + 1` of `x`.
#[verifier::spinoff_prover]
#[verifier::rlimit(50)]
proof fn lemma_split_products(
    x: Seq<u8>,
    s1: Seq<u8>,
    x1: Seq<u8>,
    x2: Seq<u8>,
    c1: Seq<u8>,
    x3: Seq<u8>,
    c2: Seq<u8>,
    x4: Seq<u8>,
)
    requires
        x.len() == 32,
        s1 == split_t(),
        swizzled(x, s1, x1),
        lanes1(Op1::Shr(4), 2, x1, x2),
        splat(8, 0x0080_0020_0008_0002, c1),
        c1.len() == 32,
        lanes2(Op2::MulLo, 2, x2, c1, x3),
        splat(8, 0x0100_0040_0010_0004, c2),
        c2.len() == 32,
        lanes2(Op2::MulLo, 2, x1, c2, x4),
    ensures
        forall|k: int| 0 <= k < 16 ==> #[trigger] split_lanes(x, x1, x2, x3, x4, k),
{
    reveal(lane);
    reveal(op2);
    reveal(op1);
    lemma2_to64();
    lemma_splat64_lanes(c1, 0x0080_0020_0008_0002, 2, 8, 32, 128);
    lemma_splat64_lanes(c2, 0x0100_0040_0010_0004, 4, 16, 64, 256);
    lemma_lanes1_16(Op1::Shr(4), x1, x2);
    assert forall|k: int| 0 <= k < 16 implies #[trigger] split_lanes(x, x1, x2, x3, x4, k) by {
        let i = 2 * k;
        assert(s1[i] < 16 && s1[i + 1] < 16);
        assert(i - i % 16 + s1[i] == split_hi(k) + 1);
        assert((i + 1) - (i + 1) % 16 + s1[i + 1] == split_hi(k));
        assert(x1[i] == x[split_hi(k) + 1]);
        assert(x1[i + 1] == x[split_hi(k)]);
        assert(lane(2, x3, k) == op2(Op2::MulLo, 2, lane(2, x2, k), lane(2, c1, k)));
        assert(lane(2, x4, k) == op2(Op2::MulLo, 2, lane(2, x1, k), lane(2, c2, k)));
    }
}

/// Bytes `2k` and `2k + 1` of the result are values `2k` and `2k + 1` of the
/// spreading.
#[verifier::spinoff_prover]
proof fn lemma_split_value(x: Seq<u8>, x1: Seq<u8>, x2: Seq<u8>, x3: Seq<u8>, x4: Seq<u8>, r: Seq<u8>, k: int)
    requires
        0 <= k < 16,
        x.len() == 32,
        forall|k: int| 0 <= k < 16 ==> #[trigger] split_lanes(x, x1, x2, x3, x4, k),
        forall|k: int| 0 <= k < 16 ==> #[trigger] split_bytes(x3, x4, r, k),
    ensures
        r[2 * k] == split(x)[2 * k],
        r[2 * k + 1] == split(x)[2 * k + 1],
{
    let g = k / 4;
    let q = k % 4;
    let base = 6 + 5 * g;
    let (b0, b1, b2, b3, b4) = (x[base], x[base + 1], x[base + 2], x[base + 3], x[base + 4]);
    let gv = bytes_value(x, base);
    assert(split_lanes(x, x1, x2, x3, x4, k));
    assert(split_bytes(x3, x4, r, k));
    let w = lane16(x1, k);
    assert(0 <= w < 0x1_0000);
    let v = (w / 16) as u16;
    assert(v * 16 <= w < v * 16 + 16);
    assert((2 * k) / 8 == g && (2 * k + 1) / 8 == g);
    assert((2 * k) % 8 == 2 * q && (2 * k + 1) % 8 == 2 * q + 1);
    if q == 0 {
        lemma_split5_v0(b0, b1, b2, b3, b4, v);
        lemma_split5_v1(b0, b1, b2, b3, b4);
        lemma_div_denominator(gv, 0x100_0000, 0x800);
    } else if q == 1 {
        lemma_split5_v2(b0, b1, b2, b3, b4, v);
        lemma_split5_v3(b0, b1, b2, b3, b4);
    } else if q == 2 {
        lemma_split5_v4(b0, b1, b2, b3, b4, v);
        lemma_split5_v5(b0, b1, b2, b3, b4);
    } else {
        lemma_split5_v6(b0, b1, b2, b3, b4, v);
        lemma_split5_v7(b0, b1, b2, b3, b4);
    }
}

/// Looks the 5-bit indices of `x` up in the symbol tables `lut0` and `lut1`:
/// each byte is shuffled out of `lut0` and out of `lut1` by its index, and a
/// blend keeps the byte from `lut1` where the mask `x & 0x10` has its high
/// bit set. That bit is never set, so every byte of the result is the shuffle
/// of `lut0` by `x`; an index below 16 picks that byte of `lut0`'s half.
pub fn encode_symbols_u8x32<S: SIMD256Ext>(s: S, x: V256, lut0: V256, lut1: V256) -> (r: V256)
    ensures
        swizzled(lut0@, x@, r@),
        forall|i: int| 0 <= i < 32 && x@[i] < 16 ==> #[trigger] r@[i] == lut0@[16 * (i / 16) + x@[i]],
{
    let x1 = s.u8x16x2_swizzle(lut0, x);
    let x2 = s.u8x16x2_swizzle(lut1, x);
    let m = s.u8x32_splat(0x10);
    let x3 = s.v256_and(x, m);
    let r = s.u8x32_blendv(x1, x2, x3);
    proof {
        lemma_splat_bytes(0x10, m@);
        lemma_bytes2(Op2::And, x@, m@, x3@);
        reveal(op2);
        assert forall|i: int| 0 <= i < 32 implies #[trigger] r@[i] == x1@[i] by {
            assert(x3@[i] == (x@[i] & 0x10u8));
            lemma_bit4_only(x@[i]);
        }
        assert(r@ =~= x1@);
        assert forall|i: int| 0 <= i < 32 && x@[i] < 16 implies #[trigger] r@[i] == lut0@[16 * (i / 16) + x@[i]] by {
            assert(i - i % 16 == 16 * (i / 16));
        }
    }
    r
}

/// Whether every byte of `x` is non-zero; on masks (bytes `0` or `0xff`),
/// whether every byte is set.
pub fn mask8x32_all<S: SIMD256>(s: S, x: V256) -> (r: bool)
    ensures
        r == forall|i: int| 0 <= i < 32 ==> #[trigger] x@[i] != 0,
{
    !s.u8x32_any_zero(x)
}

/// The byte `c` falls in one of the two symbol ranges: `len1` symbols from
/// `ch0` on, or `len1` symbols from `ch1` on, counted modulo 256.
pub open spec fn rfc4648_symbol(c: u8, ch0: u8, ch1: u8, len1: u8) -> bool {
    (c - ch0) % 256 < len1 || (c - ch1) % 256 < len1
}

/// The value of the byte `c`: its place in the first range, ORed with its
/// place in the second range plus `len0` (modulo 256); a range that does not
/// hold `c` gives zero.
pub open spec fn rfc4648_value(c: u8, ch0: u8, len0: u8, ch1: u8, len1: u8) -> u8 {
    (if (c - ch0) % 256 < len1 {
        ((c - ch0) % 256) as u8
    } else {
        0u8
    }) | (if (c - ch1) % 256 < len1 {
        ((((c - ch1) % 256) + len0) % 256) as u8
    } else {
        0u8
    })
}

/// The values of the 32 bytes of `x`.
pub open spec fn rfc4648_values(x: Seq<u8>, ch0: u8, len0: u8, ch1: u8, len1: u8) -> Seq<u8> {
    Seq::new(32, |i: int| rfc4648_value(x[i], ch0, len0, ch1, len1))
}

/// The range tests, byte by byte.
proof fn lemma_rfc4648_masks(
    x: Seq<u8>,
    ch0: u8,
    ch1: u8,
    len1: u8,
    k0: Seq<u8>,
    x1: Seq<u8>,
    l1: Seq<u8>,
    m1: Seq<u8>,
    k1: Seq<u8>,
    x2: Seq<u8>,
    m2: Seq<u8>,
    is_valid: Seq<u8>,
)
    requires
        x.len() == 32,
        splat(1, ch0 as int, k0),
        lanes2(Op2::Sub, 1, x, k0, x1),
        splat(1, len1 as int, l1),
        lanes2(Op2::LtU, 1, x1, l1, m1),
        splat(1, ch1 as int, k1),
        lanes2(Op2::Sub, 1, x, k1, x2),
        lanes2(Op2::LtU, 1, x2, l1, m2),
        lanes2(Op2::Or, 1, m1, m2, is_valid),
    ensures
        x1.len() == 32,
        x2.len() == 32,
        forall|i: int|
            0 <= i < 32 ==> {
                &&& #[trigger] x1[i] == (x[i] - ch0) % 256
                &&& x2[i] == (x[i] - ch1) % 256
                &&& m1[i] == if x1[i] < len1 { 0xffu8 } else { 0u8 }
                &&& m2[i] == if x2[i] < len1 { 0xffu8 } else { 0u8 }
                &&& (is_valid[i] != 0) == rfc4648_symbol(x[i], ch0, ch1, len1)
            },
{
    reveal(op2);
    lemma_splat_bytes(ch0 as int, k0);
    lemma_splat_bytes(ch1 as int, k1);
    lemma_splat_bytes(len1 as int, l1);
    lemma_bytes2(Op2::Sub, x, k0, x1);
    lemma_bytes2(Op2::Sub, x, k1, x2);
    lemma_bytes2(Op2::LtU, x1, l1, m1);
    lemma_bytes2(Op2::LtU, x2, l1, m2);
    lemma_bytes2(Op2::Or, m1, m2, is_valid);
    assert forall|i: int| 0 <= i < 32 implies {
        &&& #[trigger] x1[i] == (x[i] - ch0) % 256
        &&& x2[i] == (x[i] - ch1) % 256
        &&& m1[i] == if x1[i] < len1 { 0xffu8 } else { 0u8 }
        &&& m2[i] == if x2[i] < len1 { 0xffu8 } else { 0u8 }
        &&& (is_valid[i] != 0) == rfc4648_symbol(x[i], ch0, ch1, len1)
    } by {
        lemma_byte_bits(m1[i], m2[i]);
    }
}

/// The values, byte by byte, from the masks; with at most 32 symbols in the
/// two ranges together, every value is below 32.
proof fn lemma_rfc4648_values(
    x: Seq<u8>,
    ch0: u8,
    len0: u8,
    ch1: u8,
    len1: u8,
    x1: Seq<u8>,
    m1: Seq<u8>,
    x2: Seq<u8>,
    m2: Seq<u8>,
    r0: Seq<u8>,
    l0: Seq<u8>,
    a2: Seq<u8>,
    r1: Seq<u8>,
    v: Seq<u8>,
)
    requires
        x.len() == 32,
        x1.len() == 32,
        x2.len() == 32,
        l0.len() == 32,
        forall|i: int|
            0 <= i < 32 ==> {
                &&& #[trigger] x1[i] == (x[i] - ch0) % 256
                &&& x2[i] == (x[i] - ch1) % 256
                &&& m1[i] == if x1[i] < len1 { 0xffu8 } else { 0u8 }
                &&& m2[i] == if x2[i] < len1 { 0xffu8 } else { 0u8 }
            },
        lanes2(Op2::And, 1, x1, m1, r0),
        splat(1, len0 as int, l0),
        lanes2(Op2::Add, 1, x2, l0, a2),
        lanes2(Op2::And, 1, a2, m2, r1),
        lanes2(Op2::Or, 1, r0, r1, v),
    ensures
        v == rfc4648_values(x, ch0, len0, ch1, len1),
        len0 + len1 <= 32 ==> all_5bit(v),
{
    reveal(op2);
    lemma_splat_bytes(len0 as int, l0);
    lemma_bytes2(Op2::And, x1, m1, r0);
    lemma_bytes2(Op2::Add, x2, l0, a2);
    lemma_bytes2(Op2::And, a2, m2, r1);
    lemma_bytes2(Op2::Or, r0, r1, v);
    assert forall|i: int| 0 <= i < 32 implies #[trigger] v[i] == rfc4648_value(x[i], ch0, len0, ch1, len1) && (len0
        + len1 <= 32 ==> v[i] < 32) by {
        assert(x1[i] == (x[i] - ch0) % 256);
        lemma_byte_bits(x1[i], 0);
        lemma_byte_bits(a2[i], 0);
        lemma_byte_bits(r0[i], r1[i]);
    }
    assert(v =~= rfc4648_values(x, ch0, len0, ch1, len1));
}

/// Decodes 32 symbols of a two-range alphabet into 20 bytes: fails unless
/// every symbol is in range; otherwise packs their values, ten bytes in each
/// half: on any values see [`merged_bits`], and when every value is below 32,
/// as it is when the two ranges together have at most 32 symbols, see
/// [`merged`].
pub fn rfc4648_decode_bits_simd<S: SIMD256>(s: S, x: V256, ch0: u8, len0: u8, ch1: u8, len1: u8) -> (r: Result<
    V256,
    (),
>)
    ensures
        r is Ok <==> forall|i: int| 0 <= i < 32 ==> #[trigger] rfc4648_symbol(x@[i], ch0, ch1, len1),
        r matches Ok(v) ==> v@ == merged_bits(rfc4648_values(x@, ch0, len0, ch1, len1)),
        r matches Ok(v) ==> (all_5bit(rfc4648_values(x@, ch0, len0, ch1, len1)) ==> v@ == merged(
            rfc4648_values(x@, ch0, len0, ch1, len1),
        )),
        r matches Ok(v) ==> (len0 + len1 <= 32 ==> v@ == merged(rfc4648_values(x@, ch0, len0, ch1, len1))),
{
    let k0 = s.u8x32_splat(ch0);
    let x1 = s.u8x32_sub(x, k0);
    let l1 = s.u8x32_splat(len1);
    let m1 = s.u8x32_lt(x1, l1);
    let k1 = s.u8x32_splat(ch1);
    let x2 = s.u8x32_sub(x, k1);
    let m2 = s.u8x32_lt(x2, l1);
    let is_valid = s.v256_or(m1, m2);
    proof {
        lemma_rfc4648_masks(x@, ch0, ch1, len1, k0@, x1@, l1@, m1@, k1@, x2@, m2@, is_valid@);
    }
    if !mask8x32_all(s, is_valid) {
        proof {
            let i = choose|i: int| 0 <= i < 32 && !(#[trigger] is_valid@[i] != 0);
            assert(x1@[i] == (x@[i] - ch0) % 256);
            assert(!rfc4648_symbol(x@[i], ch0, ch1, len1));
        }
        return Err(());
    }
    let r0 = s.v256_and(x1, m1);
    let l0 = s.u8x32_splat(len0);
    let a2 = s.u8x32_add(x2, l0);
    let r1 = s.v256_and(a2, m2);
    let v = s.v256_or(r0, r1);
    proof {
        assert forall|i: int| 0 <= i < 32 implies #[trigger] rfc4648_symbol(x@[i], ch0, ch1, len1) by {
            assert(is_valid@[i] != 0);
            assert(x1@[i] == (x@[i] - ch0) % 256);
        }
        lemma_rfc4648_values(x@, ch0, len0, ch1, len1, x1@, m1@, x2@, m2@, r0@, l0@, a2@, r1@, v@);
        if all_5bit(v@) {
            lemma_merged_bits_5bit(v@);
        }
    }
    Ok(merge_bits_u8x32(s, v))
}

/// The table of letters from `I` on that the range test rejects.
spec fn crockford_t3() -> Seq<u8> {
    seq![0xffu8, 0xff, 0x00, 0x00, 0x00, 0x00, 0xff, 0x00, 0x00, 0x00, 0x00, 0x00, 0x00, 0x00, 0x00, 0x00]
}

/// The table of value adjustments of letters from `H` on.
spec fn crockford_ts() -> Seq<u8> {
    seq![0x00u8, 0xfe, 0xfe, 0xfe, 0xfe, 0x00, 0xfd, 0xfd, 0xfd, 0xfd, 0xfd, 0xfd, 0xfd, 0xfd, 0xfd, 0xfd]
}

/// The rejection mask of the letter `t` places after `I` (`t` below 16).
pub open spec fn crockford_reject(t: int) -> u8 {
    if t == 0 || t == 1 || t == 6 {
        0xff
    } else {
        0
    }
}

/// The value adjustment of the letter `t` places after `H` (`t` below 16).
pub open spec fn crockford_adjust(t: int) -> u8 {
    if t == 0 || t == 5 {
        0
    } else if t <= 4 {
        0xfe
    } else {
        0xfd
    }
}

/// The rejection mask of the byte `c` among the letters, as far as the table
/// reaches.
pub open spec fn crockford_m3(c: u8) -> u8 {
    let t = (c - 0x49) % 256;
    if t < 16 {
        crockford_reject(t)
    } else {
        0u8
    }
}

/// The value adjustment of the byte `c`, as far as the table reaches.
pub open spec fn crockford_shift(c: u8) -> u8 {
    let t = (c - 0x48) % 256;
    if t < 16 {
        crockford_adjust(t)
    } else {
        0u8
    }
}

/// The byte `c` is accepted: one of the 26 bytes from `0` on, or one of the
/// 26 letters from `A` on that the table does not reject.
pub open spec fn crockford_symbol(c: u8) -> bool {
    (c - 0x30) % 256 < 26 || ((c - 0x41) % 256 < 26 && crockford_m3(c) == 0)
}

/// The value of the byte `c`: its place among the 26 bytes from `0` on, ORed
/// with its place among the letters plus ten, adjusted (modulo 256); a range
/// that does not hold `c` gives zero.
pub open spec fn crockford_value(c: u8) -> u8 {
    (if (c - 0x30) % 256 < 26 {
        ((c - 0x30) % 256) as u8
    } else {
        0u8
    }) | ((((if (c - 0x41) % 256 < 26 {
        (((c - 0x41) % 256) + 10) % 256
    } else {
        0
    }) + crockford_shift(c)) % 256) as u8)
}

/// The values of the 32 symbols of `x`.
pub open spec fn crockford_values(x: Seq<u8>) -> Seq<u8> {
    Seq::new(32, |i: int| crockford_value(x[i]))
}

/// The two tables, entry by entry.
proof fn lemma_crockford_tables()
    ensures
        forall|k: int| 0 <= k < 16 ==> #[trigger] crockford_t3()[k] == crockford_reject(k),
        forall|k: int| 0 <= k < 16 ==> #[trigger] crockford_ts()[k] == crockford_adjust(k),
{
    assert forall|k: int| 0 <= k < 16 implies #[trigger] crockford_t3()[k] == crockford_reject(k)
        && crockford_ts()[k] == crockford_adjust(k) by {
        if k == 0 {
        } else if k == 1 {
        } else if k == 2 {
        } else if k == 3 {
        } else if k == 4 {
        } else if k == 5 {
        } else if k == 6 {
        } else if k == 7 {
        } else if k == 8 {
        } else if k == 9 {
        } else if k == 10 {
        } else if k == 11 {
        } else if k == 12 {
        } else if k == 13 {
        } else if k == 14 {
        } else {
        }
    }
}

/// The range test of one byte.
proof fn lemma_crockford_mask_byte(c: u8, x1: u8, m1: u8, x2: u8, m2: u8, x3: u8, m3: u8, n: u8, v: u8)
    requires
        x1 == (c - 0x30) % 256,
        m1 == if x1 < 26 { 0xffu8 } else { 0u8 },
        x2 == (c - 0x41) % 256,
        m2 == if x2 < 26 { 0xffu8 } else { 0u8 },
        x3 == (c - 0x49) % 256,
        x3 < 16 ==> m3 == crockford_reject(x3 as int),
        x3 >= 128 ==> m3 == 0,
        n == (m2 & !m3),
        v == (m1 | n),
    ensures
        (c != 0x59 && c != 0x5a) ==> ((v != 0) == crockford_symbol(c)),
        (v != 0) ==> (crockford_symbol(c) || c == 0x59 || c == 0x5a),
{
    lemma_byte_bits(m1, n);
    lemma_andnot_bits(m2, m3);
    lemma_andnot_bits(0xff, 0);
    lemma_andnot_bits(0xff, 0xff);
    if 0x41 <= c <= 0x48 {
        assert(x3 >= 128);
    }
}

/// The value of one byte up to `0x58`, from the masks and the adjustment: it
/// is the byte's value, and below 32 for a byte below `0x58`.
proof fn lemma_crockford_value_byte(c: u8, x1: u8, m1: u8, x2: u8, m2: u8, x4: u8, sh: u8, r0: u8, a5: u8, r1: u8, v: u8)
    requires
        c <= 0x58,
        x1 == (c - 0x30) % 256,
        m1 == if x1 < 26 { 0xffu8 } else { 0u8 },
        x2 == (c - 0x41) % 256,
        m2 == if x2 < 26 { 0xffu8 } else { 0u8 },
        x4 == (c - 0x48) % 256,
        x4 < 16 ==> sh == crockford_adjust(x4 as int),
        x4 == 16 ==> sh == 0,
        x4 >= 128 ==> sh == 0,
        r0 == (x1 & m1),
        a5 == (((x2 + 10) % 256) as u8 & m2),
        r1 == (a5 + sh) % 256,
        v == (r0 | r1),
    ensures
        v == crockford_value(c),
        c < 0x58 ==> v < 32,
{
    lemma_byte_bits(x1, 0);
    lemma_byte_bits(((x2 + 10) % 256) as u8, 0);
    lemma_byte_bits(r0, r1);
    assert(sh == crockford_shift(c));
    if c < 0x58 {
        assert(r1 < 32);
    }
}

/// The range tests of byte `i` of `x`: `x1`, `x2`, `x3` are the byte less
/// `0`, `A` and `I`, `m1` and `m2` the masks of the first two being below 26.
spec fn crockford_lane(x: Seq<u8>, x1: Seq<u8>, x2: Seq<u8>, x3: Seq<u8>, m1: Seq<u8>, m2: Seq<u8>, i: int) -> bool {
    &&& x1[i] == (x[i] - 0x30) % 256
    &&& x2[i] == (x[i] - 0x41) % 256
    &&& x3[i] == (x[i] - 0x49) % 256
    &&& m1[i] == if x1[i] < 26 { 0xffu8 } else { 0u8 }
    &&& m2[i] == if x2[i] < 26 { 0xffu8 } else { 0u8 }
}

/// The range tests of all 32 bytes.
#[verifier::spinoff_prover]
#[verifier::rlimit(50)]
proof fn lemma_crockford_masks(
    x: Seq<u8>,
    k0: Seq<u8>,
    x1: Seq<u8>,
    l1: Seq<u8>,
    m1: Seq<u8>,
    k1: Seq<u8>,
    x2: Seq<u8>,
    m2: Seq<u8>,
    ki: Seq<u8>,
    x3: Seq<u8>,
    lut3: Seq<u8>,
    m3: Seq<u8>,
    n: Seq<u8>,
    is_valid: Seq<u8>,
)
    requires
        x.len() == 32,
        splat(1, 0x30, k0),
        lanes2(Op2::Sub, 1, x, k0, x1),
        splat(1, 26, l1),
        lanes2(Op2::LtU, 1, x1, l1, m1),
        splat(1, 0x41, k1),
        lanes2(Op2::Sub, 1, x, k1, x2),
        lanes2(Op2::LtU, 1, x2, l1, m2),
        splat(1, 0x49, ki),
        lanes2(Op2::Sub, 1, x, ki, x3),
        lut3 == crockford_t3() + crockford_t3(),
        swizzled(lut3, x3, m3),
        lanes2(Op2::AndNot, 1, m2, m3, n),
        lanes2(Op2::Or, 1, m1, n, is_valid),
    ensures
        forall|i: int| 0 <= i < 32 ==> #[trigger] crockford_lane(x, x1, x2, x3, m1, m2, i),
        forall|i: int|
            0 <= i < 32 ==> {
                &&& (x[i] != 0x59 && x[i] != 0x5a) ==> ((#[trigger] is_valid[i] != 0) == crockford_symbol(x[i]))
                &&& (is_valid[i] != 0) ==> (crockford_symbol(x[i]) || x[i] == 0x59 || x[i] == 0x5a)
            },
{
    reveal(op2);
    lemma_crockford_tables();
    lemma_splat_bytes(0x30, k0);
    lemma_splat_bytes(26, l1);
    lemma_splat_bytes(0x41, k1);
    lemma_splat_bytes(0x49, ki);
    lemma_bytes2(Op2::Sub, x, k0, x1);
    lemma_bytes2(Op2::LtU, x1, l1, m1);
    lemma_bytes2(Op2::Sub, x, k1, x2);
    lemma_bytes2(Op2::LtU, x2, l1, m2);
    lemma_bytes2(Op2::Sub, x, ki, x3);
    lemma_bytes2(Op2::AndNot, m2, m3, n);
    lemma_bytes2(Op2::Or, m1, n, is_valid);
    assert forall|i: int|
        #![trigger crockford_lane(x, x1, x2, x3, m1, m2, i)]
        #![trigger is_valid[i]]
        0 <= i < 32 implies crockford_lane(x, x1, x2, x3, m1, m2, i) && {
        &&& (x[i] != 0x59 && x[i] != 0x5a) ==> ((is_valid[i] != 0) == crockford_symbol(x[i]))
        &&& (is_valid[i] != 0) ==> (crockford_symbol(x[i]) || x[i] == 0x59 || x[i] == 0x5a)
    } by {
        if x3[i] < 16 {
            assert(m3[i] == lut3[i - i % 16 + x3[i]]);
            assert(lut3[i - i % 16 + x3[i]] == crockford_t3()[x3[i] as int]);
        }
        lemma_crockford_mask_byte(x[i], x1[i], m1[i], x2[i], m2[i], x3[i], m3[i], n[i], is_valid[i]);
    }
}

/// The values of all 32 bytes, when each is below `0x58`.
#[verifier::spinoff_prover]
#[verifier::rlimit(50)]
proof fn lemma_crockford_values(
    x: Seq<u8>,
    x1: Seq<u8>,
    m1: Seq<u8>,
    x2: Seq<u8>,
    m2: Seq<u8>,
    x3: Seq<u8>,
    one: Seq<u8>,
    x4: Seq<u8>,
    luts: Seq<u8>,
    sh: Seq<u8>,
    r0: Seq<u8>,
    l0: Seq<u8>,
    x5: Seq<u8>,
    a5: Seq<u8>,
    r1: Seq<u8>,
    v: Seq<u8>,
)
    requires
        x.len() == 32,
        forall|i: int| 0 <= i < 32 ==> #[trigger] x[i] <= 0x58,
        forall|i: int| 0 <= i < 32 ==> #[trigger] crockford_lane(x, x1, x2, x3, m1, m2, i),
        splat(1, 1, one),
        lanes2(Op2::Add, 1, x3, one, x4),
        luts == crockford_ts() + crockford_ts(),
        swizzled(luts, x4, sh),
        lanes2(Op2::And, 1, x1, m1, r0),
        splat(1, 10, l0),
        lanes2(Op2::Add, 1, x2, l0, x5),
        lanes2(Op2::And, 1, x5, m2, a5),
        lanes2(Op2::Add, 1, a5, sh, r1),
        lanes2(Op2::Or, 1, r0, r1, v),
    ensures
        v == crockford_values(x),
        (forall|i: int| 0 <= i < 32 ==> #[trigger] x[i] < 0x58) ==> all_5bit(v),
{
    reveal(op2);
    lemma_crockford_tables();
    lemma_splat_bytes(1, one);
    lemma_splat_bytes(10, l0);
    lemma_bytes2(Op2::Add, x3, one, x4);
    lemma_bytes2(Op2::And, x1, m1, r0);
    lemma_bytes2(Op2::Add, x2, l0, x5);
    lemma_bytes2(Op2::And, x5, m2, a5);
    lemma_bytes2(Op2::Add, a5, sh, r1);
    lemma_bytes2(Op2::Or, r0, r1, v);
    assert forall|i: int| 0 <= i < 32 implies #[trigger] v[i] == crockford_value(x[i]) && (x[i] < 0x58 ==> v[i] < 32)
        by {
        let c = x[i];
        assert(crockford_lane(x, x1, x2, x3, m1, m2, i));
        assert(x4[i] == (x3[i] + 1) % 256);
        assert(x4[i] == (c - 0x48) % 256);
        if x4[i] < 16 {
            assert(sh[i] == luts[i - i % 16 + x4[i]]);
            assert(luts[i - i % 16 + x4[i]] == crockford_ts()[x4[i] as int]);
        }
        if x4[i] == 16 {
            assert(luts[i - i % 16 + x4[i] % 16] == crockford_ts()[0]);
        }
        lemma_crockford_value_byte(c, x1[i], m1[i], x2[i], m2[i], x4[i], sh[i], r0[i], a5[i], r1[i], v[i]);
    }
    if forall|i: int| 0 <= i < 32 ==> #[trigger] x[i] < 0x58 {
        assert forall|i: int| 0 <= i < v.len() implies #[trigger] v[i] < 32 by {
            assert(x[i] < 0x58);
        }
    }
    assert(v =~= crockford_values(x));
}

/// Decodes 32 symbols of the Crockford alphabet into 20 bytes: fails unless
/// every byte passes the range test (which `Y` and `Z` pass or fail by the
/// instruction set's table lookup); otherwise packs the value of each byte,
/// which depends on that byte alone (see [`crockford_value`]): ten bytes in
/// each half, see [`merged_bits`], stated when no byte is `Y` or `Z`, and
/// [`merged`] when every byte is below `0x58`.
pub fn crockford_decode_bits_simd<S: SIMD256>(s: S, x: V256) -> (r: Result<V256, ()>)
    ensures
        r is Ok ==> forall|i: int| 0 <= i < 32 ==> #[trigger] crockford_symbol(x@[i]) || x@[i] == 0x59 || x@[i] == 0x5a,
        (forall|i: int| 0 <= i < 32 ==> #[trigger] x@[i] != 0x59 && x@[i] != 0x5a) ==> (r is Ok <==> forall|i: int|
            0 <= i < 32 ==> #[trigger] crockford_symbol(x@[i])),
        r matches Ok(v) ==> ((forall|i: int| 0 <= i < 32 ==> #[trigger] x@[i] != 0x59 && x@[i] != 0x5a) ==> v@
            == merged_bits(crockford_values(x@))),
        r matches Ok(v) ==> ((forall|i: int| 0 <= i < 32 ==> #[trigger] x@[i] < 0x58) ==> v@ == merged(
            crockford_values(x@),
        )),
{
    let t3 = Bytes32::double(
        [
            0xff, 0xff, 0x00, 0x00, 0x00, 0x00, 0xff, 0x00, //
            0x00, 0x00, 0x00, 0x00, 0x00, 0x00, 0x00, 0x00, //
        ],
    );
    let ts = Bytes32::double(
        [
            0x00, 0xfe, 0xfe, 0xfe, 0xfe, //
            0x00, 0xfd, 0xfd, 0xfd, 0xfd, 0xfd, 0xfd, 0xfd, 0xfd, 0xfd, 0xfd, //
        ],
    );
    let k0 = s.u8x32_splat(0x30);
    let x1 = s.u8x32_sub(x, k0);
    let l1 = s.u8x32_splat(26);
    let m1 = s.u8x32_lt(x1, l1);
    let k1 = s.u8x32_splat(0x41);
    let x2 = s.u8x32_sub(x, k1);
    let m2 = s.u8x32_lt(x2, l1);
    let ki = s.u8x32_splat(0x49);
    let x3 = s.u8x32_sub(x, ki);
    let lut3 = s.v256_load(&t3);
    let m3 = s.u8x16x2_swizzle(lut3, x3);
    let n = s.v256_andnot(m2, m3);
    let is_valid = s.v256_or(m1, n);
    proof {
        assert(t3.0@ =~= crockford_t3() + crockford_t3());
        assert(ts.0@ =~= crockford_ts() + crockford_ts());
        lemma_crockford_masks(x@, k0@, x1@, l1@, m1@, k1@, x2@, m2@, ki@, x3@, lut3@, m3@, n@, is_valid@);
    }
    if !mask8x32_all(s, is_valid) {
        proof {
            let i = choose|i: int| 0 <= i < 32 && !(#[trigger] is_valid@[i] != 0);
            if forall|j: int| 0 <= j < 32 ==> #[trigger] x@[j] != 0x59 && x@[j] != 0x5a {
                assert(x@[i] != 0x59 && x@[i] != 0x5a);
                assert(!crockford_symbol(x@[i]));
            }
        }
        return Err(());
    }
    let one = s.u8x32_splat(1);
    let x4 = s.u8x32_add(x3, one);
    let luts = s.v256_load(&ts);
    let sh = s.u8x16x2_swizzle(luts, x4);
    let r0 = s.v256_and(x1, m1);
    let l0 = s.u8x32_splat(10);
    let x5 = s.u8x32_add(x2, l0);
    let a5 = s.v256_and(x5, m2);
    let r1 = s.u8x32_add(a5, sh);
    let v = s.v256_or(r0, r1);
    proof {
        assert forall|i: int| 0 <= i < 32 implies #[trigger] crockford_symbol(x@[i]) || x@[i] == 0x59 || x@[i]
            == 0x5a by {
            assert(is_valid@[i] != 0);
        }
        if forall|j: int| 0 <= j < 32 ==> #[trigger] x@[j] != 0x59 && x@[j] != 0x5a {
            assert forall|i: int| 0 <= i < 32 implies #[trigger] crockford_symbol(x@[i]) by {
                assert(is_valid@[i] != 0);
                assert(x@[i] != 0x59 && x@[i] != 0x5a);
            }
        }
        if forall|j: int| 0 <= j < 32 ==> #[trigger] x@[j] != 0x59 && x@[j] != 0x5a {
            assert forall|i: int| 0 <= i < 32 implies #[trigger] x@[i] <= 0x58 by {
                assert(crockford_symbol(x@[i]));
                assert(x@[i] != 0x59 && x@[i] != 0x5a);
            }
            lemma_crockford_values(
                x@,
                x1@,
                m1@,
                x2@,
                m2@,
                x3@,
                one@,
                x4@,
                luts@,
                sh@,
                r0@,
                l0@,
                x5@,
                a5@,
                r1@,
                v@,
            );
            if forall|j: int| 0 <= j < 32 ==> #[trigger] x@[j] < 0x58 {
                lemma_merged_bits_5bit(v@);
            }
        }
        if forall|j: int| 0 <= j < 32 ==> #[trigger] x@[j] < 0x58 {
            assert forall|j: int| 0 <= j < 32 implies #[trigger] x@[j] != 0x59 && x@[j] != 0x5a by {
                assert(x@[j] < 0x58);
            }
        }
    }
    Ok(merge_bits_u8x32(s, v))
}

/// The accepted symbols from `0` to `X` and their values, in byte order;
/// `0xff` marks a byte that is not accepted. Digits count for themselves; the
/// bytes from `:` to `@` continue the digits; the letters take the values
/// that the range tests and the adjustment table give them.
pub open spec fn crockford_table() -> Seq<u8> {
    seq![
        0u8, 1, 2, 3, 4, 5, 6, 7, 8, 9, 10, 11, 12, 13, 14, 15, 16, 27, 27, 31, 29, 31, 31, 23, 25, 25, 0xff, 18, 19, 22, 20, 0xff, 22, 23, 24, 25, 26, 27, 28, 29, 33,
    ]
}

/// The byte `c` (from `0` to `X`) is accepted exactly as the table says, and
/// then has the table's value.
spec fn crockford_entry(c: u8) -> bool {
    &&& crockford_symbol(c) == (crockford_table()[c - 0x30] != 0xff)
    &&& crockford_symbol(c) ==> crockford_value(c) == crockford_table()[c - 0x30]
}

/// What the Crockford decoder makes of each byte, whatever the other bytes
/// are: bytes below `0` and from `[` on are refused, and each byte from `0`
/// to `X` is accepted or refused, and valued, as [`crockford_table`] says;
/// for instance `K` is 18, `N` 20, `P` 22, `W` 29 and `X` 33, and `J` and `O`
/// are refused.
pub proof fn lemma_crockford_symbols(c: u8)
    ensures
        (c < 0x30 || 0x5b <= c) ==> !crockford_symbol(c),
        0x30 <= c <= 0x58 ==> (crockford_symbol(c) == (crockford_table()[c - 0x30] != 0xff)),
        0x30 <= c <= 0x58 && crockford_symbol(c) ==> crockford_value(c) == crockford_table()[c - 0x30],
{
    if 0x30 <= c <= 0x58 {
        let a = if (c - 0x30) % 256 < 26 {
            ((c - 0x30) % 256) as u8
        } else {
            0u8
        };
        let b = (((if (c - 0x41) % 256 < 26 {
            (((c - 0x41) % 256) + 10) % 256
        } else {
            0
        }) + crockford_shift(c)) % 256) as u8;
        assert(crockford_value(c) == (a | b));
        lemma_byte_bits(a, 0);
        lemma_byte_bits(b, 0);
        lemma_letter_ors();
        if c == 48 {
        } else if c == 49 {
        } else if c == 50 {
        } else if c == 51 {
        } else if c == 52 {
        } else if c == 53 {
        } else if c == 54 {
        } else if c == 55 {
        } else if c == 56 {
        } else if c == 57 {
        } else if c == 58 {
        } else if c == 59 {
        } else if c == 60 {
        } else if c == 61 {
        } else if c == 62 {
        } else if c == 63 {
        } else if c == 64 {
        } else if c == 65 {
        } else if c == 66 {
        } else if c == 67 {
        } else if c == 68 {
        } else if c == 69 {
        } else if c == 70 {
        } else if c == 71 {
        } else if c == 72 {
        } else if c == 73 {
        } else if c == 74 {
        } else if c == 75 {
        } else if c == 76 {
        } else if c == 77 {
        } else if c == 78 {
        } else if c == 79 {
        } else if c == 80 {
        } else if c == 81 {
        } else if c == 82 {
        } else if c == 83 {
        } else if c == 84 {
        } else if c == 85 {
        } else if c == 86 {
        } else if c == 87 {
        } else {
        }
        assert(crockford_entry(c));
    } else if 0x5b <= c {
        assert(crockford_m3(c) == 0 || (c - 0x41) % 256 >= 26);
    }
}

/// Each group of eight symbols gives its five packed bytes by itself: two
/// inputs that agree on the symbols of group `g` agree on that group's bytes
/// of [`merged_bits`] of their values.
pub proof fn lemma_crockford_groups_local(x: Seq<u8>, y: Seq<u8>, g: int)
    requires
        x.len() == 32,
        y.len() == 32,
        0 <= g < 4,
        forall|k: int| 8 * g <= k < 8 * g + 8 ==> #[trigger] x[k] == y[k],
    ensures
        forall|t: int|
            0 <= t < 5 ==> #[trigger] merged_bits(crockford_values(x))[16 * (g / 2) + 5 * (g % 2) + t] == merged_bits(
                crockford_values(y),
            )[16 * (g / 2) + 5 * (g % 2) + t],
{
    let vx = crockford_values(x);
    let vy = crockford_values(y);
    assert forall|k: int| 8 * g <= k < 8 * g + 8 implies #[trigger] vx[k] == vy[k] by {
        assert(x[k] == y[k]);
    }
    assert forall|t: int| 0 <= t < 5 implies #[trigger] merged_bits(vx)[16 * (g / 2) + 5 * (g % 2) + t]
        == merged_bits(vy)[16 * (g / 2) + 5 * (g % 2) + t] by {
        let i = 16 * (g / 2) + 5 * (g % 2) + t;
        assert(i / 16 == g / 2 && i % 16 == 5 * (g % 2) + t);
        assert(16 * (g / 2) + 8 * ((5 * (g % 2) + t) / 5) == 8 * g);
        assert(vx[8 * g] == vy[8 * g] && vx[8 * g + 1] == vy[8 * g + 1] && vx[8 * g + 2] == vy[8 * g + 2] && vx[8 * g
            + 3] == vy[8 * g + 3]);
        assert(vx[8 * g + 4] == vy[8 * g + 4] && vx[8 * g + 5] == vy[8 * g + 5] && vx[8 * g + 6] == vy[8 * g + 6]
            && vx[8 * g + 7] == vy[8 * g + 7]);
    }
}

/// The five bytes at `x[base..base + 5]` are the bytes of the number that
/// they spell.
#[verifier::spinoff_prover]
#[verifier::rlimit(50)]
proof fn lemma_bytes_of_value(x: Seq<u8>, base: int)
    requires
        0 <= base,
        base + 5 <= x.len(),
    ensures
        forall|t: int| 0 <= t < 5 ==> #[trigger] byte_of_40(bytes_value(x, base), t) == x[base + t],
{
    lemma_bytes5_of_value(x[base], x[base + 1], x[base + 2], x[base + 3], x[base + 4]);
}

/// The eight values of group `gi` of the spreading spell the five bytes that
/// the group came from.
#[verifier::spinoff_prover]
#[verifier::rlimit(50)]
proof fn lemma_split_group_value(x: Seq<u8>, gi: int)
    requires
        x.len() == 32,
        0 <= gi < 4,
    ensures
        group_value(split(x), 8 * gi) == bytes_value(x, 6 + 5 * gi),
{
    let base = 6 + 5 * gi;
    let (b0, b1, b2, b3, b4) = (x[base], x[base + 1], x[base + 2], x[base + 3], x[base + 4]);
    let g = bytes_value(x, base);
    let vals = split(x);
    lemma_split5_join(b0, b1, b2, b3, b4);
    lemma_div_denominator(g, 0x100_0000, 0x800);
    assert forall|m: int| 0 <= m < 8 implies #[trigger] vals[8 * gi + m] == (g / place5(m)) % 32 by {
        assert((8 * gi + m) / 8 == gi && (8 * gi + m) % 8 == m);
    }
    assert(vals[8 * gi] == (g / place5(0)) % 32);
    assert(vals[8 * gi + 1] == (g / place5(1)) % 32);
    assert(vals[8 * gi + 2] == (g / place5(2)) % 32);
    assert(vals[8 * gi + 3] == (g / place5(3)) % 32);
    assert(vals[8 * gi + 4] == (g / place5(4)) % 32);
    assert(vals[8 * gi + 5] == (g / place5(5)) % 32);
    assert(vals[8 * gi + 6] == (g / place5(6)) % 32);
    assert(vals[8 * gi + 7] == (g / place5(7)) % 32);
}

/// The five packed bytes of group `g` of half `h`, after spreading, are the
/// five bytes that the group came from.
#[verifier::spinoff_prover]
#[verifier::rlimit(50)]
proof fn lemma_merge_of_split_group(x: Seq<u8>, h: int, g: int)
    requires
        x.len() == 32,
        0 <= h < 2,
        0 <= g < 2,
    ensures
        forall|t: int| 0 <= t < 5 ==> #[trigger] merged(split(x))[16 * h + 5 * g + t] == x[6 + 10 * h + 5 * g + t],
{
    let gi = 2 * h + g;
    lemma_split_group_value(x, gi);
    lemma_bytes_of_value(x, 6 + 5 * gi);
    assert forall|t: int| 0 <= t < 5 implies #[trigger] merged(split(x))[16 * h + 5 * g + t] == x[6 + 10 * h + 5
        * g + t] by {
        let i = 16 * h + 5 * g + t;
        assert(i / 16 == h && i % 16 == 5 * g + t);
        assert((5 * g + t) / 5 == g && (5 * g + t) % 5 == t);
        assert(16 * h + 8 * g == 8 * gi);
    }
}

/// Spreading and then packing gives the 20 bytes back: the 5-bit values that
/// [`split`] takes from `x[6..26]` are packed by [`merged`] into
/// `x[6..16]` in the first half and `x[16..26]` in the second, each followed
/// by six zero bytes.
#[verifier::spinoff_prover]
pub proof fn lemma_merge_of_split(x: Seq<u8>)
    requires
        x.len() == 32,
    ensures
        all_5bit(split(x)),
        merged(split(x)) == x.subrange(6, 16) + Seq::new(6, |i: int| 0u8) + x.subrange(16, 26) + Seq::new(
            6,
            |i: int| 0u8,
        ),
{
    let want = x.subrange(6, 16) + Seq::new(6, |i: int| 0u8) + x.subrange(16, 26) + Seq::new(6, |i: int| 0u8);
    let m = merged(split(x));
    lemma_merge_of_split_group(x, 0, 0);
    lemma_merge_of_split_group(x, 0, 1);
    lemma_merge_of_split_group(x, 1, 0);
    lemma_merge_of_split_group(x, 1, 1);
    assert forall|j: int| 0 <= j < 32 implies #[trigger] split(x)[j] < 32 by {}
    assert forall|i: int| 0 <= i < 32 implies #[trigger] m[i] == want[i] by {
        if i < 5 {
            assert(m[16 * 0 + 5 * 0 + i] == x[6 + 10 * 0 + 5 * 0 + i]);
        } else if i < 10 {
            assert(m[16 * 0 + 5 * 1 + (i - 5)] == x[6 + 10 * 0 + 5 * 1 + (i - 5)]);
        } else if i < 16 {
        } else if i < 21 {
            assert(m[16 * 1 + 5 * 0 + (i - 16)] == x[6 + 10 * 1 + 5 * 0 + (i - 16)]);
        } else if i < 26 {
            assert(m[16 * 1 + 5 * 1 + (i - 21)] == x[6 + 10 * 1 + 5 * 1 + (i - 21)]);
        }
    }
    assert(m =~= want);
}

} // verus!
