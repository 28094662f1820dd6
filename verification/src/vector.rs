use vstd::arithmetic::power2::{pow2, lemma2_to64, lemma_pow2_strictly_increases};
use vstd::bits::{lemma_u16_shr_is_div, lemma_u32_shl_is_mul, lemma_u32_shr_is_div, lemma_u64_shl_is_mul};
use vstd::prelude::*;

use crate::bits::{
    lemma_and_le, lemma_andnot_parts, lemma_byte_bits, lemma_not_byte, lemma_or_ge, lemma_u16_bits, lemma_u32_bits,
    lemma_u64_bits, lemma_xor_twice,
};

verus! {

/// A 128-bit vector: 16 bytes in lane order. Wider lanes are little-endian
/// groups of consecutive bytes.
#[derive(Clone, Copy)]
pub struct V128(pub [u8; 16]);

impl View for V128 {
    type V = Seq<u8>;

    open spec fn view(&self) -> Seq<u8> {
        self.0@
    }
}

/// A 256-bit vector made of two 128-bit halves; `lo` holds bytes 0..16.
#[derive(Clone, Copy)]
pub struct V256 {
    pub lo: V128,
    pub hi: V128,
}

impl View for V256 {
    type V = Seq<u8>;

    open spec fn view(&self) -> Seq<u8> {
        self.lo@ + self.hi@
    }
}

/// A 512-bit vector made of two 256-bit halves; `lo` holds bytes 0..32.
#[derive(Clone, Copy)]
pub struct V512 {
    pub lo: V256,
    pub hi: V256,
}

impl View for V512 {
    type V = Seq<u8>;

    open spec fn view(&self) -> Seq<u8> {
        self.lo@ + self.hi@
    }
}

// ---------------------------------------------------------------------------
// Lane model
// ---------------------------------------------------------------------------

/// The unsigned value of the `i`-th 16-bit lane of `s`.
pub open spec fn lane16(s: Seq<u8>, i: int) -> int {
    s[2 * i] + 256 * s[2 * i + 1]
}

/// The unsigned value of the `i`-th 32-bit lane of `s`.
pub open spec fn lane32(s: Seq<u8>, i: int) -> int {
    lane16(s, 2 * i) + 0x1_0000 * lane16(s, 2 * i + 1)
}

/// The unsigned value of the `i`-th 64-bit lane of `s`.
pub open spec fn lane64(s: Seq<u8>, i: int) -> int {
    lane32(s, 2 * i) + 0x1_0000_0000 * lane32(s, 2 * i + 1)
}

/// The unsigned value of the `i`-th lane of `w` bytes (`w` is 1, 2, 4 or 8).
#[verifier::opaque]
pub open spec fn lane(w: int, s: Seq<u8>, i: int) -> int {
    if w == 1 {
        s[i] as int
    } else if w == 2 {
        lane16(s, i)
    } else if w == 4 {
        lane32(s, i)
    } else {
        lane64(s, i)
    }
}

/// `2^(8w)`: the number of values a lane of `w` bytes can hold.
pub open spec fn lane_modulus(w: int) -> int {
    if w == 1 {
        0x100
    } else if w == 2 {
        0x1_0000
    } else if w == 4 {
        0x1_0000_0000
    } else {
        0x1_0000_0000_0000_0000
    }
}

/// The two's-complement reading of the unsigned lane value `x`.
pub open spec fn to_signed(w: int, x: int) -> int {
    if x < lane_modulus(w) / 2 {
        x
    } else {
        x - lane_modulus(w)
    }
}

/// The unsigned lane value whose two's-complement reading is `x`.
pub open spec fn from_signed(w: int, x: int) -> int {
    if x < 0 {
        x + lane_modulus(w)
    } else {
        x
    }
}

/// Clamps `x` into the signed range of a lane of `w` bytes.
pub open spec fn clamp_signed(w: int, x: int) -> int {
    let half = lane_modulus(w) / 2;
    if x < -half {
        -half
    } else if x > half - 1 {
        half - 1
    } else {
        x
    }
}

/// Lane-wise binary operations.
#[derive(Clone, Copy, PartialEq, Eq)]
pub enum Op2 {
    And,
    Or,
    Xor,
    AndNot,
    Add,
    Sub,
    SubSatU,
    SubSatS,
    Eq,
    LtU,
    LtS,
    MaxU,
    MaxS,
    MinU,
    MinS,
    MulLo,
}

/// The result of `op` on two unsigned lane values of `w` bytes. The bitwise
/// operations are used on byte lanes.
#[verifier::opaque]
pub open spec fn op2(op: Op2, w: int, x: int, y: int) -> int {
    let m = lane_modulus(w);
    match op {
        Op2::And => ((x as u8) & (y as u8)) as int,
        Op2::Or => ((x as u8) | (y as u8)) as int,
        Op2::Xor => ((x as u8) ^ (y as u8)) as int,
        Op2::AndNot => ((x as u8) & !(y as u8)) as int,
        Op2::Add => (x + y) % m,
        Op2::Sub => (x - y) % m,
        Op2::SubSatU => if x >= y { x - y } else { 0 },
        Op2::SubSatS => from_signed(w, clamp_signed(w, to_signed(w, x) - to_signed(w, y))),
        Op2::Eq => if x == y { m - 1 } else { 0 },
        Op2::LtU => if x < y { m - 1 } else { 0 },
        Op2::LtS => if to_signed(w, x) < to_signed(w, y) { m - 1 } else { 0 },
        Op2::MaxU => if x >= y { x } else { y },
        Op2::MaxS => if to_signed(w, x) >= to_signed(w, y) { x } else { y },
        Op2::MinU => if x <= y { x } else { y },
        Op2::MinS => if to_signed(w, x) <= to_signed(w, y) { x } else { y },
        Op2::MulLo => (x * y) % m,
    }
}


/// The operations that act bit by bit; they are used on byte lanes.
pub open spec fn is_bitwise(op: Op2) -> bool {
    op == Op2::And || op == Op2::Or || op == Op2::Xor || op == Op2::AndNot
}

/// Lane-wise unary operations.
#[derive(Clone, Copy, PartialEq, Eq)]
pub enum Op1 {
    Not,
    Shl(u32),
    Shr(u32),
}

/// The result of `op` on an unsigned lane value of `w` bytes. `Not` is used on
/// byte lanes; shifts move bits within a lane and drop those that leave it.
#[verifier::opaque]
pub open spec fn op1(op: Op1, w: int, x: int) -> int {
    match op {
        Op1::Not => (!(x as u8)) as int,
        Op1::Shl(n) => (x * pow2(n as nat)) % lane_modulus(w),
        Op1::Shr(n) => x / (pow2(n as nat) as int),
    }
}

/// `r` is `op` applied to the lanes of `w` bytes of `a` and `b`.
pub open spec fn lanes2(op: Op2, w: int, a: Seq<u8>, b: Seq<u8>, r: Seq<u8>) -> bool {
    &&& a.len() == b.len()
    &&& r.len() == a.len()
    &&& forall|i: int|
        0 <= i < a.len() as int / w ==> #[trigger] lane(w, r, i) == op2(op, w, lane(w, a, i), lane(w, b, i))
}

/// `r` is `op` applied to each lane of `w` bytes of `a`.
pub open spec fn lanes1(op: Op1, w: int, a: Seq<u8>, r: Seq<u8>) -> bool {
    &&& r.len() == a.len()
    &&& forall|i: int| 0 <= i < a.len() as int / w ==> #[trigger] lane(w, r, i) == op1(op, w, lane(w, a, i))
}

/// Every lane of `w` bytes of `r` holds the unsigned value `x`.
pub open spec fn splat(w: int, x: int, r: Seq<u8>) -> bool {
    forall|i: int| 0 <= i < r.len() as int / w ==> #[trigger] lane(w, r, i) == x
}

/// `r` is `a` with the byte order reversed within each lane of `w` bytes.
pub open spec fn bytes_reversed_in_lanes(w: int, a: Seq<u8>, r: Seq<u8>) -> bool {
    &&& r.len() == a.len()
    &&& forall|i: int| 0 <= i < a.len() ==> #[trigger] r[i] == a[i + w - 1 - 2 * (i % w)]
}

/// `r` is a byte shuffle of `a` driven by the indices in `b`, separately in
/// each 16-byte block: an index below 16 picks that byte of the block, and an
/// index with its high bit set gives zero. Any other index gives either zero
/// or the byte of the block that its low four bits pick, as instruction sets
/// differ there.
pub open spec fn swizzled(a: Seq<u8>, b: Seq<u8>, r: Seq<u8>) -> bool {
    &&& a.len() == b.len()
    &&& r.len() == a.len()
    &&& forall|i: int|
        0 <= i < a.len() ==> {
            &&& (b[i] < 16 ==> #[trigger] r[i] == a[i - i % 16 + b[i]])
            &&& (b[i] >= 128 ==> r[i] == 0)
            &&& (16 <= b[i] < 128 ==> (r[i] == 0 || r[i] == a[i - i % 16 + b[i] % 16]))
        }
}

/// All bytes of `a` are zero.
pub open spec fn all_zero(a: Seq<u8>) -> bool {
    forall|i: int| 0 <= i < a.len() ==> #[trigger] a[i] == 0
}

/// Some byte of `a` is zero.
pub open spec fn any_zero(a: Seq<u8>) -> bool {
    exists|i: int| 0 <= i < a.len() && #[trigger] a[i] == 0
}

// ---------------------------------------------------------------------------
// Exec access to wide lanes
// ---------------------------------------------------------------------------

/// The 16-bit lane `i` of a 16-byte array.
fn get16(v: &[u8; 16], i: usize) -> (r: u16)
    requires
        i < 8,
    ensures
        r == lane16(v@, i as int),
{
    v[2 * i] as u16 + (v[2 * i + 1] as u16) * 256
}

/// Sets the 16-bit lane `i` of a 16-byte array to `x`, keeping the other
/// bytes.
fn set16(v: &mut [u8; 16], i: usize, x: u16)
    requires
        i < 8,
    ensures
        lane16(final(v)@, i as int) == x,
        forall|k: int| 0 <= k < 16 && k != 2 * i && k != 2 * i + 1 ==> final(v)@[k] == old(v)@[k],
{
    v[2 * i] = (x % 256) as u8;
    v[2 * i + 1] = (x / 256) as u8;
}

/// The 32-bit lane `i` of a 16-byte array.
fn get32(v: &[u8; 16], i: usize) -> (r: u32)
    requires
        i < 4,
    ensures
        r == lane32(v@, i as int),
{
    get16(v, 2 * i) as u32 + (get16(v, 2 * i + 1) as u32) * 0x1_0000
}

/// Sets the 32-bit lane `i` of a 16-byte array to `x`, keeping the other
/// bytes.
fn set32(v: &mut [u8; 16], i: usize, x: u32)
    requires
        i < 4,
    ensures
        lane32(final(v)@, i as int) == x,
        forall|k: int| 0 <= k < 16 && !(4 * i <= k < 4 * i + 4) ==> final(v)@[k] == old(v)@[k],
{
    set16(v, 2 * i, (x % 0x1_0000) as u16);
    set16(v, 2 * i + 1, (x / 0x1_0000) as u16);
}

/// The 64-bit lane `i` of a 16-byte array.
fn get64(v: &[u8; 16], i: usize) -> (r: u64)
    requires
        i < 2,
    ensures
        r == lane64(v@, i as int),
{
    get32(v, 2 * i) as u64 + (get32(v, 2 * i + 1) as u64) * 0x1_0000_0000
}

/// Sets the 64-bit lane `i` of a 16-byte array to `x`, keeping the other
/// bytes.
fn set64(v: &mut [u8; 16], i: usize, x: u64)
    requires
        i < 2,
    ensures
        lane64(final(v)@, i as int) == x,
        forall|k: int| 0 <= k < 16 && !(8 * i <= k < 8 * i + 8) ==> final(v)@[k] == old(v)@[k],
{
    set32(v, 2 * i, (x % 0x1_0000_0000) as u32);
    set32(v, 2 * i + 1, (x / 0x1_0000_0000) as u32);
}

// ---------------------------------------------------------------------------
// Exec lane operations
// ---------------------------------------------------------------------------

/// One lane of `op` on lanes of 1 byte(s).
fn op2_u8(op: Op2, x: u8, y: u8) -> (r: u8)
    ensures
        r as int == op2(op, 1, x as int, y as int),
{
    reveal(op2);
    let sx: i16 = if x < 0x80 { x as i16 } else { x as i16 - 0x100i16 };
    let sy: i16 = if y < 0x80 { y as i16 } else { y as i16 - 0x100i16 };
    match op {
        Op2::And => x & y,
        Op2::Or => x | y,
        Op2::Xor => x ^ y,
        Op2::AndNot => x & !y,
        Op2::Add => ((x as u16 + y as u16) % 0x100) as u8,
        Op2::Sub => ((x as u16 + (0x100u16 - y as u16)) % 0x100) as u8,
        Op2::SubSatU => if x >= y { x - y } else { 0 },
        Op2::SubSatS => {
            let d: i16 = sx - sy;
            let c: i16 = if d < -0x80i16 { -0x80i16 } else if d > 0x80i16 - 1 { 0x80i16 - 1 } else { d };
            if c < 0 { (c + 0x100i16) as u8 } else { c as u8 }
        },
        Op2::Eq => if x == y { u8::MAX } else { 0 },
        Op2::LtU => if x < y { u8::MAX } else { 0 },
        Op2::LtS => if sx < sy { u8::MAX } else { 0 },
        Op2::MaxU => if x >= y { x } else { y },
        Op2::MaxS => if sx >= sy { x } else { y },
        Op2::MinU => if x <= y { x } else { y },
        Op2::MinS => if sx <= sy { x } else { y },
        Op2::MulLo => {
            assert((x as int) * (y as int) < 0x100 * 0x100) by (nonlinear_arith)
                requires x < 0x100, y < 0x100;
            ((x as u16 * y as u16) % 0x100) as u8
        },

    }
}

/// One lane of `op` on lanes of 2 byte(s).
fn op2_u16(op: Op2, x: u16, y: u16) -> (r: u16)
    requires
        !is_bitwise(op),
    ensures
        r as int == op2(op, 2, x as int, y as int),
{
    reveal(op2);
    let sx: i32 = if x < 0x8000 { x as i32 } else { x as i32 - 0x1_0000i32 };
    let sy: i32 = if y < 0x8000 { y as i32 } else { y as i32 - 0x1_0000i32 };
    match op {
        Op2::Add => ((x as u32 + y as u32) % 0x1_0000) as u16,
        Op2::Sub => ((x as u32 + (0x1_0000u32 - y as u32)) % 0x1_0000) as u16,
        Op2::SubSatU => if x >= y { x - y } else { 0 },
        Op2::SubSatS => {
            let d: i32 = sx - sy;
            let c: i32 = if d < -0x8000i32 { -0x8000i32 } else if d > 0x8000i32 - 1 { 0x8000i32 - 1 } else { d };
            if c < 0 { (c + 0x1_0000i32) as u16 } else { c as u16 }
        },
        Op2::Eq => if x == y { u16::MAX } else { 0 },
        Op2::LtU => if x < y { u16::MAX } else { 0 },
        Op2::LtS => if sx < sy { u16::MAX } else { 0 },
        Op2::MaxU => if x >= y { x } else { y },
        Op2::MaxS => if sx >= sy { x } else { y },
        Op2::MinU => if x <= y { x } else { y },
        Op2::MinS => if sx <= sy { x } else { y },
        Op2::MulLo => {
            assert((x as int) * (y as int) < 0x1_0000 * 0x1_0000) by (nonlinear_arith)
                requires x < 0x1_0000, y < 0x1_0000;
            ((x as u32 * y as u32) % 0x1_0000) as u16
        },
        _ => 0,
    }
}

/// One lane of `op` on lanes of 4 byte(s).
fn op2_u32(op: Op2, x: u32, y: u32) -> (r: u32)
    requires
        !is_bitwise(op),
    ensures
        r as int == op2(op, 4, x as int, y as int),
{
    reveal(op2);
    let sx: i64 = if x < 0x8000_0000 { x as i64 } else { x as i64 - 0x1_0000_0000i64 };
    let sy: i64 = if y < 0x8000_0000 { y as i64 } else { y as i64 - 0x1_0000_0000i64 };
    match op {
        Op2::Add => ((x as u64 + y as u64) % 0x1_0000_0000) as u32,
        Op2::Sub => ((x as u64 + (0x1_0000_0000u64 - y as u64)) % 0x1_0000_0000) as u32,
        Op2::SubSatU => if x >= y { x - y } else { 0 },
        Op2::SubSatS => {
            let d: i64 = sx - sy;
            let c: i64 = if d < -0x8000_0000i64 { -0x8000_0000i64 } else if d > 0x8000_0000i64 - 1 { 0x8000_0000i64 - 1 } else { d };
            if c < 0 { (c + 0x1_0000_0000i64) as u32 } else { c as u32 }
        },
        Op2::Eq => if x == y { u32::MAX } else { 0 },
        Op2::LtU => if x < y { u32::MAX } else { 0 },
        Op2::LtS => if sx < sy { u32::MAX } else { 0 },
        Op2::MaxU => if x >= y { x } else { y },
        Op2::MaxS => if sx >= sy { x } else { y },
        Op2::MinU => if x <= y { x } else { y },
        Op2::MinS => if sx <= sy { x } else { y },
        Op2::MulLo => {
            assert((x as int) * (y as int) < 0x1_0000_0000 * 0x1_0000_0000) by (nonlinear_arith)
                requires x < 0x1_0000_0000, y < 0x1_0000_0000;
            ((x as u64 * y as u64) % 0x1_0000_0000) as u32
        },
        _ => 0,
    }
}

/// One lane of `op` on lanes of 8 byte(s).
fn op2_u64(op: Op2, x: u64, y: u64) -> (r: u64)
    requires
        !is_bitwise(op),
    ensures
        r as int == op2(op, 8, x as int, y as int),
{
    reveal(op2);
    let sx: i128 = if x < 0x8000_0000_0000_0000 { x as i128 } else { x as i128 - 0x1_0000_0000_0000_0000i128 };
    let sy: i128 = if y < 0x8000_0000_0000_0000 { y as i128 } else { y as i128 - 0x1_0000_0000_0000_0000i128 };
    match op {
        Op2::Add => ((x as u128 + y as u128) % 0x1_0000_0000_0000_0000) as u64,
        Op2::Sub => ((x as u128 + (0x1_0000_0000_0000_0000u128 - y as u128)) % 0x1_0000_0000_0000_0000) as u64,
        Op2::SubSatU => if x >= y { x - y } else { 0 },
        Op2::SubSatS => {
            let d: i128 = sx - sy;
            let c: i128 = if d < -0x8000_0000_0000_0000i128 { -0x8000_0000_0000_0000i128 } else if d > 0x8000_0000_0000_0000i128 - 1 { 0x8000_0000_0000_0000i128 - 1 } else { d };
            if c < 0 { (c + 0x1_0000_0000_0000_0000i128) as u64 } else { c as u64 }
        },
        Op2::Eq => if x == y { u64::MAX } else { 0 },
        Op2::LtU => if x < y { u64::MAX } else { 0 },
        Op2::LtS => if sx < sy { u64::MAX } else { 0 },
        Op2::MaxU => if x >= y { x } else { y },
        Op2::MaxS => if sx >= sy { x } else { y },
        Op2::MinU => if x <= y { x } else { y },
        Op2::MinS => if sx <= sy { x } else { y },
        Op2::MulLo => {
            assert((x as int) * (y as int) < 0x1_0000_0000_0000_0000 * 0x1_0000_0000_0000_0000) by (nonlinear_arith)
                requires x < 0x1_0000_0000_0000_0000, y < 0x1_0000_0000_0000_0000;
            ((x as u128 * y as u128) % 0x1_0000_0000_0000_0000) as u64
        },
        _ => 0,
    }
}


// ---------------------------------------------------------------------------
// Lane-wise maps over 128-bit vectors
// ---------------------------------------------------------------------------

/// Applies `op` to each pair of lanes of 1 byte(s).
pub fn map2_u8(op: Op2, a: &V128, b: &V128) -> (r: V128)
    ensures
        lanes2(op, 1, a@, b@, r@),
{
    proof {
        reveal(lane);
    }
    let mut out = [0u8; 16];
    let mut i: usize = 0;
    while i < 16
        invariant
            i <= 16,
            forall|j: int| 0 <= j < i ==> out@[j] as int == op2(op, 1, a@[j] as int, b@[j] as int),
        decreases 16 - i,
    {
        let z = op2_u8(op, a.0[i], b.0[i]);
        out[i] = z;
        i += 1;
    }
    V128(out)
}

/// Applies `op` to each pair of lanes of 2 byte(s).
pub fn map2_u16(op: Op2, a: &V128, b: &V128) -> (r: V128)
    requires
        !is_bitwise(op),
    ensures
        lanes2(op, 2, a@, b@, r@),
{
    proof {
        reveal(lane);
    }
    let mut out = [0u8; 16];
    let mut i: usize = 0;
    while i < 8
        invariant
            i <= 8,
            !is_bitwise(op),
            forall|j: int| 0 <= j < i ==> lane16(out@, j) == op2(op, 2, lane16(a@, j), lane16(b@, j)),
        decreases 8 - i,
    {
        let z = op2_u16(op, get16(&a.0, i), get16(&b.0, i));
        let ghost prev = out@;
        set16(&mut out, i, z);
        assert forall|j: int| 0 <= j < i implies lane16(out@, j) == op2(op, 2, lane16(a@, j), lane16(b@, j)) by {
            assert(out@[2 * j + 0] == prev[2 * j + 0]); assert(out@[2 * j + 1] == prev[2 * j + 1]);
            assert(lane16(prev, j) == op2(op, 2, lane16(a@, j), lane16(b@, j)));
        }
        i += 1;
    }
    V128(out)
}

/// Applies `op` to each pair of lanes of 4 byte(s).
pub fn map2_u32(op: Op2, a: &V128, b: &V128) -> (r: V128)
    requires
        !is_bitwise(op),
    ensures
        lanes2(op, 4, a@, b@, r@),
{
    proof {
        reveal(lane);
    }
    let mut out = [0u8; 16];
    let mut i: usize = 0;
    while i < 4
        invariant
            i <= 4,
            !is_bitwise(op),
            forall|j: int| 0 <= j < i ==> lane32(out@, j) == op2(op, 4, lane32(a@, j), lane32(b@, j)),
        decreases 4 - i,
    {
        let z = op2_u32(op, get32(&a.0, i), get32(&b.0, i));
        let ghost prev = out@;
        set32(&mut out, i, z);
        assert forall|j: int| 0 <= j < i implies lane32(out@, j) == op2(op, 4, lane32(a@, j), lane32(b@, j)) by {
            assert(out@[4 * j + 0] == prev[4 * j + 0]); assert(out@[4 * j + 1] == prev[4 * j + 1]); assert(out@[4 * j + 2] == prev[4 * j + 2]); assert(out@[4 * j + 3] == prev[4 * j + 3]);
            assert(lane32(prev, j) == op2(op, 4, lane32(a@, j), lane32(b@, j)));
        }
        i += 1;
    }
    V128(out)
}

/// Applies `op` to each pair of lanes of 8 byte(s).
pub fn map2_u64(op: Op2, a: &V128, b: &V128) -> (r: V128)
    requires
        !is_bitwise(op),
    ensures
        lanes2(op, 8, a@, b@, r@),
{
    proof {
        reveal(lane);
    }
    let mut out = [0u8; 16];
    let mut i: usize = 0;
    while i < 2
        invariant
            i <= 2,
            !is_bitwise(op),
            forall|j: int| 0 <= j < i ==> lane64(out@, j) == op2(op, 8, lane64(a@, j), lane64(b@, j)),
        decreases 2 - i,
    {
        let z = op2_u64(op, get64(&a.0, i), get64(&b.0, i));
        let ghost prev = out@;
        set64(&mut out, i, z);
        assert forall|j: int| 0 <= j < i implies lane64(out@, j) == op2(op, 8, lane64(a@, j), lane64(b@, j)) by {
            assert(out@[8 * j + 0] == prev[8 * j + 0]); assert(out@[8 * j + 1] == prev[8 * j + 1]); assert(out@[8 * j + 2] == prev[8 * j + 2]); assert(out@[8 * j + 3] == prev[8 * j + 3]); assert(out@[8 * j + 4] == prev[8 * j + 4]); assert(out@[8 * j + 5] == prev[8 * j + 5]); assert(out@[8 * j + 6] == prev[8 * j + 6]); assert(out@[8 * j + 7] == prev[8 * j + 7]);
            assert(lane64(prev, j) == op2(op, 8, lane64(a@, j), lane64(b@, j)));
        }
        i += 1;
    }
    V128(out)
}




// ---------------------------------------------------------------------------
// Unary lane operations, splats, byte reversal, shuffles and zero tests
// ---------------------------------------------------------------------------

/// The unary operations that make sense on lanes of `w` bytes.
pub open spec fn op1_ok(op: Op1, w: int) -> bool {
    match op {
        Op1::Not => w == 1,
        Op1::Shl(n) => n < 8 * w,
        Op1::Shr(n) => n < 8 * w,
    }
}

/// `op` on one 16-bit value.
fn op1_u16(op: Op1, x: u16) -> (r: u16)
    requires
        op1_ok(op, 2),
    ensures
        r as int == op1(op, 2, x as int),
{
    reveal(op1);
    match op {
        Op1::Shl(n) => {
            let y: u32 = (x as u32) << n;
            proof {
                lemma_pow2_strictly_increases(n as nat, 16);
                lemma2_to64();
                assert((x as int) * pow2(n as nat) <= 0xffff * 0x1_0000) by (nonlinear_arith)
                    requires
                        x <= 0xffff,
                        pow2(n as nat) <= 0x1_0000,
                ;
                lemma_u32_shl_is_mul(x as u32, n);
            }
            (y % 0x1_0000) as u16
        },
        Op1::Shr(n) => {
            proof {
                lemma_u16_shr_is_div(x, n as u16);
            }
            x >> (n as u16)
        },
        Op1::Not => 0,
    }
}

/// `op` on one 32-bit value.
fn op1_u32(op: Op1, x: u32) -> (r: u32)
    requires
        op1_ok(op, 4),
    ensures
        r as int == op1(op, 4, x as int),
{
    reveal(op1);
    match op {
        Op1::Shl(n) => {
            let y: u64 = (x as u64) << (n as u64);
            proof {
                lemma_pow2_strictly_increases(n as nat, 32);
                lemma2_to64();
                assert((x as int) * pow2(n as nat) <= 0xffff_ffff * 0x1_0000_0000) by (nonlinear_arith)
                    requires
                        x <= 0xffff_ffff,
                        pow2(n as nat) <= 0x1_0000_0000,
                ;
                lemma_u64_shl_is_mul(x as u64, n as u64);
            }
            (y % 0x1_0000_0000) as u32
        },
        Op1::Shr(n) => {
            proof {
                lemma_u32_shr_is_div(x, n);
            }
            x >> n
        },
        Op1::Not => 0,
    }
}

/// Complements every byte.
pub fn map1_not(a: &V128) -> (r: V128)
    ensures
        lanes1(Op1::Not, 1, a@, r@),
{
    proof {
        reveal(lane);
    }
    let mut out = [0u8; 16];
    let mut i: usize = 0;
    while i < 16
        invariant
            i <= 16,
            forall|j: int| 0 <= j < i ==> out@[j] as int == op1(Op1::Not, 1, a@[j] as int),
        decreases 16 - i,
    {
        proof {
            reveal(op1);
        }
        out[i] = !a.0[i];
        i += 1;
    }
    V128(out)
}

/// Applies `op` to each 16-bit lane.
pub fn map1_u16(op: Op1, a: &V128) -> (r: V128)
    requires
        op1_ok(op, 2),
    ensures
        lanes1(op, 2, a@, r@),
{
    proof {
        reveal(lane);
    }
    let mut out = [0u8; 16];
    let mut i: usize = 0;
    while i < 8
        invariant
            i <= 8,
            op1_ok(op, 2),
            forall|j: int| 0 <= j < i ==> lane16(out@, j) == op1(op, 2, lane16(a@, j)),
        decreases 8 - i,
    {
        let z = op1_u16(op, get16(&a.0, i));
        let ghost prev = out@;
        set16(&mut out, i, z);
        assert forall|j: int| 0 <= j < i implies lane16(out@, j) == op1(op, 2, lane16(a@, j)) by {
            assert(out@[2 * j] == prev[2 * j]);
            assert(out@[2 * j + 1] == prev[2 * j + 1]);
            assert(lane16(prev, j) == op1(op, 2, lane16(a@, j)));
        }
        i += 1;
    }
    V128(out)
}

/// Applies `op` to each 32-bit lane.
pub fn map1_u32(op: Op1, a: &V128) -> (r: V128)
    requires
        op1_ok(op, 4),
    ensures
        lanes1(op, 4, a@, r@),
{
    proof {
        reveal(lane);
    }
    let mut out = [0u8; 16];
    let mut i: usize = 0;
    while i < 4
        invariant
            i <= 4,
            op1_ok(op, 4),
            forall|j: int| 0 <= j < i ==> lane32(out@, j) == op1(op, 4, lane32(a@, j)),
        decreases 4 - i,
    {
        let z = op1_u32(op, get32(&a.0, i));
        let ghost prev = out@;
        set32(&mut out, i, z);
        assert forall|j: int| 0 <= j < i implies lane32(out@, j) == op1(op, 4, lane32(a@, j)) by {
            assert(out@[4 * j] == prev[4 * j]);
            assert(out@[4 * j + 1] == prev[4 * j + 1]);
            assert(out@[4 * j + 2] == prev[4 * j + 2]);
            assert(out@[4 * j + 3] == prev[4 * j + 3]);
            assert(lane32(prev, j) == op1(op, 4, lane32(a@, j)));
        }
        i += 1;
    }
    V128(out)
}

/// A vector whose bytes are all `x`.
pub fn splat_u8(x: u8) -> (r: V128)
    ensures
        splat(1, x as int, r@),
{
    proof {
        reveal(lane);
    }
    V128([x; 16])
}

/// A vector whose 16-bit lanes are all `x`.
pub fn splat_u16(x: u16) -> (r: V128)
    ensures
        splat(2, x as int, r@),
{
    proof {
        reveal(lane);
    }
    let mut out = [0u8; 16];
    let mut i: usize = 0;
    while i < 8
        invariant
            i <= 8,
            forall|j: int| 0 <= j < i ==> lane16(out@, j) == x,
        decreases 8 - i,
    {
        let ghost prev = out@;
        set16(&mut out, i, x);
        assert forall|j: int| 0 <= j < i implies lane16(out@, j) == x by {
            assert(out@[2 * j] == prev[2 * j]);
            assert(out@[2 * j + 1] == prev[2 * j + 1]);
            assert(lane16(prev, j) == x);
        }
        i += 1;
    }
    V128(out)
}

/// A vector whose 32-bit lanes are all `x`.
pub fn splat_u32(x: u32) -> (r: V128)
    ensures
        splat(4, x as int, r@),
{
    proof {
        reveal(lane);
    }
    let mut out = [0u8; 16];
    let mut i: usize = 0;
    while i < 4
        invariant
            i <= 4,
            forall|j: int| 0 <= j < i ==> lane32(out@, j) == x,
        decreases 4 - i,
    {
        let ghost prev = out@;
        set32(&mut out, i, x);
        assert forall|j: int| 0 <= j < i implies lane32(out@, j) == x by {
            assert(out@[4 * j] == prev[4 * j]);
            assert(out@[4 * j + 1] == prev[4 * j + 1]);
            assert(out@[4 * j + 2] == prev[4 * j + 2]);
            assert(out@[4 * j + 3] == prev[4 * j + 3]);
            assert(lane32(prev, j) == x);
        }
        i += 1;
    }
    V128(out)
}

/// A vector whose 64-bit lanes are both `x`.
pub fn splat_u64(x: u64) -> (r: V128)
    ensures
        splat(8, x as int, r@),
{
    proof {
        reveal(lane);
    }
    let mut out = [0u8; 16];
    set64(&mut out, 0, x);
    let ghost first = out@;
    set64(&mut out, 1, x);
    assert(lane64(out@, 0) == lane64(first, 0)) by {
        assert(out@[0] == first[0]);
        assert(out@[1] == first[1]);
        assert(out@[2] == first[2]);
        assert(out@[3] == first[3]);
        assert(out@[4] == first[4]);
        assert(out@[5] == first[5]);
        assert(out@[6] == first[6]);
        assert(out@[7] == first[7]);
    }
    V128(out)
}

/// Reverses the byte order within each lane of `w` bytes.
pub fn reverse_lane_bytes(w: usize, a: &V128) -> (r: V128)
    requires
        w == 2 || w == 4 || w == 8,
    ensures
        bytes_reversed_in_lanes(w as int, a@, r@),
{
    let mut out = [0u8; 16];
    let mut i: usize = 0;
    while i < 16
        invariant
            i <= 16,
            w == 2 || w == 4 || w == 8,
            forall|j: int| 0 <= j < i ==> #[trigger] out@[j] == a@[j + w - 1 - 2 * (j % (w as int))],
        decreases 16 - i,
    {
        let k = i % w;
        proof {
            if w == 2 {
            } else if w == 4 {
            } else {
            }
        }
        out[i] = a.0[i + w - 1 - 2 * k];
        i += 1;
    }
    V128(out)
}

/// Shuffles the bytes of `a` by the indices in `b`; an index of 16 or more
/// gives zero.
pub fn shuffle_bytes(a: &V128, b: &V128) -> (r: V128)
    ensures
        swizzled(a@, b@, r@),
        forall|i: int| 0 <= i < 16 && b@[i] >= 16 ==> r@[i] == 0,
{
    let mut out = [0u8; 16];
    let mut i: usize = 0;
    while i < 16
        invariant
            i <= 16,
            forall|j: int|
                0 <= j < i ==> #[trigger] out@[j] == if b@[j] < 16 {
                    a@[b@[j] as int]
                } else {
                    0
                },
        decreases 16 - i,
    {
        let k = b.0[i];
        out[i] = if k < 16 {
            a.0[k as usize]
        } else {
            0
        };
        i += 1;
    }
    V128(out)
}

/// Whether all bytes of `a` are zero.
pub fn test_all_zero(a: &V128) -> (r: bool)
    ensures
        r == all_zero(a@),
{
    let mut i: usize = 0;
    while i < 16
        invariant
            i <= 16,
            forall|j: int| 0 <= j < i ==> a@[j] == 0,
        decreases 16 - i,
    {
        if a.0[i] != 0 {
            return false;
        }
        i += 1;
    }
    true
}

/// Whether some byte of `a` is zero.
pub fn test_any_zero(a: &V128) -> (r: bool)
    ensures
        r == any_zero(a@),
{
    let mut i: usize = 0;
    while i < 16
        invariant
            i <= 16,
            forall|j: int| 0 <= j < i ==> a@[j] != 0,
        decreases 16 - i,
    {
        if a.0[i] == 0 {
            assert(a@[i as int] == 0);
            return true;
        }
        i += 1;
    }
    false
}

// ---------------------------------------------------------------------------
// Lanes of concatenated vectors
// ---------------------------------------------------------------------------



/// A lane of 1 byte(s) of `x + y` is a lane of `x` or of `y`.
pub proof fn lemma_lane_concat_1(x: Seq<u8>, y: Seq<u8>, i: int)
    requires
        x.len() % 16 == 0,
        y.len() % 16 == 0,
        0 <= i,
        1 * i < x.len() + y.len(),
    ensures
        1 * i < x.len() ==> lane(1, x + y, i) == lane(1, x, i),
        1 * i >= x.len() ==> lane(1, x + y, i) == lane(1, y, i - x.len() / 1),
{
    reveal(lane);
}

/// Lane-wise results of a binary operation on lanes of 1 byte(s) combine
/// over concatenated halves.
pub proof fn lemma_lanes2_concat_1(
    op: Op2,
    a1: Seq<u8>,
    b1: Seq<u8>,
    r1: Seq<u8>,
    a2: Seq<u8>,
    b2: Seq<u8>,
    r2: Seq<u8>,
)
    requires
        a1.len() % 16 == 0,
        a2.len() % 16 == 0,
        lanes2(op, 1, a1, b1, r1),
        lanes2(op, 1, a2, b2, r2),
    ensures
        lanes2(op, 1, a1 + a2, b1 + b2, r1 + r2),
{
    assert forall|i: int| 0 <= i < (a1 + a2).len() as int / 1 implies #[trigger] lane(1, r1 + r2, i)
        == op2(op, 1, lane(1, a1 + a2, i), lane(1, b1 + b2, i)) by {
        lemma_lane_concat_1(r1, r2, i);
        lemma_lane_concat_1(a1, a2, i);
        lemma_lane_concat_1(b1, b2, i);
        if 1 * i < a1.len() {
            assert(lane(1, r1, i) == op2(op, 1, lane(1, a1, i), lane(1, b1, i)));
        } else {
            let k = i - a1.len() as int / 1;
            assert(lane(1, r2, k) == op2(op, 1, lane(1, a2, k), lane(1, b2, k)));
        }
    }
}

/// Lane-wise results of a unary operation on lanes of 1 byte(s) combine over
/// concatenated halves.
pub proof fn lemma_lanes1_concat_1(op: Op1, a1: Seq<u8>, r1: Seq<u8>, a2: Seq<u8>, r2: Seq<u8>)
    requires
        a1.len() % 16 == 0,
        a2.len() % 16 == 0,
        lanes1(op, 1, a1, r1),
        lanes1(op, 1, a2, r2),
    ensures
        lanes1(op, 1, a1 + a2, r1 + r2),
{
    assert forall|i: int| 0 <= i < (a1 + a2).len() as int / 1 implies #[trigger] lane(1, r1 + r2, i)
        == op1(op, 1, lane(1, a1 + a2, i)) by {
        lemma_lane_concat_1(r1, r2, i);
        lemma_lane_concat_1(a1, a2, i);
        if 1 * i < a1.len() {
            assert(lane(1, r1, i) == op1(op, 1, lane(1, a1, i)));
        } else {
            let k = i - a1.len() as int / 1;
            assert(lane(1, r2, k) == op1(op, 1, lane(1, a2, k)));
        }
    }
}

/// Splatted halves give a splatted concatenation.
pub proof fn lemma_splat_concat_1(x: int, r1: Seq<u8>, r2: Seq<u8>)
    requires
        r1.len() % 16 == 0,
        r2.len() % 16 == 0,
        splat(1, x, r1),
        splat(1, x, r2),
    ensures
        splat(1, x, r1 + r2),
{
    assert forall|i: int| 0 <= i < (r1 + r2).len() as int / 1 implies #[trigger] lane(1, r1 + r2, i) == x by {
        lemma_lane_concat_1(r1, r2, i);
        if 1 * i < r1.len() {
            assert(lane(1, r1, i) == x);
        } else {
            let k = i - r1.len() as int / 1;
            assert(lane(1, r2, k) == x);
        }
    }
}

/// A lane of 2 byte(s) of `x + y` is a lane of `x` or of `y`.
pub proof fn lemma_lane_concat_2(x: Seq<u8>, y: Seq<u8>, i: int)
    requires
        x.len() % 16 == 0,
        y.len() % 16 == 0,
        0 <= i,
        2 * i < x.len() + y.len(),
    ensures
        2 * i < x.len() ==> lane(2, x + y, i) == lane(2, x, i),
        2 * i >= x.len() ==> lane(2, x + y, i) == lane(2, y, i - x.len() / 2),
{
    reveal(lane);
}

/// Lane-wise results of a binary operation on lanes of 2 byte(s) combine
/// over concatenated halves.
pub proof fn lemma_lanes2_concat_2(
    op: Op2,
    a1: Seq<u8>,
    b1: Seq<u8>,
    r1: Seq<u8>,
    a2: Seq<u8>,
    b2: Seq<u8>,
    r2: Seq<u8>,
)
    requires
        a1.len() % 16 == 0,
        a2.len() % 16 == 0,
        lanes2(op, 2, a1, b1, r1),
        lanes2(op, 2, a2, b2, r2),
    ensures
        lanes2(op, 2, a1 + a2, b1 + b2, r1 + r2),
{
    assert forall|i: int| 0 <= i < (a1 + a2).len() as int / 2 implies #[trigger] lane(2, r1 + r2, i)
        == op2(op, 2, lane(2, a1 + a2, i), lane(2, b1 + b2, i)) by {
        lemma_lane_concat_2(r1, r2, i);
        lemma_lane_concat_2(a1, a2, i);
        lemma_lane_concat_2(b1, b2, i);
        if 2 * i < a1.len() {
            assert(lane(2, r1, i) == op2(op, 2, lane(2, a1, i), lane(2, b1, i)));
        } else {
            let k = i - a1.len() as int / 2;
            assert(lane(2, r2, k) == op2(op, 2, lane(2, a2, k), lane(2, b2, k)));
        }
    }
}

/// Lane-wise results of a unary operation on lanes of 2 byte(s) combine over
/// concatenated halves.
pub proof fn lemma_lanes1_concat_2(op: Op1, a1: Seq<u8>, r1: Seq<u8>, a2: Seq<u8>, r2: Seq<u8>)
    requires
        a1.len() % 16 == 0,
        a2.len() % 16 == 0,
        lanes1(op, 2, a1, r1),
        lanes1(op, 2, a2, r2),
    ensures
        lanes1(op, 2, a1 + a2, r1 + r2),
{
    assert forall|i: int| 0 <= i < (a1 + a2).len() as int / 2 implies #[trigger] lane(2, r1 + r2, i)
        == op1(op, 2, lane(2, a1 + a2, i)) by {
        lemma_lane_concat_2(r1, r2, i);
        lemma_lane_concat_2(a1, a2, i);
        if 2 * i < a1.len() {
            assert(lane(2, r1, i) == op1(op, 2, lane(2, a1, i)));
        } else {
            let k = i - a1.len() as int / 2;
            assert(lane(2, r2, k) == op1(op, 2, lane(2, a2, k)));
        }
    }
}

/// Splatted halves give a splatted concatenation.
pub proof fn lemma_splat_concat_2(x: int, r1: Seq<u8>, r2: Seq<u8>)
    requires
        r1.len() % 16 == 0,
        r2.len() % 16 == 0,
        splat(2, x, r1),
        splat(2, x, r2),
    ensures
        splat(2, x, r1 + r2),
{
    assert forall|i: int| 0 <= i < (r1 + r2).len() as int / 2 implies #[trigger] lane(2, r1 + r2, i) == x by {
        lemma_lane_concat_2(r1, r2, i);
        if 2 * i < r1.len() {
            assert(lane(2, r1, i) == x);
        } else {
            let k = i - r1.len() as int / 2;
            assert(lane(2, r2, k) == x);
        }
    }
}

/// The bytes of a 32-bit value, least significant first.
pub proof fn lemma_u32_bytes(u: u32)
    ensures
        ((u & 0xff) as u8) + 256 * (((u >> 8u32) & 0xff) as u8) + 0x1_0000 * ((((u >> 16u32) & 0xff) as u8)
            + 256 * ((u >> 24u32) as u8)) == u,
{
    lemma_u32_bits(u, 0, 0, 0, 0);
}

/// The bytes of a 16-bit value, least significant first.
pub proof fn lemma_u16_bytes(u: u16)
    ensures
        ((u & 0xff) as u8) + 256 * ((u >> 8u16) as u8) == u,
{
    lemma_u16_bits(u, 0, 0);
}

/// The bytes of a 64-bit value, least significant first.
pub proof fn lemma_u64_bytes(u: u64)
    ensures
        ((u & 0xff) as u8) + 0x100 * (((u >> 8u64) & 0xff) as u8) + 0x1_0000 * (((u >> 16u64) & 0xff) as u8)
            + 0x100_0000 * (((u >> 24u64) & 0xff) as u8) + 0x1_0000_0000 * ((((u >> 32u64) & 0xff) as u8) + 0x100
            * (((u >> 40u64) & 0xff) as u8) + 0x1_0000 * (((u >> 48u64) & 0xff) as u8) + 0x100_0000 * ((u
            >> 56u64) as u8)) == u,
{
    lemma_u64_bits(u);
}

/// Digits in base `base` are unique.
pub proof fn lemma_digits(a: int, b: int, c: int, d: int, base: int)
    by (nonlinear_arith)
    requires
        0 <= a < base,
        0 <= c < base,
        a + base * b == c + base * d,
    ensures
        a == c,
        b == d,
{
}

/// Byte `i` of `a`.
pub fn v256_byte(a: &V256, i: usize) -> (r: u8)
    requires
        i < 32,
    ensures
        r == a@[i as int],
{
    if i < 16 {
        a.lo.0[i]
    } else {
        a.hi.0[i - 16]
    }
}

/// The vector holding the 32 bytes `b`.
pub fn v256_from_bytes(b: [u8; 32]) -> (r: V256)
    ensures
        r@ == b@,
{
    let mut lo = [0u8; 16];
    let mut hi = [0u8; 16];
    let mut i: usize = 0;
    while i < 16
        invariant
            i <= 16,
            forall|j: int| 0 <= j < i ==> lo@[j] == b@[j] && hi@[j] == b@[j + 16],
        decreases 16 - i,
    {
        lo[i] = b[i];
        hi[i] = b[i + 16];
        i += 1;
    }
    let r = V256 { lo: V128(lo), hi: V128(hi) };
    assert(r@ =~= b@);
    r
}

/// A lane of 4 byte(s) of `x + y` is a lane of `x` or of `y`.
pub proof fn lemma_lane_concat_4(x: Seq<u8>, y: Seq<u8>, i: int)
    requires
        x.len() % 16 == 0,
        y.len() % 16 == 0,
        0 <= i,
        4 * i < x.len() + y.len(),
    ensures
        4 * i < x.len() ==> lane(4, x + y, i) == lane(4, x, i),
        4 * i >= x.len() ==> lane(4, x + y, i) == lane(4, y, i - x.len() / 4),
{
    reveal(lane);
}

/// Lane-wise results of a binary operation on lanes of 4 byte(s) combine
/// over concatenated halves.
pub proof fn lemma_lanes2_concat_4(
    op: Op2,
    a1: Seq<u8>,
    b1: Seq<u8>,
    r1: Seq<u8>,
    a2: Seq<u8>,
    b2: Seq<u8>,
    r2: Seq<u8>,
)
    requires
        a1.len() % 16 == 0,
        a2.len() % 16 == 0,
        lanes2(op, 4, a1, b1, r1),
        lanes2(op, 4, a2, b2, r2),
    ensures
        lanes2(op, 4, a1 + a2, b1 + b2, r1 + r2),
{
    assert forall|i: int| 0 <= i < (a1 + a2).len() as int / 4 implies #[trigger] lane(4, r1 + r2, i)
        == op2(op, 4, lane(4, a1 + a2, i), lane(4, b1 + b2, i)) by {
        lemma_lane_concat_4(r1, r2, i);
        lemma_lane_concat_4(a1, a2, i);
        lemma_lane_concat_4(b1, b2, i);
        if 4 * i < a1.len() {
            assert(lane(4, r1, i) == op2(op, 4, lane(4, a1, i), lane(4, b1, i)));
        } else {
            let k = i - a1.len() as int / 4;
            assert(lane(4, r2, k) == op2(op, 4, lane(4, a2, k), lane(4, b2, k)));
        }
    }
}

/// Lane-wise results of a unary operation on lanes of 4 byte(s) combine over
/// concatenated halves.
pub proof fn lemma_lanes1_concat_4(op: Op1, a1: Seq<u8>, r1: Seq<u8>, a2: Seq<u8>, r2: Seq<u8>)
    requires
        a1.len() % 16 == 0,
        a2.len() % 16 == 0,
        lanes1(op, 4, a1, r1),
        lanes1(op, 4, a2, r2),
    ensures
        lanes1(op, 4, a1 + a2, r1 + r2),
{
    assert forall|i: int| 0 <= i < (a1 + a2).len() as int / 4 implies #[trigger] lane(4, r1 + r2, i)
        == op1(op, 4, lane(4, a1 + a2, i)) by {
        lemma_lane_concat_4(r1, r2, i);
        lemma_lane_concat_4(a1, a2, i);
        if 4 * i < a1.len() {
            assert(lane(4, r1, i) == op1(op, 4, lane(4, a1, i)));
        } else {
            let k = i - a1.len() as int / 4;
            assert(lane(4, r2, k) == op1(op, 4, lane(4, a2, k)));
        }
    }
}

/// Splatted halves give a splatted concatenation.
pub proof fn lemma_splat_concat_4(x: int, r1: Seq<u8>, r2: Seq<u8>)
    requires
        r1.len() % 16 == 0,
        r2.len() % 16 == 0,
        splat(4, x, r1),
        splat(4, x, r2),
    ensures
        splat(4, x, r1 + r2),
{
    assert forall|i: int| 0 <= i < (r1 + r2).len() as int / 4 implies #[trigger] lane(4, r1 + r2, i) == x by {
        lemma_lane_concat_4(r1, r2, i);
        if 4 * i < r1.len() {
            assert(lane(4, r1, i) == x);
        } else {
            let k = i - r1.len() as int / 4;
            assert(lane(4, r2, k) == x);
        }
    }
}

/// A lane of 8 byte(s) of `x + y` is a lane of `x` or of `y`.
#[verifier::rlimit(40)]
pub proof fn lemma_lane_concat_8(x: Seq<u8>, y: Seq<u8>, i: int)
    requires
        x.len() % 16 == 0,
        y.len() % 16 == 0,
        0 <= i,
        8 * i < x.len() + y.len(),
    ensures
        8 * i < x.len() ==> lane(8, x + y, i) == lane(8, x, i),
        8 * i >= x.len() ==> lane(8, x + y, i) == lane(8, y, i - x.len() / 8),
{
    reveal(lane);
}

/// Lane-wise results of a binary operation on lanes of 8 byte(s) combine
/// over concatenated halves.
pub proof fn lemma_lanes2_concat_8(
    op: Op2,
    a1: Seq<u8>,
    b1: Seq<u8>,
    r1: Seq<u8>,
    a2: Seq<u8>,
    b2: Seq<u8>,
    r2: Seq<u8>,
)
    requires
        a1.len() % 16 == 0,
        a2.len() % 16 == 0,
        lanes2(op, 8, a1, b1, r1),
        lanes2(op, 8, a2, b2, r2),
    ensures
        lanes2(op, 8, a1 + a2, b1 + b2, r1 + r2),
{
    assert forall|i: int| 0 <= i < (a1 + a2).len() as int / 8 implies #[trigger] lane(8, r1 + r2, i)
        == op2(op, 8, lane(8, a1 + a2, i), lane(8, b1 + b2, i)) by {
        lemma_lane_concat_8(r1, r2, i);
        lemma_lane_concat_8(a1, a2, i);
        lemma_lane_concat_8(b1, b2, i);
        if 8 * i < a1.len() {
            assert(lane(8, r1, i) == op2(op, 8, lane(8, a1, i), lane(8, b1, i)));
        } else {
            let k = i - a1.len() as int / 8;
            assert(lane(8, r2, k) == op2(op, 8, lane(8, a2, k), lane(8, b2, k)));
        }
    }
}

/// Splatted halves give a splatted concatenation.
pub proof fn lemma_splat_concat_8(x: int, r1: Seq<u8>, r2: Seq<u8>)
    requires
        r1.len() % 16 == 0,
        r2.len() % 16 == 0,
        splat(8, x, r1),
        splat(8, x, r2),
    ensures
        splat(8, x, r1 + r2),
{
    assert forall|i: int| 0 <= i < (r1 + r2).len() as int / 8 implies #[trigger] lane(8, r1 + r2, i) == x by {
        lemma_lane_concat_8(r1, r2, i);
        if 8 * i < r1.len() {
            assert(lane(8, r1, i) == x);
        } else {
            let k = i - r1.len() as int / 8;
            assert(lane(8, r2, k) == x);
        }
    }
}


/// Byte reversal within lanes of 2 bytes combines over concatenated halves.
pub proof fn lemma_reversed_concat_2(a1: Seq<u8>, r1: Seq<u8>, a2: Seq<u8>, r2: Seq<u8>)
    requires
        a1.len() % 16 == 0,
        a2.len() % 16 == 0,
        bytes_reversed_in_lanes(2, a1, r1),
        bytes_reversed_in_lanes(2, a2, r2),
    ensures
        bytes_reversed_in_lanes(2, a1 + a2, r1 + r2),
{
    let n = a1.len() as int;
    assert forall|i: int| 0 <= i < (a1 + a2).len() implies #[trigger] (r1 + r2)[i] == (a1 + a2)[i + 2 - 1 - 2 * (
    i % 2)] by {
        if i >= n {
            let j = i - n;
            assert(j % 2 == i % 2);
            assert(r2[j] == a2[j + 2 - 1 - 2 * (j % 2)]);
        } else {
            assert(r1[i] == a1[i + 2 - 1 - 2 * (i % 2)]);
        }
    }
}

/// Byte reversal within lanes of 4 bytes combines over concatenated halves.
pub proof fn lemma_reversed_concat_4(a1: Seq<u8>, r1: Seq<u8>, a2: Seq<u8>, r2: Seq<u8>)
    requires
        a1.len() % 16 == 0,
        a2.len() % 16 == 0,
        bytes_reversed_in_lanes(4, a1, r1),
        bytes_reversed_in_lanes(4, a2, r2),
    ensures
        bytes_reversed_in_lanes(4, a1 + a2, r1 + r2),
{
    let n = a1.len() as int;
    assert forall|i: int| 0 <= i < (a1 + a2).len() implies #[trigger] (r1 + r2)[i] == (a1 + a2)[i + 4 - 1 - 2 * (
    i % 4)] by {
        if i >= n {
            let j = i - n;
            assert(j % 4 == i % 4);
            assert(r2[j] == a2[j + 4 - 1 - 2 * (j % 4)]);
        } else {
            assert(r1[i] == a1[i + 4 - 1 - 2 * (i % 4)]);
        }
    }
}

/// Byte reversal within lanes of 8 bytes combines over concatenated halves.
pub proof fn lemma_reversed_concat_8(a1: Seq<u8>, r1: Seq<u8>, a2: Seq<u8>, r2: Seq<u8>)
    requires
        a1.len() % 16 == 0,
        a2.len() % 16 == 0,
        bytes_reversed_in_lanes(8, a1, r1),
        bytes_reversed_in_lanes(8, a2, r2),
    ensures
        bytes_reversed_in_lanes(8, a1 + a2, r1 + r2),
{
    let n = a1.len() as int;
    assert forall|i: int| 0 <= i < (a1 + a2).len() implies #[trigger] (r1 + r2)[i] == (a1 + a2)[i + 8 - 1 - 2 * (
    i % 8)] by {
        if i >= n {
            let j = i - n;
            assert(j % 8 == i % 8);
            assert(r2[j] == a2[j + 8 - 1 - 2 * (j % 8)]);
        } else {
            assert(r1[i] == a1[i + 8 - 1 - 2 * (i % 8)]);
        }
    }
}

/// Block-wise shuffles combine over concatenated halves.
pub proof fn lemma_swizzled_concat(a1: Seq<u8>, b1: Seq<u8>, r1: Seq<u8>, a2: Seq<u8>, b2: Seq<u8>, r2: Seq<u8>)
    requires
        a1.len() % 16 == 0,
        a2.len() % 16 == 0,
        swizzled(a1, b1, r1),
        swizzled(a2, b2, r2),
    ensures
        swizzled(a1 + a2, b1 + b2, r1 + r2),
{
    let n = a1.len() as int;
    assert forall|i: int| 0 <= i < (a1 + a2).len() implies {
        &&& ((b1 + b2)[i] < 16 ==> #[trigger] (r1 + r2)[i] == (a1 + a2)[i - i % 16 + (b1 + b2)[i]])
        &&& ((b1 + b2)[i] >= 128 ==> (r1 + r2)[i] == 0)
        &&& (16 <= (b1 + b2)[i] < 128 ==> ((r1 + r2)[i] == 0 || (r1 + r2)[i] == (a1 + a2)[i - i % 16 + (b1 + b2)[i]
            % 16]))
    } by {
        if i >= n {
            let j = i - n;
            assert(j % 16 == i % 16);
            assert(b2[j] < 16 ==> r2[j] == a2[j - j % 16 + b2[j]]);
            assert(16 <= b2[j] < 128 ==> (r2[j] == 0 || r2[j] == a2[j - j % 16 + b2[j] % 16]));
        } else {
            assert(b1[i] < 16 ==> r1[i] == a1[i - i % 16 + b1[i]]);
            assert(16 <= b1[i] < 128 ==> (r1[i] == 0 || r1[i] == a1[i - i % 16 + b1[i] % 16]));
        }
    }
}

/// Zero halves make a zero concatenation.
pub proof fn lemma_all_zero_concat(x: Seq<u8>, y: Seq<u8>)
    ensures
        all_zero(x + y) <==> (all_zero(x) && all_zero(y)),
{
    if all_zero(x + y) {
        assert forall|i: int| 0 <= i < x.len() implies #[trigger] x[i] == 0 by {
            assert((x + y)[i] == 0);
        }
        assert forall|i: int| 0 <= i < y.len() implies #[trigger] y[i] == 0 by {
            assert((x + y)[x.len() + i] == 0);
        }
    }
}

/// An OR of two bytes is zero exactly when both are.
proof fn lemma_or_zero(x: u8, y: u8)
    ensures
        (x | y) == 0 <==> (x == 0 && y == 0),
{
    lemma_byte_bits(x, y);
}

/// The byte-wise or of two halves is zero exactly when both halves are.
pub proof fn lemma_all_zero_or(x: Seq<u8>, y: Seq<u8>, z: Seq<u8>)
    requires
        lanes2(Op2::Or, 1, x, y, z),
    ensures
        all_zero(z) <==> all_zero(x + y),
{
    reveal(op2);
    reveal(lane);
    lemma_all_zero_concat(x, y);
    assert forall|i: int| 0 <= i < x.len() implies (#[trigger] z[i] == 0 <==> (x[i] == 0 && y[i] == 0)) by {
        assert(lane(1, z, i) == op2(Op2::Or, 1, lane(1, x, i), lane(1, y, i)));
        lemma_or_zero(x[i], y[i]);
    }
    if all_zero(x) && all_zero(y) {
        assert forall|i: int| 0 <= i < z.len() implies #[trigger] z[i] == 0 by {
            assert(x[i] == 0 && y[i] == 0);
        }
    }
    if all_zero(z) {
        assert forall|i: int| 0 <= i < x.len() implies #[trigger] x[i] == 0 by {
            assert(z[i] == 0);
        }
        assert forall|i: int| 0 <= i < y.len() implies #[trigger] y[i] == 0 by {
            assert(z[i] == 0);
        }
    }
}

/// The byte-wise minimum of two halves has a zero exactly when one of the
/// halves has.
pub proof fn lemma_any_zero_min(x: Seq<u8>, y: Seq<u8>, z: Seq<u8>)
    requires
        lanes2(Op2::MinU, 1, x, y, z),
    ensures
        any_zero(z) <==> any_zero(x + y),
{
    reveal(op2);
    reveal(lane);
    if any_zero(z) {
        let i = choose|i: int| 0 <= i < z.len() && #[trigger] z[i] == 0;
        assert(lane(1, z, i) == op2(Op2::MinU, 1, lane(1, x, i), lane(1, y, i)));
        if x[i] == 0 {
            assert((x + y)[i] == 0);
        } else {
            assert((x + y)[x.len() + i] == 0);
        }
    }
    if any_zero(x + y) {
        let j = choose|j: int| 0 <= j < (x + y).len() && #[trigger] (x + y)[j] == 0;
        let i = if j < x.len() {
            j
        } else {
            j - x.len()
        };
        assert(lane(1, z, i) == op2(Op2::MinU, 1, lane(1, x, i), lane(1, y, i)));
        assert(z[i] == 0);
    }
}

// ---------------------------------------------------------------------------
// Reading lane facts at the level of bytes and 16-bit lanes
// ---------------------------------------------------------------------------

/// Byte-lane results, byte by byte.
pub proof fn lemma_bytes2(op: Op2, a: Seq<u8>, b: Seq<u8>, r: Seq<u8>)
    requires
        lanes2(op, 1, a, b, r),
    ensures
        forall|i: int| 0 <= i < r.len() ==> #[trigger] r[i] as int == op2(op, 1, a[i] as int, b[i] as int),
{
    reveal(lane);
    assert forall|i: int| 0 <= i < r.len() implies #[trigger] r[i] as int == op2(op, 1, a[i] as int, b[i] as int) by {
        assert(lane(1, r, i) == op2(op, 1, lane(1, a, i), lane(1, b, i)));
    }
}

/// A byte splat, byte by byte.
pub proof fn lemma_splat_bytes(x: int, r: Seq<u8>)
    requires
        splat(1, x, r),
    ensures
        forall|i: int| 0 <= i < r.len() ==> #[trigger] r[i] as int == x,
{
    reveal(lane);
    assert forall|i: int| 0 <= i < r.len() implies #[trigger] r[i] as int == x by {
        assert(lane(1, r, i) == x);
    }
}

/// Unary results on 16-bit lanes, lane by lane.
pub proof fn lemma_lanes1_16(op: Op1, a: Seq<u8>, r: Seq<u8>)
    requires
        lanes1(op, 2, a, r),
    ensures
        forall|k: int| 0 <= k < r.len() / 2 ==> #[trigger] lane16(r, k) == op1(op, 2, lane16(a, k)),
{
    reveal(lane);
    assert forall|k: int| 0 <= k < r.len() / 2 implies #[trigger] lane16(r, k) == op1(op, 2, lane16(a, k)) by {
        assert(lane(2, r, k) == op1(op, 2, lane(2, a, k)));
    }
}

// ---------------------------------------------------------------------------
// Laws of the lane operations
// ---------------------------------------------------------------------------

/// A lane width in bytes that the vectors use.
pub open spec fn lane_width(w: int) -> bool {
    w == 1 || w == 2 || w == 4 || w == 8
}

/// A lane of `w` bytes holds `2^(8w)` values.
pub proof fn lemma_lane_modulus(w: int)
    requires
        lane_width(w),
    ensures
        lane_modulus(w) == pow2((8 * w) as nat),
{
    lemma2_to64();
    vstd::arithmetic::power2::lemma2_to64_rest();
}

/// The signed reading of a lane value is the one value congruent to it
/// modulo `2^(8w)` in `-2^(8w-1)..2^(8w-1)`.
pub proof fn lemma_to_signed(w: int, x: int)
    requires
        lane_width(w),
        0 <= x < lane_modulus(w),
    ensures
        -lane_modulus(w) / 2 <= to_signed(w, x) < lane_modulus(w) / 2,
        to_signed(w, x) == x || to_signed(w, x) == x - lane_modulus(w),
        from_signed(w, to_signed(w, x)) == x,
{
}

/// Wrapping addition: the sum, less `2^(8w)` when it does not fit.
pub proof fn lemma_op2_add(w: int, x: int, y: int)
    requires
        lane_width(w),
        0 <= x < lane_modulus(w),
        0 <= y < lane_modulus(w),
    ensures
        0 <= op2(Op2::Add, w, x, y) < lane_modulus(w),
        op2(Op2::Add, w, x, y) == x + y || op2(Op2::Add, w, x, y) == x + y - lane_modulus(w),
{
    reveal(op2);
}

/// Wrapping subtraction: the difference, plus `2^(8w)` when it is negative.
pub proof fn lemma_op2_sub(w: int, x: int, y: int)
    requires
        lane_width(w),
        0 <= x < lane_modulus(w),
        0 <= y < lane_modulus(w),
    ensures
        0 <= op2(Op2::Sub, w, x, y) < lane_modulus(w),
        op2(Op2::Sub, w, x, y) + y == x || op2(Op2::Sub, w, x, y) + y == x + lane_modulus(w),
{
    reveal(op2);
}

/// Unsigned saturating subtraction: never more than `x`; the exact
/// difference when `y <= x`, and zero when `y` is larger.
pub proof fn lemma_op2_sub_sat_u(w: int, x: int, y: int)
    requires
        lane_width(w),
        0 <= x < lane_modulus(w),
        0 <= y < lane_modulus(w),
    ensures
        0 <= op2(Op2::SubSatU, w, x, y) <= x,
        y <= x ==> op2(Op2::SubSatU, w, x, y) + y == x,
        x < y ==> op2(Op2::SubSatU, w, x, y) == 0,
{
    reveal(op2);
}

/// Signed saturating subtraction: the difference of the signed readings,
/// clamped to the signed range of the lane; the result is a lane value.
pub proof fn lemma_op2_sub_sat_s(w: int, x: int, y: int)
    requires
        lane_width(w),
        0 <= x < lane_modulus(w),
        0 <= y < lane_modulus(w),
    ensures
        0 <= op2(Op2::SubSatS, w, x, y) < lane_modulus(w),
        ({
            let d = to_signed(w, x) - to_signed(w, y);
            let half = lane_modulus(w) / 2;
            let sr = to_signed(w, op2(Op2::SubSatS, w, x, y));
            &&& -half <= d < half ==> sr == d
            &&& d >= half ==> sr == half - 1
            &&& d < -half ==> sr == -half
        }),
{
    reveal(op2);
}

/// Lane equality: all ones exactly when the lanes are equal, else zero.
pub proof fn lemma_op2_eq(w: int, x: int, y: int)
    requires
        lane_width(w),
    ensures
        (op2(Op2::Eq, w, x, y) == lane_modulus(w) - 1) == (x == y),
        (op2(Op2::Eq, w, x, y) == 0) == (x != y),
{
    reveal(op2);
}

/// Unsigned less-than: all ones exactly when `x < y`, else zero.
pub proof fn lemma_op2_lt_u(w: int, x: int, y: int)
    requires
        lane_width(w),
    ensures
        (op2(Op2::LtU, w, x, y) == lane_modulus(w) - 1) == (x < y),
        (op2(Op2::LtU, w, x, y) == 0) == !(x < y),
{
    reveal(op2);
}

/// Signed less-than: all ones exactly when the signed reading of `x` is
/// below that of `y`, else zero.
pub proof fn lemma_op2_lt_s(w: int, x: int, y: int)
    requires
        lane_width(w),
    ensures
        (op2(Op2::LtS, w, x, y) == lane_modulus(w) - 1) == (to_signed(w, x) < to_signed(w, y)),
        (op2(Op2::LtS, w, x, y) == 0) == !(to_signed(w, x) < to_signed(w, y)),
{
    reveal(op2);
}

/// Unsigned maximum and minimum: one of the two lanes, no smaller (no
/// larger) than either.
pub proof fn lemma_op2_max_min_u(w: int, x: int, y: int)
    ensures
        op2(Op2::MaxU, w, x, y) == x || op2(Op2::MaxU, w, x, y) == y,
        op2(Op2::MaxU, w, x, y) >= x && op2(Op2::MaxU, w, x, y) >= y,
        op2(Op2::MinU, w, x, y) == x || op2(Op2::MinU, w, x, y) == y,
        op2(Op2::MinU, w, x, y) <= x && op2(Op2::MinU, w, x, y) <= y,
{
    reveal(op2);
}

/// Signed maximum and minimum: one of the two lanes, whose signed reading is
/// no smaller (no larger) than either lane's.
pub proof fn lemma_op2_max_min_s(w: int, x: int, y: int)
    ensures
        op2(Op2::MaxS, w, x, y) == x || op2(Op2::MaxS, w, x, y) == y,
        to_signed(w, op2(Op2::MaxS, w, x, y)) >= to_signed(w, x),
        to_signed(w, op2(Op2::MaxS, w, x, y)) >= to_signed(w, y),
        op2(Op2::MinS, w, x, y) == x || op2(Op2::MinS, w, x, y) == y,
        to_signed(w, op2(Op2::MinS, w, x, y)) <= to_signed(w, x),
        to_signed(w, op2(Op2::MinS, w, x, y)) <= to_signed(w, y),
{
    reveal(op2);
}

/// The low half of a product: a lane value that differs from the full
/// product by a multiple of `2^(8w)`.
pub proof fn lemma_op2_mul_lo(w: int, x: int, y: int)
    requires
        lane_width(w),
        0 <= x < lane_modulus(w),
        0 <= y < lane_modulus(w),
    ensures
        0 <= op2(Op2::MulLo, w, x, y) < lane_modulus(w),
        (x * y - op2(Op2::MulLo, w, x, y)) % lane_modulus(w) == 0,
{
    reveal(op2);
    let m = lane_modulus(w);
    vstd::arithmetic::div_mod::lemma_fundamental_div_mod(x * y, m);
    vstd::arithmetic::div_mod::lemma_mod_multiples_basic((x * y) / m, m);
    assert(x * y - (x * y) % m == m * ((x * y) / m));
    vstd::arithmetic::mul::lemma_mul_is_commutative(m, (x * y) / m);
}

/// Every lane of an unsigned saturating subtraction, for instance each byte
/// of `u8x32_sub_sat(a, b)`, is `a`'s lane less `b`'s, or zero when `b`'s is
/// larger.
pub proof fn lemma_lanes_sub_sat_u(w: int, a: Seq<u8>, b: Seq<u8>, r: Seq<u8>)
    requires
        lane_width(w),
        lanes2(Op2::SubSatU, w, a, b, r),
    ensures
        forall|i: int|
            0 <= i < a.len() as int / w ==> {
                &&& lane(w, b, i) <= lane(w, a, i) ==> #[trigger] lane(w, r, i) + lane(w, b, i) == lane(w, a, i)
                &&& lane(w, a, i) < lane(w, b, i) ==> lane(w, r, i) == 0
            },
{
    reveal(op2);
}

/// Every lane of a signed maximum, for instance each byte of
/// `i8x32_max(a, b)`, is one of the two lanes, and its signed reading is the
/// larger.
pub proof fn lemma_lanes_max_s(w: int, a: Seq<u8>, b: Seq<u8>, r: Seq<u8>)
    requires
        lane_width(w),
        lanes2(Op2::MaxS, w, a, b, r),
    ensures
        forall|i: int|
            0 <= i < a.len() as int / w ==> {
                &&& #[trigger] lane(w, r, i) == lane(w, a, i) || lane(w, r, i) == lane(w, b, i)
                &&& to_signed(w, lane(w, r, i)) >= to_signed(w, lane(w, a, i))
                &&& to_signed(w, lane(w, r, i)) >= to_signed(w, lane(w, b, i))
            },
{
    reveal(op2);
}

/// Every lane of a signed saturating subtraction, for instance each byte of
/// `i8x32_sub_sat(a, b)`, read as signed, is the difference of the signed
/// readings clamped to the signed range.
pub proof fn lemma_lanes_sub_sat_s(w: int, a: Seq<u8>, b: Seq<u8>, r: Seq<u8>)
    requires
        lane_width(w),
        lanes2(Op2::SubSatS, w, a, b, r),
    ensures
        forall|i: int|
            0 <= i < a.len() as int / w ==> {
                let d = to_signed(w, lane(w, a, i)) - to_signed(w, lane(w, b, i));
                let half = lane_modulus(w) / 2;
                let sr = to_signed(w, #[trigger] lane(w, r, i));
                &&& -half <= d < half ==> sr == d
                &&& d >= half ==> sr == half - 1
                &&& d < -half ==> sr == -half
            },
{
    reveal(op2);
}

/// The bitwise operations on byte lanes: an AND is below both bytes, an OR
/// above both, XOR with `y` is undone by XOR with `y`, and AND-NOT keeps
/// exactly the bits of `x` outside `y`.
pub proof fn lemma_op2_bitwise(x: u8, y: u8)
    ensures
        op2(Op2::And, 1, x as int, y as int) <= x && op2(Op2::And, 1, x as int, y as int) <= y,
        op2(Op2::Or, 1, x as int, y as int) >= x && op2(Op2::Or, 1, x as int, y as int) >= y,
        ((op2(Op2::Xor, 1, x as int, y as int) as u8) ^ y) == x,
        ((op2(Op2::AndNot, 1, x as int, y as int) as u8) & y) == 0,
        ((op2(Op2::AndNot, 1, x as int, y as int) as u8) | (x & y)) == x,
{
    reveal(op2);
    lemma_and_le(x, y);
    lemma_or_ge(x, y);
    lemma_xor_twice(x, y);
    lemma_andnot_parts(x, y);
}

/// The complement of a byte lane: it adds up with the lane to `0xff`.
pub proof fn lemma_op1_not(x: u8)
    ensures
        op1(Op1::Not, 1, x as int) + x == 0xff,
{
    reveal(op1);
    lemma_not_byte(x);
}

/// A left shift by `n` bits: a lane value that differs from `x * 2^n` by a
/// multiple of `2^(8w)`.
pub proof fn lemma_op1_shl(w: int, n: u32, x: int)
    requires
        lane_width(w),
        0 <= x < lane_modulus(w),
    ensures
        0 <= op1(Op1::Shl(n), w, x) < lane_modulus(w),
        (x * pow2(n as nat) - op1(Op1::Shl(n), w, x)) % lane_modulus(w) == 0,
{
    reveal(op1);
    let m = lane_modulus(w);
    let p = x * pow2(n as nat);
    vstd::arithmetic::power2::lemma_pow2_pos(n as nat);
    assert(x * pow2(n as nat) >= 0) by (nonlinear_arith)
        requires
            x >= 0,
            pow2(n as nat) > 0,
    ;
    vstd::arithmetic::div_mod::lemma_fundamental_div_mod(p, m);
    vstd::arithmetic::div_mod::lemma_mod_multiples_basic(p / m, m);
    assert(p - p % m == m * (p / m));
    vstd::arithmetic::mul::lemma_mul_is_commutative(m, p / m);
}

/// A right shift by `n` bits: the largest `r` with `r * 2^n <= x`.
pub proof fn lemma_op1_shr(w: int, n: u32, x: int)
    requires
        0 <= x,
    ensures
        op1(Op1::Shr(n), w, x) * pow2(n as nat) <= x < (op1(Op1::Shr(n), w, x) + 1) * pow2(n as nat),
{
    reveal(op1);
    let d = pow2(n as nat) as int;
    vstd::arithmetic::power2::lemma_pow2_pos(n as nat);
    vstd::arithmetic::div_mod::lemma_fundamental_div_mod(x, d);
    let q = x / d;
    assert(q * d <= x < (q + 1) * d) by (nonlinear_arith)
        requires
            x == d * q + x % d,
            0 <= x % d < d,
    ;
}

} // verus!
