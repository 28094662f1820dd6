//! Helpers that lift an operation on halves to a whole vector.
use vstd::prelude::*;

use super::{SIMD256, SIMD512};
use crate::vector::{V128, V256, V512};

verus! {

/// Applies `f` to each half of `a`.
pub fn simd256_vop1<S: SIMD256>(s: S, a: V256, f: impl Fn(S, V128) -> V128) -> (r: V256)
    requires
        f.requires((s, a.lo)),
        f.requires((s, a.hi)),
    ensures
        f.ensures((s, a.lo), r.lo),
        f.ensures((s, a.hi), r.hi),
{
    let a = s.v256_to_v128x2(a);
    let b = (f(s, a.0), f(s, a.1));
    s.v256_from_v128x2(b.0, b.1)
}

/// Applies `f` to the matching halves of `a` and `b`.
pub fn simd256_vop2<S: SIMD256>(s: S, a: V256, b: V256, f: impl Fn(S, V128, V128) -> V128) -> (r: V256)
    requires
        f.requires((s, a.lo, b.lo)),
        f.requires((s, a.hi, b.hi)),
    ensures
        f.ensures((s, a.lo, b.lo), r.lo),
        f.ensures((s, a.hi, b.hi), r.hi),
{
    let a = s.v256_to_v128x2(a);
    let b = s.v256_to_v128x2(b);
    let c = (f(s, a.0, b.0), f(s, a.1, b.1));
    s.v256_from_v128x2(c.0, c.1)
}

/// Applies `f` to the matching halves of `a`, `b` and `c`.
pub fn simd256_vop3<S: SIMD256>(
    s: S,
    a: V256,
    b: V256,
    c: V256,
    f: impl Fn(S, V128, V128, V128) -> V128,
) -> (r: V256)
    requires
        f.requires((s, a.lo, b.lo, c.lo)),
        f.requires((s, a.hi, b.hi, c.hi)),
    ensures
        f.ensures((s, a.lo, b.lo, c.lo), r.lo),
        f.ensures((s, a.hi, b.hi, c.hi), r.hi),
{
    let a = s.v256_to_v128x2(a);
    let b = s.v256_to_v128x2(b);
    let c = s.v256_to_v128x2(c);
    let d = (f(s, a.0, b.0, c.0), f(s, a.1, b.1, c.1));
    s.v256_from_v128x2(d.0, d.1)
}

/// Both halves are the vector that `f` makes.
pub fn simd256_double<S: SIMD256>(s: S, f: impl FnOnce() -> V128) -> (r: V256)
    requires
        f.requires(()),
    ensures
        f.ensures((), r.lo),
        r.hi == r.lo,
{
    let a = f();
    s.v256_from_v128x2(a, a)
}

/// Applies `f` to each half of `a`.
pub fn simd512_vop1<S: SIMD512>(s: S, a: V512, f: impl Fn(S, V256) -> V256) -> (r: V512)
    requires
        f.requires((s, a.lo)),
        f.requires((s, a.hi)),
    ensures
        f.ensures((s, a.lo), r.lo),
        f.ensures((s, a.hi), r.hi),
{
    let a = s.v512_to_v256x2(a);
    let b = (f(s, a.0), f(s, a.1));
    s.v512_from_v256x2(b.0, b.1)
}

/// Applies `f` to the matching halves of `a` and `b`.
pub fn simd512_vop2<S: SIMD512>(s: S, a: V512, b: V512, f: impl Fn(S, V256, V256) -> V256) -> (r: V512)
    requires
        f.requires((s, a.lo, b.lo)),
        f.requires((s, a.hi, b.hi)),
    ensures
        f.ensures((s, a.lo, b.lo), r.lo),
        f.ensures((s, a.hi, b.hi), r.hi),
{
    let a = s.v512_to_v256x2(a);
    let b = s.v512_to_v256x2(b);
    let c = (f(s, a.0, b.0), f(s, a.1, b.1));
    s.v512_from_v256x2(c.0, c.1)
}

/// Both halves are the vector that `f` makes.
pub fn simd512_double<S: SIMD512>(s: S, f: impl FnOnce() -> V256) -> (r: V512)
    requires
        f.requires(()),
    ensures
        f.ensures((), r.lo),
        r.hi == r.lo,
{
    let a = f();
    s.v512_from_v256x2(a, a)
}

} // verus!
