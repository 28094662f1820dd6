//! Small helpers over slices.
use vstd::prelude::*;

verus! {

/// Calls `f` on every element of `slice`, in order: whole chunks of
/// `chunk_size` elements first, then the elements that remain.
pub fn unroll<T, F: FnMut(&T)>(slice: &[T], chunk_size: usize, f: F)
    requires
        chunk_size > 0,
        forall|x: &T| #[trigger] call_requires(f, (x,)),
{
    let mut f = f;
    let len = slice.len();
    let chunks = len / chunk_size;
    let mut c: usize = 0;
    let mut i: usize = 0;
    while c < chunks
        invariant
            chunk_size > 0,
            len == slice.len(),
            chunks == len / chunk_size,
            c <= chunks,
            i == c * chunk_size,
            i <= len,
            forall|x: &T| #[trigger] call_requires(f, (x,)),
        decreases chunks - c,
    {
        proof {
            assert((c + 1) * chunk_size <= len) by (nonlinear_arith)
                requires
                    c < chunks,
                    chunks == len / chunk_size,
                    chunk_size > 0,
            ;
        }
        let mut j: usize = 0;
        while j < chunk_size
            invariant
                j <= chunk_size,
                i == c * chunk_size + j,
                (c + 1) * chunk_size <= len,
                len == slice.len(),
                forall|x: &T| #[trigger] call_requires(f, (x,)),
            decreases chunk_size - j,
        {
            proof {
                assert(c * chunk_size + chunk_size == (c + 1) * chunk_size) by (nonlinear_arith);
            }
            f(&slice[i]);
            i += 1;
            j += 1;
        }
        proof {
            assert(c * chunk_size + chunk_size == (c + 1) * chunk_size) by (nonlinear_arith);
        }
        c += 1;
    }
    while i < len
        invariant
            i <= len,
            len == slice.len(),
            forall|x: &T| #[trigger] call_requires(f, (x,)),
        decreases len - i,
    {
        f(&slice[i]);
        i += 1;
    }
}

} // verus!
