use vstd::prelude::*;

verus! {

/// A 16-byte block.
#[derive(Clone, Copy)]
pub struct Bytes16(pub [u8; 16]);

/// A 32-byte block.
#[derive(Clone, Copy)]
pub struct Bytes32(pub [u8; 32]);

/// A 64-byte block.
#[derive(Clone, Copy)]
pub struct Bytes64(pub [u8; 64]);

impl Bytes32 {
    /// Repeats `bytes16` twice.
    pub fn double(bytes16: [u8; 16]) -> (r: Self)
        ensures
            r.0@ == bytes16@ + bytes16@,
    {
        let mut bytes32 = [0u8; 32];
        let mut i: usize = 0;
        while i < 16
            invariant
                i <= 16,
                forall|j: int| 0 <= j < i ==> bytes32@[j] == bytes16@[j] && bytes32@[j + 16] == bytes16@[j],
            decreases 16 - i,
        {
            bytes32[i] = bytes16[i];
            bytes32[i + 16] = bytes16[i];
            i += 1;
        }
        assert(bytes32@ =~= bytes16@ + bytes16@);
        Self(bytes32)
    }
}

/// Plain integers: any bit pattern is a value, and values are copied bit for
/// bit.
pub trait Scalar: Copy {}

impl Scalar for u8 {}

impl Scalar for u16 {}

impl Scalar for u32 {}

impl Scalar for u64 {}

impl Scalar for u128 {}

impl Scalar for usize {}

impl Scalar for i8 {}

impl Scalar for i16 {}

impl Scalar for i32 {}

impl Scalar for i64 {}

impl Scalar for i128 {}

impl Scalar for isize {}

} // verus!
