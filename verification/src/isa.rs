use vstd::prelude::*;

mod ext;
mod simd128;
mod simd256;
mod simd512;

pub mod mock;
pub mod mock256;

pub use self::ext::{
    imm_bit, maddubs, mul_hi_i16, mul_hi_u16, SIMD128Ext, SIMD256Ext, SimdLoad,
};
pub use self::simd128::{high_bits, SIMD128};
pub use self::simd256::SIMD256;
pub use self::simd512::SIMD512;

verus! {

/// The instruction sets that a token can stand for.
#[derive(Clone, Copy, Debug)]
pub enum IsaKind {
    /// Portable code, lane by lane.
    Fallback,
    /// x86 SSE2.
    Sse2,
    /// x86 SSE4.1.
    Sse41,
    /// x86 AVX2.
    Avx2,
    /// Arm NEON.
    Neon,
    /// WebAssembly 128-bit SIMD.
    Simd128,
}

/// An instruction set that the vector operations can run on.
pub trait InstructionSet: Copy + Sized {
    /// Whether the instruction set is available on this machine.
    spec fn spec_is_enabled() -> bool;

    /// The instruction set that the token stands for.
    spec fn spec_kind() -> IsaKind;

    /// Tells which instruction set the token stands for.
    fn kind() -> (r: IsaKind)
        ensures
            r == Self::spec_kind(),
    ;

    /// Tells whether the instruction set is available.
    fn is_enabled() -> (r: bool)
        ensures
            r == Self::spec_is_enabled(),
    ;

    /// A token for the instruction set.
    fn new() -> Self
        requires
            Self::spec_is_enabled(),
    ;

    /// A token for the instruction set, if it is available.
    fn detect() -> (r: Option<Self>)
        ensures
            r is Some <==> Self::spec_is_enabled(),
    {
        if Self::is_enabled() {
            Some(Self::new())
        } else {
            None
        }
    }
}

/// The portable instruction set: every operation is computed lane by lane on
/// plain bytes, on any machine.
#[derive(Clone, Copy)]
pub struct Fallback(());

impl InstructionSet for Fallback {
    open spec fn spec_is_enabled() -> bool {
        true
    }

    open spec fn spec_kind() -> IsaKind {
        IsaKind::Fallback
    }

    fn is_enabled() -> (r: bool) {
        true
    }

    fn kind() -> (r: IsaKind) {
        IsaKind::Fallback
    }

    fn new() -> Self {
        Fallback(())
    }
}

} // verus!
