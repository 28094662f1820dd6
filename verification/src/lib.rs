//! Portable SIMD-style vector operations with verified lane semantics, and the
//! hex, base32, UUID, ASCII, UTF-32, byte-swap and CRC-32 routines built on them.

pub mod ascii;
pub mod base32;
pub mod bits;
pub mod bswap;
pub mod crc32;
pub mod hex;
pub mod isa;
pub mod scalar;
pub mod tools;
pub mod unicode;
pub mod uuid;
pub mod vector;
