# simd

Portable SIMD-style vector operations with verified lane semantics, and the
text routines built on them: hex, base32 building blocks, UUID parsing and
formatting, ASCII checks and whitespace removal, UTF-32 validation, byte-order
swapping, and CRC-32.

Every function in `src/` is checked by Verus against its `requires` /
`ensures` contract.

Layout:

- `src/vector.rs`: the 128/256/512-bit vector types and the lane model that
  the contracts speak of (lanes of 1, 2, 4 or 8 bytes, lane-wise operations,
  byte shuffles).
- `src/isa.rs`, `src/isa/`: the instruction-set traits (`SIMD128`, `SIMD256`,
  `SIMD512` and their extensions) with the portable `Fallback` implementation,
  and the free-standing 256-bit helpers.
- `src/hex.rs`, `src/base32.rs`, `src/uuid.rs`, `src/uuid/`, `src/ascii.rs`,
  `src/unicode.rs`, `src/bswap.rs`, `src/crc32.rs`: the algorithms, each with
  a mathematical specification of its result.
- `src/bits.rs`: bit-level facts proved once by the bit-vector solver.
- `tests/`: tests on concrete values.
- `app/`: a small program around the library: random input, timing,
  conversions to and from `uuid::Uuid`, and the `outref` based entry points.
