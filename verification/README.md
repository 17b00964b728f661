# sse2neon

x86 SSE-family SIMD intrinsics (SSE, SSE2, SSE3, SSSE3, SSE4.1, SSE4.2 and the
MMX `__m64` family) as a Verus-verified library.

Every vector lane is held as plain bits: `__m128` as four `f32` bit patterns,
`__m128d` as two `f64` bit patterns, `__m128i` and `__m64` as bytes in memory
order. Each intrinsic states its result in its contract, lane by lane, and
Verus proves the code against it.

Floating-point work happens on the bit patterns too. Additions, subtractions,
multiplications, divisions and square roots are correctly rounded, and the
rounding mode, flush-to-zero and default-NaN behaviour come from the value of
the AArch64 floating-point control register (FPCR), which the floating-point
intrinsics take as an argument. The MXCSR setters and getters are functions
from one register value to the next.

## Layout

- `src/` the verified library.
  - `types.rs` vector types, lane views, casts.
  - `ieee.rs` IEEE-754 classification, comparison, minimum and maximum,
    conversion to integers and rounding to integral values.
  - `fparith.rs` correctly rounded arithmetic, square root and format
    conversions.
  - `mxcsr.rs` MXCSR mode control over an FPCR value.
  - `mmx.rs`, `sse.rs`, `sse2.rs`, `sse3.rs`, `ssse3.rs`, `sse41.rs`,
    `sse42.rs` the intrinsics, by instruction-set extension.
  - `constants.rs` the `_MM_*` constants.
- `tests/` tests of the library, including comparisons against the host's
  own floating-point unit.
- `app/` the Intel-style surface: functions that read and write the live
  FPCR, take `f32` and `f64` values or raw pointers, or take immediates as
  const generics, plus the hardware reciprocal estimates.
