//! Float-to-integer conversions: rounding modes, truncation, and the x86
//! "integer indefinite" result for NaN, infinities and out-of-range values.

use sse2neon::constants::{_MM_ROUND_DOWN, _MM_ROUND_NEAREST, _MM_ROUND_TOWARD_ZERO, _MM_ROUND_UP};
use sse2neon::mxcsr::{_MM_GET_ROUNDING_MODE, _MM_SET_ROUNDING_MODE, _MM_SET_FLUSH_ZERO_MODE};
use sse2neon::constants::_MM_FLUSH_ZERO_ON;
use sse2neon::sse2::{
    _mm_cvtepi32_pd, _mm_set_epi32, _mm_cvtpd_epi32, _mm_cvtps_epi32, _mm_cvtsd_si32, _mm_cvttpd_epi32, _mm_cvttps_epi32,
    _mm_cvttsd_si32,
};
use sse2neon::types::{__m128, __m128d, __m128i};

/// A register value with unrelated bits set around the mode fields.
const FPCR_START: u64 = 0x0000_0000_0000_0010;

fn qnan() -> f32 {
    f32::from_bits(0x7FC0_0000)
}

fn qnan64() -> f64 {
    f64::from_bits(0x7FF8_0000_0000_0000)
}

fn set1_ps(w: f32) -> __m128 {
    __m128::from_f32_bits([w.to_bits(); 4])
}

fn set_ps(e3: f32, e2: f32, e1: f32, e0: f32) -> __m128 {
    __m128::from_f32_bits([e0.to_bits(), e1.to_bits(), e2.to_bits(), e3.to_bits()])
}

fn set1_pd(w: f64) -> __m128d {
    __m128d::from_f64_bits([w.to_bits(); 2])
}

fn set_pd(e1: f64, e0: f64) -> __m128d {
    __m128d::from_f64_bits([e0.to_bits(), e1.to_bits()])
}

fn i32x4(a: __m128i) -> [i32; 4] {
    a.s32()
}

#[test]
fn cvtps_epi32_respects_rounding_mode() {
    let mut fpcr = FPCR_START;
    let saved = _MM_GET_ROUNDING_MODE(fpcr);
    let a = set1_ps(2.5);

    fpcr = _MM_SET_ROUNDING_MODE(fpcr, _MM_ROUND_NEAREST);
    assert_eq!(i32x4(_mm_cvtps_epi32(a, fpcr))[0], 2); // ties to even

    fpcr = _MM_SET_ROUNDING_MODE(fpcr, _MM_ROUND_DOWN);
    assert_eq!(i32x4(_mm_cvtps_epi32(a, fpcr))[0], 2);

    fpcr = _MM_SET_ROUNDING_MODE(fpcr, _MM_ROUND_UP);
    assert_eq!(i32x4(_mm_cvtps_epi32(a, fpcr))[0], 3);

    fpcr = _MM_SET_ROUNDING_MODE(fpcr, _MM_ROUND_TOWARD_ZERO);
    let neg = set1_ps(-2.7);
    assert_eq!(i32x4(_mm_cvtps_epi32(neg, fpcr))[0], -2);

    fpcr = _MM_SET_ROUNDING_MODE(fpcr, saved);
    assert_eq!(_MM_GET_ROUNDING_MODE(fpcr), saved);
}

#[test]
fn cvtpd_epi32_respects_rounding_mode() {
    let mut fpcr = FPCR_START;
    let saved = _MM_GET_ROUNDING_MODE(fpcr);
    let a = set1_pd(2.5);

    fpcr = _MM_SET_ROUNDING_MODE(fpcr, _MM_ROUND_NEAREST);
    assert_eq!(i32x4(_mm_cvtpd_epi32(a, fpcr))[0], 2); // ties to even

    fpcr = _MM_SET_ROUNDING_MODE(fpcr, _MM_ROUND_DOWN);
    assert_eq!(i32x4(_mm_cvtpd_epi32(a, fpcr))[0], 2);

    fpcr = _MM_SET_ROUNDING_MODE(fpcr, _MM_ROUND_UP);
    assert_eq!(i32x4(_mm_cvtpd_epi32(a, fpcr))[0], 3);

    fpcr = _MM_SET_ROUNDING_MODE(fpcr, _MM_ROUND_TOWARD_ZERO);
    assert_eq!(i32x4(_mm_cvtpd_epi32(set1_pd(-2.7), fpcr))[0], -2);

    fpcr = _MM_SET_ROUNDING_MODE(fpcr, saved);
    assert_eq!(_MM_GET_ROUNDING_MODE(fpcr), saved);
}

#[test]
fn cvtsd_si32_respects_rounding_mode() {
    let mut fpcr = FPCR_START;
    let a = set_pd(9.0, 2.5);

    fpcr = _MM_SET_ROUNDING_MODE(fpcr, _MM_ROUND_NEAREST);
    assert_eq!(_mm_cvtsd_si32(a, fpcr), 2); // ties to even

    fpcr = _MM_SET_ROUNDING_MODE(fpcr, _MM_ROUND_UP);
    assert_eq!(_mm_cvtsd_si32(a, fpcr), 3);

    fpcr = _MM_SET_ROUNDING_MODE(fpcr, _MM_ROUND_DOWN);
    assert_eq!(_mm_cvtsd_si32(a, fpcr), 2);

    // Truncating variant ignores the mode.
    assert_eq!(_mm_cvttsd_si32(a), 2);
}

#[test]
fn cvt_roundtrip_int_double() {
    let fpcr = _MM_SET_ROUNDING_MODE(FPCR_START, _MM_ROUND_NEAREST);
    let i = _mm_set_epi32(0, 0, 7, 3);
    let d = _mm_cvtepi32_pd(i).f64_bits().map(f64::from_bits);
    assert_eq!(d, [3.0, 7.0]);
    let back = i32x4(_mm_cvtpd_epi32(set_pd(7.5, 2.5), fpcr));
    // round half to even: 2.5->2, 7.5->8
    assert_eq!(back[0], 2);
    assert_eq!(back[1], 8);
    assert_eq!(back[2], 0);
    assert_eq!(back[3], 0);
}

#[test]
fn cvttpd_truncates_toward_zero() {
    let r = i32x4(_mm_cvttpd_epi32(set_pd(-2.7, 2.7)));
    assert_eq!(r[0], 2); // 2.7 -> 2
    assert_eq!(r[1], -2); // -2.7 -> -2, toward zero
    assert_eq!(r[2], 0);
    assert_eq!(r[3], 0);
}

#[test]
fn cvt_saturation_indefinite() {
    let big = set1_ps(4e9);
    assert_eq!(i32x4(_mm_cvttps_epi32(big))[0], i32::MIN);
    let inf = set1_ps(f32::INFINITY);
    assert_eq!(i32x4(_mm_cvtps_epi32(inf, FPCR_START))[0], i32::MIN);
    let nan = set1_ps(f32::NAN);
    assert_eq!(i32x4(_mm_cvttps_epi32(nan))[0], i32::MIN);
}

#[test]
fn cvttps_epi32_special_values() {
    // NaN, +Inf, -Inf, and overflow all map to i32::MIN (integer indefinite).
    let nan = set1_ps(qnan());
    assert_eq!(i32x4(_mm_cvttps_epi32(nan))[0], i32::MIN);
    let pinf = set1_ps(f32::INFINITY);
    assert_eq!(i32x4(_mm_cvttps_epi32(pinf))[0], i32::MIN);
    let ninf = set1_ps(f32::NEG_INFINITY);
    assert_eq!(i32x4(_mm_cvttps_epi32(ninf))[0], i32::MIN);
    let over = set1_ps(3.0e9);
    assert_eq!(i32x4(_mm_cvttps_epi32(over))[0], i32::MIN);
    // in-range truncates toward zero
    let ok = set1_ps(-2.9);
    assert_eq!(i32x4(_mm_cvttps_epi32(ok))[0], -2);
}

#[test]
fn cvtps_epi32_rounds_half_to_even() {
    let a = set_ps(4.5, 3.5, 2.5, 0.5);
    // half to even: 0.5->0, 2.5->2, 3.5->4, 4.5->4
    assert_eq!(i32x4(_mm_cvtps_epi32(a, FPCR_START)), [0, 2, 4, 4]);
}

#[test]
fn cvt_with_nan() {
    let nan = set1_ps(qnan());
    assert_eq!(i32x4(_mm_cvtps_epi32(nan, FPCR_START))[0], i32::MIN);
    assert_eq!(i32x4(_mm_cvttps_epi32(nan))[0], i32::MIN);
    let nan64 = set1_pd(qnan64());
    assert_eq!(i32x4(_mm_cvtpd_epi32(nan64, FPCR_START))[0], i32::MIN);
    assert_eq!(_mm_cvtsd_si32(nan64, FPCR_START), i32::MIN);
}

#[test]
fn cvt_range_edges() {
    // -2^31 is the one value at the edge that fits.
    assert_eq!(i32x4(_mm_cvttps_epi32(set1_ps(-2147483648.0)))[0], i32::MIN);
    assert_eq!(i32x4(_mm_cvttps_epi32(set1_ps(2147483520.0)))[0], 2147483520);
    assert_eq!(_mm_cvttsd_si32(set1_pd(2147483647.9)), 2147483647);
    assert_eq!(_mm_cvttsd_si32(set1_pd(-2147483648.9)), i32::MIN);
    // Rounding to nearest pushes 2147483647.5 out of range.
    assert_eq!(_mm_cvtsd_si32(set1_pd(2147483647.5), FPCR_START), i32::MIN);
    assert_eq!(_mm_cvtsd_si32(set1_pd(2147483647.4), FPCR_START), 2147483647);
    // Large magnitudes, small fractions, and big integers.
    assert_eq!(_mm_cvttsd_si32(set1_pd(1.0e300)), i32::MIN);
    assert_eq!(_mm_cvttsd_si32(set1_pd(-1.0e-300)), 0);
    assert_eq!(i32x4(_mm_cvttps_epi32(set1_ps(123456.75)))[0], 123456);
    assert_eq!(i32x4(_mm_cvtps_epi32(set1_ps(-123456.75), FPCR_START))[0], -123457);
}

#[test]
fn cvt_directed_rounding_of_tiny_values() {
    let tiny = f32::from_bits(1); // smallest positive denormal
    let up = _MM_SET_ROUNDING_MODE(FPCR_START, _MM_ROUND_UP);
    let down = _MM_SET_ROUNDING_MODE(FPCR_START, _MM_ROUND_DOWN);
    assert_eq!(i32x4(_mm_cvtps_epi32(set1_ps(tiny), up))[0], 1);
    assert_eq!(i32x4(_mm_cvtps_epi32(set1_ps(-tiny), down))[0], -1);
    assert_eq!(i32x4(_mm_cvtps_epi32(set1_ps(0.25), up))[0], 1);
    // With flushing on, the denormal reads as zero.
    let up_fz = _MM_SET_FLUSH_ZERO_MODE(up, _MM_FLUSH_ZERO_ON);
    assert_eq!(i32x4(_mm_cvtps_epi32(set1_ps(tiny), up_fz))[0], 0);
    assert_eq!(_mm_cvtsd_si32(set1_pd(f64::from_bits(1)), up), 1);
    let up_fz64 = _MM_SET_FLUSH_ZERO_MODE(up, _MM_FLUSH_ZERO_ON);
    assert_eq!(_mm_cvtsd_si32(set1_pd(f64::from_bits(1)), up_fz64), 0);
}
