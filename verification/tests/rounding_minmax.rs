//! Rounding to integral values, and the NaN rules of minimum and maximum.

use sse2neon::constants::{
    _MM_FLUSH_ZERO_ON, _MM_FROUND_CUR_DIRECTION, _MM_FROUND_NO_EXC, _MM_FROUND_TO_NEAREST_INT,
    _MM_FROUND_TO_ZERO, _MM_ROUND_DOWN, _MM_ROUND_UP,
};
use sse2neon::mxcsr::{_MM_SET_FLUSH_ZERO_MODE, _MM_SET_ROUNDING_MODE};
use sse2neon::sse::{_mm_cmpeq_ps, _mm_comieq_ss, _mm_max_ps, _mm_max_ss, _mm_min_ps, _mm_min_ss};
use sse2neon::sse2::{_mm_cmplt_pd, _mm_max_pd, _mm_min_pd};
use sse2neon::sse41::{
    _mm_ceil_pd, _mm_ceil_ps, _mm_ceil_sd, _mm_ceil_ss, _mm_floor_pd, _mm_floor_ps, _mm_floor_sd,
    _mm_floor_ss, _mm_round_pd, _mm_round_ps, _mm_round_sd, _mm_round_ss,
};
use sse2neon::types::{__m128, __m128d};

/// Round to nearest, no flushing, no default NaN.
const FPCR: u64 = 0;

/// The FPCR DN bit.
const DN: u64 = 0x200_0000;

fn qnan() -> f32 {
    f32::from_bits(0x7FC0_0000)
}

fn qnan64() -> f64 {
    f64::from_bits(0x7FF8_0000_0000_0000)
}

fn set1_ps(w: f32) -> __m128 {
    __m128::from_f32_bits([w.to_bits(); 4])
}

fn set_ps(e3: f32, e2: f32, e1: f32, e0: f32) -> __m128 {
    __m128::from_f32_bits([e0.to_bits(), e1.to_bits(), e2.to_bits(), e3.to_bits()])
}

fn set_ss(w: f32) -> __m128 {
    set_ps(0.0, 0.0, 0.0, w)
}

fn set1_pd(w: f64) -> __m128d {
    __m128d::from_f64_bits([w.to_bits(); 2])
}

fn set_pd(e1: f64, e0: f64) -> __m128d {
    __m128d::from_f64_bits([e0.to_bits(), e1.to_bits()])
}

fn f32x4(a: __m128) -> [f32; 4] {
    a.f32_bits().map(f32::from_bits)
}

fn f64x2(a: __m128d) -> [f64; 2] {
    a.f64_bits().map(f64::from_bits)
}

#[test]
fn round_special_values() {
    let inf = set1_ps(f32::INFINITY);
    assert_eq!(f32x4(_mm_floor_ps(inf, FPCR))[0], f32::INFINITY);
    assert_eq!(f32x4(_mm_ceil_ps(inf, FPCR))[0], f32::INFINITY);
    let nan = set1_ps(qnan());
    assert!(f32x4(_mm_round_ps(nan, _MM_FROUND_TO_NEAREST_INT, FPCR))[0].is_nan());
}

#[test]
fn round_ss_upper_lanes() {
    let a = set_ps(4.0, 3.0, 2.0, 1.0);
    let b = set_ps(40.0, 30.0, 20.0, 2.7);
    // lane0 truncates 2.7 to 2, upper lanes from a.
    assert_eq!(f32x4(_mm_round_ss(a, b, _MM_FROUND_TO_ZERO, FPCR)), [2.0, 2.0, 3.0, 4.0]);
    assert_eq!(f32x4(_mm_floor_ss(a, b, FPCR)), [2.0, 2.0, 3.0, 4.0]);
    assert_eq!(f32x4(_mm_ceil_ss(a, b, FPCR)), [3.0, 2.0, 3.0, 4.0]);
}

#[test]
fn rounding_modes() {
    let a = set_ps(-2.5, 2.5, 1.4, 1.6);
    let nearest = f32x4(_mm_round_ps(a, _MM_FROUND_TO_NEAREST_INT, FPCR));
    // round half to even: 1.6->2, 1.4->1, 2.5->2, -2.5->-2
    assert_eq!(nearest, [2.0, 1.0, 2.0, -2.0]);
    let floor = f32x4(_mm_floor_ps(a, FPCR));
    assert_eq!(floor, [1.0, 1.0, 2.0, -3.0]);
    let ceil = f32x4(_mm_ceil_ps(a, FPCR));
    assert_eq!(ceil, [2.0, 2.0, 3.0, -2.0]);
    let trunc = f32x4(_mm_round_ps(a, _MM_FROUND_TO_ZERO, FPCR));
    assert_eq!(trunc, [1.0, 1.0, 2.0, -2.0]);
}

#[test]
fn round_pd_and_floor_ceil() {
    let a = set_pd(-1.5, 2.5);
    assert_eq!(f64x2(_mm_floor_pd(a, FPCR)), [2.0, -2.0]);
    assert_eq!(f64x2(_mm_ceil_pd(a, FPCR)), [3.0, -1.0]);
    let nearest = f64x2(_mm_round_pd(a, _MM_FROUND_TO_NEAREST_INT, FPCR));
    assert_eq!(nearest, [2.0, -2.0]); // half to even
}

#[test]
fn round_sd_upper_lane_copy() {
    let a = set_pd(2.0, 1.0);
    let c = set_pd(40.0, 2.7);
    assert_eq!(f64x2(_mm_round_sd(a, c, _MM_FROUND_TO_ZERO, FPCR)), [2.0, 2.0]);
    assert_eq!(f64x2(_mm_floor_sd(a, c, FPCR)), [2.0, 2.0]);
    assert_eq!(f64x2(_mm_ceil_sd(a, c, FPCR)), [3.0, 2.0]);
}

#[test]
fn round_current_direction_follows_fpcr() {
    let a = set1_ps(2.5);
    let up = _MM_SET_ROUNDING_MODE(FPCR, _MM_ROUND_UP);
    let down = _MM_SET_ROUNDING_MODE(FPCR, _MM_ROUND_DOWN);
    assert_eq!(f32x4(_mm_round_ps(a, _MM_FROUND_CUR_DIRECTION, up))[0], 3.0);
    assert_eq!(f32x4(_mm_round_ps(a, _MM_FROUND_CUR_DIRECTION, down))[0], 2.0);
    assert_eq!(f32x4(_mm_round_ps(a, _MM_FROUND_CUR_DIRECTION | _MM_FROUND_NO_EXC, up))[0], 3.0);
    // An explicit direction ignores the mode of the register.
    assert_eq!(f32x4(_mm_round_ps(a, _MM_FROUND_TO_ZERO | _MM_FROUND_NO_EXC, up))[0], 2.0);
    let d = set1_pd(-2.5);
    assert_eq!(f64x2(_mm_round_pd(d, _MM_FROUND_CUR_DIRECTION, up))[0], -2.0);
    assert_eq!(f64x2(_mm_round_pd(d, _MM_FROUND_CUR_DIRECTION, down))[0], -3.0);
}

#[test]
fn round_keeps_sign_and_large_values() {
    // A negative value that rounds to zero gives -0.0.
    let r = f32x4(_mm_ceil_ps(set1_ps(-0.5), FPCR))[0];
    assert_eq!(r.to_bits(), 0x8000_0000);
    let r = f64x2(_mm_round_pd(set1_pd(-0.4), _MM_FROUND_TO_NEAREST_INT, FPCR))[0];
    assert_eq!(r.to_bits(), 0x8000_0000_0000_0000);
    // Values of 2^23 and above are already integers.
    assert_eq!(f32x4(_mm_floor_ps(set1_ps(16777217.0), FPCR))[0], 16777216.0);
    assert_eq!(f32x4(_mm_floor_ps(set1_ps(8388607.5), FPCR))[0], 8388607.0);
    assert_eq!(f32x4(_mm_ceil_ps(set1_ps(8388607.5), FPCR))[0], 8388608.0);
    assert_eq!(f64x2(_mm_ceil_pd(set1_pd(4503599627370495.5), FPCR))[0], 4503599627370496.0);
    assert_eq!(f64x2(_mm_floor_pd(set1_pd(1.0e300), FPCR))[0], 1.0e300);
    // A positive denormal rounds up to one, or to zero when flushed.
    let tiny = f32::from_bits(1);
    assert_eq!(f32x4(_mm_ceil_ps(set1_ps(tiny), FPCR))[0], 1.0);
    let fz = _MM_SET_FLUSH_ZERO_MODE(FPCR, _MM_FLUSH_ZERO_ON);
    assert_eq!(f32x4(_mm_ceil_ps(set1_ps(tiny), fz))[0].to_bits(), 0);
    assert_eq!(f64x2(_mm_ceil_pd(set1_pd(f64::from_bits(1)), FPCR))[0], 1.0);
}

#[test]
fn round_quiets_signalling_nan() {
    let snan = f32::from_bits(0x7F80_0001);
    assert_eq!(f32x4(_mm_floor_ps(set1_ps(snan), FPCR))[0].to_bits(), 0x7FC0_0001);
    assert_eq!(f32x4(_mm_floor_ps(set1_ps(snan), DN))[0].to_bits(), 0x7FC0_0000);
    let snan64 = f64::from_bits(0xFFF0_0000_0000_0005);
    assert_eq!(f64x2(_mm_ceil_pd(set1_pd(snan64), FPCR))[0].to_bits(), 0xFFF8_0000_0000_0005);
}

#[test]
fn scalar_ss_min_max_with_nan() {
    let a = set_ps(4.0, 3.0, 2.0, 1.0);
    let b = set_ss(f32::NAN);
    assert!(f32x4(_mm_min_ss(a, b, FPCR))[0].is_nan());
    assert_eq!(&f32x4(_mm_min_ss(a, b, FPCR))[1..], &[2.0, 3.0, 4.0]);
    assert!(f32x4(_mm_max_ss(a, b, FPCR))[0].is_nan());
    assert_eq!(&f32x4(_mm_max_ss(a, b, FPCR))[1..], &[2.0, 3.0, 4.0]);
}

#[test]
fn min_max_never_invent_nan_from_finite_inputs() {
    let a = set1_ps(3.0);
    let b = set1_ps(5.0);
    assert_eq!(f32x4(_mm_min_ps(a, b, FPCR))[0], 3.0);
    assert_eq!(f32x4(_mm_max_ps(a, b, FPCR))[0], 5.0);
}

#[test]
fn min_max_default_propagates_nan() {
    let nan = set1_ps(qnan());
    let x = set1_ps(5.0);
    assert!(f32x4(_mm_min_ps(nan, x, FPCR))[0].is_nan());
    assert!(f32x4(_mm_max_ps(nan, x, FPCR))[0].is_nan());
}

#[test]
fn min_max_pd_default_propagates_nan() {
    let nan = set1_pd(qnan64());
    let x = set1_pd(5.0);
    assert!(f64x2(_mm_min_pd(nan, x, FPCR))[0].is_nan());
    assert!(f64x2(_mm_max_pd(nan, x, FPCR))[0].is_nan());
}

#[test]
fn min_max_pd_never_invent_nan_from_finite() {
    let a = set1_pd(3.0);
    let b = set1_pd(5.0);
    assert_eq!(f64x2(_mm_min_pd(a, b, FPCR))[0], 3.0);
    assert_eq!(f64x2(_mm_max_pd(a, b, FPCR))[0], 5.0);
}

#[test]
fn min_max_signed_zeros_and_nan_order() {
    let pz = set1_ps(0.0);
    let nz = set1_ps(-0.0);
    assert_eq!(f32x4(_mm_max_ps(nz, pz, FPCR))[0].to_bits(), 0);
    assert_eq!(f32x4(_mm_min_ps(pz, nz, FPCR))[0].to_bits(), 0x8000_0000);
    // The first NaN wins, a signalling NaN before a quiet one, and comes back quiet.
    let q1 = set1_ps(f32::from_bits(0x7FC0_0001));
    let q2 = set1_ps(f32::from_bits(0x7FC0_0002));
    let s3 = set1_ps(f32::from_bits(0x7F80_0003));
    assert_eq!(f32x4(_mm_max_ps(q1, q2, FPCR))[0].to_bits(), 0x7FC0_0001);
    assert_eq!(f32x4(_mm_max_ps(q1, s3, FPCR))[0].to_bits(), 0x7FC0_0003);
    assert_eq!(f32x4(_mm_min_ps(q1, s3, DN))[0].to_bits(), 0x7FC0_0000);
    // Flushing makes a denormal equal to zero.
    let tiny = set1_ps(f32::from_bits(1));
    let fz = _MM_SET_FLUSH_ZERO_MODE(FPCR, _MM_FLUSH_ZERO_ON);
    assert_eq!(f32x4(_mm_max_ps(tiny, pz, FPCR))[0].to_bits(), 1);
    assert_eq!(f32x4(_mm_max_ps(tiny, pz, fz))[0].to_bits(), 0);
    let neg = set1_pd(-7.0);
    assert_eq!(f64x2(_mm_min_pd(neg, set1_pd(f64::NEG_INFINITY), FPCR))[0], f64::NEG_INFINITY);
    assert_eq!(f64x2(_mm_max_pd(neg, set1_pd(-8.0), FPCR))[0], -7.0);
}

#[test]
fn compares_read_flushed_denormals_as_zero() {
    let tiny = set1_ps(f32::from_bits(1));
    let zero = set1_ps(0.0);
    let fz = _MM_SET_FLUSH_ZERO_MODE(FPCR, _MM_FLUSH_ZERO_ON);
    assert_eq!(_mm_cmpeq_ps(tiny, zero, FPCR).f32_bits()[0], 0);
    assert_eq!(_mm_cmpeq_ps(tiny, zero, fz).f32_bits()[0], 0xffff_ffff);
    assert_eq!(_mm_comieq_ss(tiny, zero, FPCR), 0);
    assert_eq!(_mm_comieq_ss(tiny, zero, fz), 1);
    let dtiny = set1_pd(f64::from_bits(1));
    let dzero = set1_pd(0.0);
    assert_eq!(_mm_cmplt_pd(dzero, dtiny, FPCR).f64_bits()[0], u64::MAX);
    assert_eq!(_mm_cmplt_pd(dzero, dtiny, fz).f64_bits()[0], 0);
}
