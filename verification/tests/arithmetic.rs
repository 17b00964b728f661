//! Correctly rounded `f32` and `f64` arithmetic on bit patterns, checked
//! against the host's own floating-point unit and against fixed cases.

use sse2neon::constants::{_MM_FLUSH_ZERO_ON, _MM_ROUND_DOWN, _MM_ROUND_TOWARD_ZERO, _MM_ROUND_UP};
use sse2neon::mxcsr::{_MM_SET_FLUSH_ZERO_MODE, _MM_SET_ROUNDING_MODE};
use sse2neon::sse::{
    _mm_add_ps, _mm_add_ss, _mm_div_ps, _mm_div_ss, _mm_mul_ps, _mm_mul_ss, _mm_sqrt_ps, _mm_sqrt_ss,
    _mm_sub_ps, _mm_sub_ss,
};
use sse2neon::sse2::{
    _mm_add_pd, _mm_add_sd, _mm_div_pd, _mm_div_sd, _mm_move_sd, _mm_mul_pd, _mm_mul_sd,
    _mm_sqrt_pd, _mm_sub_pd, _mm_sub_sd,
};
use sse2neon::sse3::{_mm_addsub_pd, _mm_addsub_ps, _mm_hadd_pd, _mm_hadd_ps, _mm_hsub_pd, _mm_hsub_ps};
use sse2neon::constants::_MM_FROUND_TO_ZERO;
use sse2neon::sse41::{_mm_ceil_sd, _mm_dp_pd, _mm_dp_ps, _mm_floor_sd, _mm_round_sd};
use sse2neon::types::{__m128, __m128d};

/// Round to nearest, no flushing, no default NaN.
const FPCR: u64 = 0;

fn qnan() -> f32 {
    f32::from_bits(0x7FC0_0000)
}

fn qnan64() -> f64 {
    f64::from_bits(0x7FF8_0000_0000_0000)
}

fn set1_ps(w: f32) -> __m128 {
    __m128::from_f32_bits([w.to_bits(); 4])
}

fn set_ps(e3: f32, e2: f32, e1: f32, e0: f32) -> __m128 {
    __m128::from_f32_bits([e0.to_bits(), e1.to_bits(), e2.to_bits(), e3.to_bits()])
}

fn set1_pd(w: f64) -> __m128d {
    __m128d::from_f64_bits([w.to_bits(); 2])
}

fn set_pd(e1: f64, e0: f64) -> __m128d {
    __m128d::from_f64_bits([e0.to_bits(), e1.to_bits()])
}

fn f32x4(a: __m128) -> [f32; 4] {
    a.f32_bits().map(f32::from_bits)
}

fn f64x2(a: __m128d) -> [f64; 2] {
    a.f64_bits().map(f64::from_bits)
}

/// SplitMix64, for reproducible inputs.
struct Rng(u64);

impl Rng {
    fn next(&mut self) -> u64 {
        self.0 = self.0.wrapping_add(0x9e37_79b9_7f4a_7c15);
        let mut z = self.0;
        z = (z ^ (z >> 30)).wrapping_mul(0xbf58_476d_1ce4_e5b9);
        z = (z ^ (z >> 27)).wrapping_mul(0x94d0_49bb_1331_11eb);
        z ^ (z >> 31)
    }

    /// A bit pattern biased toward the interesting corners of the format.
    fn f32_bits(&mut self) -> u32 {
        let r = self.next();
        let bits = r as u32;
        match (r >> 40) % 8 {
            0 => bits & 0x807f_ffff,                   // denormals and zeros
            1 => (bits & 0x80ff_ffff) | 0x3f00_0000,   // near one
            2 => bits | 0x7f00_0000,                   // huge, infinities, NaN
            3 => [0, 0x8000_0000, 0x7f80_0000, 0xff80_0000, 0x0000_0001][(r >> 50) as usize % 5],
            _ => bits,
        }
    }

    fn f64_bits(&mut self) -> u64 {
        let r = self.next();
        match (r >> 3) % 8 {
            0 => r & 0x800f_ffff_ffff_ffff,
            1 => (r & 0x801f_ffff_ffff_ffff) | 0x3fe0_0000_0000_0000,
            2 => r | 0x7fe0_0000_0000_0000,
            3 => [0, 0x8000_0000_0000_0000, 0x7ff0_0000_0000_0000, 1][(r >> 50) as usize % 4],
            _ => r,
        }
    }
}

fn same32(got: u32, want: f32) -> bool {
    if want.is_nan() {
        f32::from_bits(got).is_nan()
    } else {
        got == want.to_bits()
    }
}

fn same64(got: u64, want: f64) -> bool {
    if want.is_nan() {
        f64::from_bits(got).is_nan()
    } else {
        got == want.to_bits()
    }
}

#[test]
fn f32_arithmetic_matches_host() {
    let mut rng = Rng(123456);
    for _ in 0..20000 {
        let (x, y) = (rng.f32_bits(), rng.f32_bits());
        let (a, b) = (set1_ps(f32::from_bits(x)), set1_ps(f32::from_bits(y)));
        let (fx, fy) = (f32::from_bits(x), f32::from_bits(y));
        let s = _mm_add_ps(a, b, FPCR).f32_bits()[0];
        assert!(same32(s, fx + fy), "{x:#x} + {y:#x} gave {s:#x}");
        let d = _mm_sub_ps(a, b, FPCR).f32_bits()[0];
        assert!(same32(d, fx - fy), "{x:#x} - {y:#x} gave {d:#x}");
        let p = _mm_mul_ps(a, b, FPCR).f32_bits()[0];
        assert!(same32(p, fx * fy), "{x:#x} * {y:#x} gave {p:#x}");
        let q = _mm_div_ps(a, b, FPCR).f32_bits()[0];
        assert!(same32(q, fx / fy), "{x:#x} / {y:#x} gave {q:#x}");
        let r = _mm_sqrt_ps(a, FPCR).f32_bits()[0];
        assert!(same32(r, fx.sqrt()), "sqrt {x:#x} gave {r:#x}");
    }
}

#[test]
fn f64_arithmetic_matches_host() {
    let mut rng = Rng(654321);
    for _ in 0..20000 {
        let (x, y) = (rng.f64_bits(), rng.f64_bits());
        let (a, b) = (set1_pd(f64::from_bits(x)), set1_pd(f64::from_bits(y)));
        let (fx, fy) = (f64::from_bits(x), f64::from_bits(y));
        let s = _mm_add_pd(a, b, FPCR).f64_bits()[0];
        assert!(same64(s, fx + fy), "{x:#x} + {y:#x} gave {s:#x}");
        let d = _mm_sub_pd(a, b, FPCR).f64_bits()[0];
        assert!(same64(d, fx - fy), "{x:#x} - {y:#x} gave {d:#x}");
        let p = _mm_mul_pd(a, b, FPCR).f64_bits()[0];
        assert!(same64(p, fx * fy), "{x:#x} * {y:#x} gave {p:#x}");
        let q = _mm_div_pd(a, b, FPCR).f64_bits()[0];
        assert!(same64(q, fx / fy), "{x:#x} / {y:#x} gave {q:#x}");
        let r = _mm_sqrt_pd(a, FPCR).f64_bits()[0];
        assert!(same64(r, fx.sqrt()), "sqrt {x:#x} gave {r:#x}");
    }
}

#[test]
fn directed_rounding_and_flushing() {
    let up = _MM_SET_ROUNDING_MODE(FPCR, _MM_ROUND_UP);
    let down = _MM_SET_ROUNDING_MODE(FPCR, _MM_ROUND_DOWN);
    let zero = _MM_SET_ROUNDING_MODE(FPCR, _MM_ROUND_TOWARD_ZERO);
    // 1 + 2^-30 is between 1 and the next f32.
    let one = set1_ps(1.0);
    let tiny = set1_ps(f32::from_bits(0x3080_0000)); // 2^-30
    assert_eq!(f32x4(_mm_add_ps(one, tiny, up))[0].to_bits(), 0x3f80_0001);
    assert_eq!(f32x4(_mm_add_ps(one, tiny, down))[0].to_bits(), 0x3f80_0000);
    assert_eq!(f32x4(_mm_add_ps(one, tiny, FPCR))[0].to_bits(), 0x3f80_0000);
    assert_eq!(f32x4(_mm_sub_ps(one, tiny, down))[0].to_bits(), 0x3f7f_ffff);
    assert_eq!(f32x4(_mm_sub_ps(one, tiny, zero))[0].to_bits(), 0x3f7f_ffff);
    // Overflow: infinity to nearest, the largest finite value toward zero.
    let big = set1_ps(f32::MAX);
    assert_eq!(f32x4(_mm_mul_ps(big, set1_ps(2.0), FPCR))[0], f32::INFINITY);
    assert_eq!(f32x4(_mm_mul_ps(big, set1_ps(2.0), zero))[0], f32::MAX);
    assert_eq!(f32x4(_mm_mul_ps(big, set1_ps(-2.0), up))[0], f32::MIN);
    assert_eq!(f32x4(_mm_mul_ps(big, set1_ps(-2.0), down))[0], f32::NEG_INFINITY);
    // An exact zero difference is -0.0 only when rounding down.
    assert_eq!(f32x4(_mm_sub_ps(one, one, FPCR))[0].to_bits(), 0);
    assert_eq!(f32x4(_mm_sub_ps(one, one, down))[0].to_bits(), 0x8000_0000);
    // Flushing: a denormal result becomes zero, and denormal operands read as zero.
    let fz = _MM_SET_FLUSH_ZERO_MODE(FPCR, _MM_FLUSH_ZERO_ON);
    let small = set1_ps(f32::from_bits(0x0080_0000)); // smallest normal
    let half = set1_ps(0.5);
    assert_eq!(f32x4(_mm_mul_ps(small, half, FPCR))[0].to_bits(), 0x0040_0000);
    assert_eq!(f32x4(_mm_mul_ps(small, half, fz))[0].to_bits(), 0);
    let den = set1_ps(f32::from_bits(0x0000_0003));
    assert_eq!(f32x4(_mm_add_ps(den, den, FPCR))[0].to_bits(), 6);
    assert_eq!(f32x4(_mm_add_ps(den, den, fz))[0].to_bits(), 0);
    // Doubles follow the same rules.
    let d1 = set1_pd(1.0);
    let dt = set1_pd(f64::from_bits(0x3c00_0000_0000_0000)); // 2^-63
    assert_eq!(f64x2(_mm_add_pd(d1, dt, up))[0].to_bits(), 0x3ff0_0000_0000_0001);
    assert_eq!(f64x2(_mm_add_pd(d1, dt, FPCR))[0].to_bits(), 0x3ff0_0000_0000_0000);
    assert_eq!(f64x2(_mm_mul_pd(set1_pd(f64::MAX), set1_pd(2.0), zero))[0], f64::MAX);
}

#[test]
fn nan_propagates_through_arithmetic() {
    let a = set1_ps(qnan());
    let b = set1_ps(1.0);
    assert!(f32x4(_mm_add_ps(a, b, FPCR))[0].is_nan());
    assert!(f32x4(_mm_sub_ps(a, b, FPCR))[0].is_nan());
    assert!(f32x4(_mm_mul_ps(a, b, FPCR))[0].is_nan());
    assert!(f32x4(_mm_div_ps(a, b, FPCR))[0].is_nan());
}

#[test]
fn infinity_arithmetic() {
    let inf = set1_ps(f32::INFINITY);
    let one = set1_ps(1.0);
    assert_eq!(f32x4(_mm_add_ps(inf, one, FPCR))[0], f32::INFINITY);
    // inf - inf = NaN
    assert!(f32x4(_mm_sub_ps(inf, inf, FPCR))[0].is_nan());
    // 0 * inf = NaN
    let zero = set1_ps(0.0);
    assert!(f32x4(_mm_mul_ps(zero, inf, FPCR))[0].is_nan());
    assert_eq!(f32x4(_mm_mul_ps(zero, inf, FPCR))[0].to_bits(), 0x7fc0_0000);
    // inf / inf = NaN
    assert!(f32x4(_mm_div_ps(inf, inf, FPCR))[0].is_nan());
    // x / 0 is a signed infinity, x / inf a signed zero.
    assert_eq!(f32x4(_mm_div_ps(set1_ps(-2.0), zero, FPCR))[0], f32::NEG_INFINITY);
    assert_eq!(f32x4(_mm_div_ps(set1_ps(-2.0), inf, FPCR))[0].to_bits(), 0x8000_0000);
}

#[test]
fn signed_zero_preserved() {
    let neg = set1_ps(-0.0);
    assert_eq!(f32x4(neg)[0].to_bits(), 0x8000_0000);
    // +0.0 + -0.0 = +0.0
    let pos = set1_ps(0.0);
    assert_eq!(f32x4(_mm_add_ps(pos, neg, FPCR))[0].to_bits(), 0);
    assert_eq!(f32x4(_mm_add_ps(neg, neg, FPCR))[0].to_bits(), 0x8000_0000);
}

#[test]
fn signed_zero_in_double() {
    let neg = set1_pd(-0.0);
    assert_eq!(f64x2(neg)[0].to_bits(), 0x8000_0000_0000_0000);
    assert_eq!(f64x2(_mm_mul_pd(neg, set1_pd(3.0), FPCR))[0].to_bits(), 0x8000_0000_0000_0000);
}

#[test]
fn nan_first_or_second_operand() {
    let nan = set1_ps(qnan());
    let x = set1_ps(3.0);
    for (a, b) in [(nan, x), (x, nan)] {
        assert!(f32x4(_mm_add_ps(a, b, FPCR))[0].is_nan());
        assert!(f32x4(_mm_sub_ps(a, b, FPCR))[0].is_nan());
        assert!(f32x4(_mm_mul_ps(a, b, FPCR))[0].is_nan());
        assert!(f32x4(_mm_div_ps(a, b, FPCR))[0].is_nan());
    }
    // The first NaN operand comes back, quieted.
    let p1 = set1_ps(f32::from_bits(0x7fc0_0011));
    let p2 = set1_ps(f32::from_bits(0xffc0_0022));
    assert_eq!(f32x4(_mm_add_ps(p1, p2, FPCR))[0].to_bits(), 0x7fc0_0011);
    assert_eq!(f32x4(_mm_mul_ps(p2, p1, FPCR))[0].to_bits(), 0xffc0_0022);
    let s = set1_ps(f32::from_bits(0x7f80_0033));
    assert_eq!(f32x4(_mm_sub_ps(p1, s, FPCR))[0].to_bits(), 0x7fc0_0033);
}

#[test]
fn nan_in_double_arithmetic() {
    let nan = set1_pd(qnan64());
    let x = set1_pd(2.0);
    assert!(f64x2(_mm_add_pd(nan, x, FPCR))[0].is_nan());
    assert!(f64x2(_mm_mul_pd(x, nan, FPCR))[0].is_nan());
}

#[test]
fn scalar_ss_upper_lanes() {
    let a = set_ps(4.0, 3.0, 2.0, 1.0);
    let b = set_ps(40.0, 30.0, 20.0, 10.0);
    let r = f32x4(_mm_add_ss(a, b, FPCR));
    assert_eq!(r, [11.0, 2.0, 3.0, 4.0]);
    let r = f32x4(_mm_mul_ss(a, b, FPCR));
    assert_eq!(r, [10.0, 2.0, 3.0, 4.0]);
    assert_eq!(f32x4(_mm_sub_ss(a, b, FPCR)), [-9.0, 2.0, 3.0, 4.0]);
    assert_eq!(f32x4(_mm_div_ss(a, b, FPCR)), [0.1, 2.0, 3.0, 4.0]);
}

#[test]
fn scalar_sd_upper_lane_copy() {
    let a = set_pd(2.0, 1.0);
    let b = set_pd(4.0, 3.0);
    assert_eq!(f64x2(_mm_add_sd(a, b, FPCR)), [4.0, 2.0]);
    assert_eq!(f64x2(_mm_sub_sd(a, b, FPCR)), [-2.0, 2.0]);
    assert_eq!(f64x2(_mm_mul_sd(a, b, FPCR)), [3.0, 2.0]);
    assert_eq!(f64x2(_mm_div_sd(a, b, FPCR)), [1.0 / 3.0, 2.0]);
    assert_eq!(f64x2(_mm_move_sd(a, b)), [3.0, 2.0]);

    let c = set_pd(40.0, 2.7);
    assert_eq!(f64x2(_mm_round_sd(a, c, _MM_FROUND_TO_ZERO, FPCR)), [2.0, 2.0]);
    assert_eq!(f64x2(_mm_floor_sd(a, c, FPCR)), [2.0, 2.0]);
    assert_eq!(f64x2(_mm_ceil_sd(a, c, FPCR)), [3.0, 2.0]);
}

#[test]
fn hadd_ps() {
    let a = set_ps(4.0, 3.0, 2.0, 1.0);
    let b = set_ps(8.0, 7.0, 6.0, 5.0);
    assert_eq!(f32x4(_mm_hadd_ps(a, b, FPCR)), [3.0, 7.0, 11.0, 15.0]);
}

#[test]
fn hsub_ps() {
    let a = set_ps(4.0, 3.0, 2.0, 1.0);
    let b = set_ps(8.0, 7.0, 6.0, 5.0);
    assert_eq!(f32x4(_mm_hsub_ps(a, b, FPCR)), [-1.0, -1.0, -1.0, -1.0]);
}

#[test]
fn addsub_ps() {
    let a = set_ps(4.0, 3.0, 2.0, 1.0);
    let b = set_ps(1.0, 1.0, 1.0, 1.0);
    assert_eq!(f32x4(_mm_addsub_ps(a, b, FPCR)), [0.0, 3.0, 2.0, 5.0]);
}

#[test]
fn hadd_pd_and_addsub_pd() {
    let a = set_pd(2.0, 1.0);
    let b = set_pd(4.0, 3.0);
    assert_eq!(f64x2(_mm_hadd_pd(a, b, FPCR)), [3.0, 7.0]);
    assert_eq!(f64x2(_mm_addsub_pd(a, b, FPCR)), [-2.0, 6.0]);
    assert_eq!(f64x2(_mm_hsub_pd(a, b, FPCR)), [-1.0, -1.0]);
}

#[test]
fn dot_product_ps() {
    let a = set_ps(4.0, 3.0, 2.0, 1.0);
    let b = set_ps(5.0, 6.0, 7.0, 8.0);
    let r = f32x4(_mm_dp_ps(a, b, 0xFF, FPCR));
    assert_eq!(r, [60.0, 60.0, 60.0, 60.0]);
    let r2 = f32x4(_mm_dp_ps(a, b, 0xF1, FPCR));
    assert_eq!(r2, [60.0, 0.0, 0.0, 0.0]);
    // Only the products selected by bits 4-7 contribute.
    let r3 = f32x4(_mm_dp_ps(a, b, 0x3A, FPCR));
    assert_eq!(r3, [0.0, 22.0, 0.0, 22.0]);
}

#[test]
fn dot_product_pd() {
    let a = set_pd(2.0, 1.0);
    let b = set_pd(4.0, 3.0);
    let r = f64x2(_mm_dp_pd(a, b, 0x31, FPCR));
    assert_eq!(r, [11.0, 0.0]);
    assert_eq!(f64x2(_mm_dp_pd(a, b, 0x22, FPCR)), [0.0, 8.0]);
}

#[test]
fn dot_product_accumulates_in_lane_order() {
    // (2^24 + 1 - 2^24): the order of the additions decides the rounding.
    let a = set_ps(1.0, -16777216.0, 1.0, 16777216.0);
    let b = set1_ps(1.0);
    // ((0 + 2^24) + 1) rounds back to 2^24; then - 2^24 gives 0; then + 1.
    assert_eq!(f32x4(_mm_dp_ps(a, b, 0xF1, FPCR))[0], 1.0);
}

#[test]
fn double_arithmetic() {
    let a = set_pd(3.0, 1.0);
    let b = set_pd(4.0, 2.0);
    assert_eq!(f64x2(_mm_add_pd(a, b, FPCR)), [3.0, 7.0]);
    assert_eq!(f64x2(_mm_sub_pd(a, b, FPCR)), [-1.0, -1.0]);
    assert_eq!(f64x2(_mm_mul_pd(a, b, FPCR)), [2.0, 12.0]);
    assert_eq!(f64x2(_mm_div_pd(a, b, FPCR)), [0.5, 0.75]);
}

#[test]
fn nan_generation() {
    let zero = set1_ps(0.0);
    let inf = set1_ps(f32::INFINITY);
    assert!(f32x4(_mm_div_ps(zero, zero, FPCR))[0].is_nan());
    assert!(f32x4(_mm_sub_ps(inf, inf, FPCR))[0].is_nan());
    assert!(f32x4(_mm_mul_ps(inf, zero, FPCR))[0].is_nan());
    assert!(f32x4(_mm_div_ps(inf, inf, FPCR))[0].is_nan());
    assert!(f32x4(_mm_sqrt_ps(set1_ps(-1.0), FPCR))[0].is_nan());
}

#[test]
fn sqrt_of_negative_is_nan() {
    let a = set1_ps(-4.0);
    assert!(f32x4(_mm_sqrt_ps(a, FPCR))[0].is_nan());
    // A negative zero is its own square root.
    assert_eq!(f32x4(_mm_sqrt_ps(set1_ps(-0.0), FPCR))[0].to_bits(), 0x8000_0000);
    assert_eq!(f64x2(_mm_sqrt_pd(set1_pd(f64::INFINITY), FPCR))[0], f64::INFINITY);
}

#[test]
fn scalar_ss_arithmetic_upper_lanes() {
    let a = set_ps(4.0, 3.0, 2.0, 1.0);
    let b = set_ps(40.0, 30.0, 20.0, 10.0);
    assert_eq!(f32x4(_mm_sub_ss(a, b, FPCR)), [-9.0, 2.0, 3.0, 4.0]);
    assert_eq!(f32x4(_mm_div_ss(a, b, FPCR)), [0.1, 2.0, 3.0, 4.0]);
    let s = set_ps(4.0, 3.0, 2.0, 16.0);
    assert_eq!(f32x4(_mm_sqrt_ss(s, FPCR)), [4.0, 2.0, 3.0, 4.0]);
}

#[test]
fn sqrt_exact_squares_and_directed_rounding() {
    // Every exactly representable square root, and the directed roundings of sqrt(2).
    for i in 1..2000u32 {
        let v = (i * i) as f32;
        assert_eq!(f32x4(_mm_sqrt_ps(set1_ps(v), FPCR))[0], i as f32);
    }
    let two = set1_ps(2.0);
    let up = _MM_SET_ROUNDING_MODE(FPCR, _MM_ROUND_UP);
    let down = _MM_SET_ROUNDING_MODE(FPCR, _MM_ROUND_DOWN);
    assert_eq!(f32x4(_mm_sqrt_ps(two, FPCR))[0].to_bits(), 0x3fb5_04f3);
    assert_eq!(f32x4(_mm_sqrt_ps(two, down))[0].to_bits(), 0x3fb5_04f3);
    assert_eq!(f32x4(_mm_sqrt_ps(two, up))[0].to_bits(), 0x3fb5_04f4);
    // The smallest denormal has a normal square root.
    assert_eq!(f64x2(_mm_sqrt_pd(set1_pd(f64::from_bits(1)), FPCR))[0], f64::from_bits(1).sqrt());
}

#[test]
fn division_rounding_modes() {
    let one = set1_ps(1.0);
    let three = set1_ps(3.0);
    let up = _MM_SET_ROUNDING_MODE(FPCR, _MM_ROUND_UP);
    let down = _MM_SET_ROUNDING_MODE(FPCR, _MM_ROUND_DOWN);
    // 1/3 = 0x3eaaaaab to nearest; 0x3eaaaaaa below.
    assert_eq!(f32x4(_mm_div_ps(one, three, FPCR))[0].to_bits(), 0x3eaa_aaab);
    assert_eq!(f32x4(_mm_div_ps(one, three, down))[0].to_bits(), 0x3eaa_aaaa);
    assert_eq!(f32x4(_mm_div_ps(one, three, up))[0].to_bits(), 0x3eaa_aaab);
    let d = f64x2(_mm_div_pd(set1_pd(1.0), set1_pd(3.0), down))[0];
    assert_eq!(d.to_bits(), 0x3fd5_5555_5555_5555);
    // A quotient below the denormal range rounds to zero, or up to the smallest denormal.
    let tiny = set1_ps(f32::from_bits(1));
    assert_eq!(f32x4(_mm_div_ps(tiny, set1_ps(4.0), FPCR))[0].to_bits(), 0);
    assert_eq!(f32x4(_mm_div_ps(tiny, set1_ps(4.0), up))[0].to_bits(), 1);
    assert_eq!(f32x4(_mm_div_ps(tiny, set1_ps(2.0), FPCR))[0].to_bits(), 0);
    assert_eq!(f32x4(_mm_div_ps(set1_ps(f32::from_bits(3)), set1_ps(2.0), FPCR))[0].to_bits(), 2);
}
