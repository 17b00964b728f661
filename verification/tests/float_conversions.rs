//! Conversions between `f32`, `f64` and integers, checked against the host.

use sse2neon::constants::{_MM_ROUND_DOWN, _MM_ROUND_NEAREST, _MM_ROUND_UP};
use sse2neon::mxcsr::_MM_SET_ROUNDING_MODE;
use sse2neon::sse2::{
    _mm_cvtepi32_pd, _mm_cvtepi32_ps, _mm_cvtpd_ps, _mm_cvtps_pd, _mm_cvtsd_ss, _mm_cvtsi32_sd,
    _mm_cvtsi64_sd, _mm_cvtss_sd, _mm_set_epi32,
};
use sse2neon::types::{__m128, __m128d};

const FPCR: u64 = 0;

fn set_ps(e3: f32, e2: f32, e1: f32, e0: f32) -> __m128 {
    __m128::from_f32_bits([e0.to_bits(), e1.to_bits(), e2.to_bits(), e3.to_bits()])
}

fn set1_pd(w: f64) -> __m128d {
    __m128d::from_f64_bits([w.to_bits(); 2])
}

fn f32x4(a: __m128) -> [f32; 4] {
    a.f32_bits().map(f32::from_bits)
}

fn f64x2(a: __m128d) -> [f64; 2] {
    a.f64_bits().map(f64::from_bits)
}

struct Rng(u64);

impl Rng {
    fn next(&mut self) -> u64 {
        self.0 = self.0.wrapping_add(0x9e37_79b9_7f4a_7c15);
        let mut z = self.0;
        z = (z ^ (z >> 30)).wrapping_mul(0xbf58_476d_1ce4_e5b9);
        z = (z ^ (z >> 27)).wrapping_mul(0x94d0_49bb_1331_11eb);
        z ^ (z >> 31)
    }
}

#[test]
fn cvtsd_ss_respects_rounding_mode() {
    // 1 + 2^-24 has no exact f32. Round-up and round-down give adjacent f32
    // values, so the low bit of the narrowing exposes the mode.
    let val = 1.0 + 2.0f64.powi(-24);
    let upper = set_ps(4.0, 3.0, 2.0, 9.0);
    let src = set1_pd(val);

    let up = f32x4(_mm_cvtsd_ss(upper, src, _MM_SET_ROUNDING_MODE(FPCR, _MM_ROUND_UP)))[0];
    let down = f32x4(_mm_cvtsd_ss(upper, src, _MM_SET_ROUNDING_MODE(FPCR, _MM_ROUND_DOWN)))[0];

    assert!(up > down, "round-up {up} must exceed round-down {down}");
    assert_eq!(down, 1.0f32); // truncates the extra bit
    let r = f32x4(_mm_cvtsd_ss(upper, src, FPCR));
    assert_eq!(&r[1..], &[2.0, 3.0, 4.0]);
}

#[test]
fn narrowing_and_widening_match_host() {
    let mut rng = Rng(777);
    for _ in 0..20000 {
        let r = rng.next();
        let d = match r % 4 {
            0 => f64::from_bits(r & 0x800f_ffff_ffff_ffff),
            1 => f64::from_bits((r & 0x807f_ffff_ffff_ffff) | 0x3800_0000_0000_0000),
            _ => f64::from_bits(r),
        };
        let got = _mm_cvtpd_ps(set1_pd(d), FPCR).f32_bits()[0];
        let want = d as f32;
        if want.is_nan() {
            assert!(f32::from_bits(got).is_nan());
        } else {
            assert_eq!(got, want.to_bits(), "{:#x}", d.to_bits());
        }
        let f = f32::from_bits(r as u32);
        let wide = _mm_cvtps_pd(__m128::from_f32_bits([f.to_bits(); 4]), FPCR).f64_bits()[0];
        if f.is_nan() {
            assert!(f64::from_bits(wide).is_nan());
        } else {
            assert_eq!(wide, (f as f64).to_bits());
        }
        let v = r as i64 >> (r % 40);
        assert_eq!(
            _mm_cvtsi64_sd(set1_pd(0.0), v, FPCR).f64_bits()[0],
            (v as f64).to_bits()
        );
        let w = r as i32;
        let i = _mm_set_epi32(w, w, w, w);
        assert_eq!(_mm_cvtepi32_ps(i, FPCR).f32_bits()[0], (w as f32).to_bits());
        assert_eq!(_mm_cvtepi32_pd(i).f64_bits()[0], (w as f64).to_bits());
        assert_eq!(_mm_cvtsi32_sd(set1_pd(0.0), w).f64_bits()[0], (w as f64).to_bits());
    }
}

#[test]
fn conversion_lanes_and_nans() {
    let r = f32x4(_mm_cvtpd_ps(__m128d::from_f64_bits([1.5f64.to_bits(), (-2.25f64).to_bits()]), FPCR));
    assert_eq!(r, [1.5, -2.25, 0.0, 0.0]);
    let w = f64x2(_mm_cvtps_pd(set_ps(9.0, 8.0, -0.5, 0.25), FPCR));
    assert_eq!(w, [0.25, -0.5]);
    let s = f64x2(_mm_cvtss_sd(set1_pd(7.0), set_ps(1.0, 1.0, 1.0, 3.5), FPCR));
    assert_eq!(s, [3.5, 7.0]);
    // A NaN keeps its sign and the top of its payload, quieted.
    let n = f32x4(_mm_cvtpd_ps(set1_pd(f64::from_bits(0xfff0_0000_2000_0000)), FPCR))[0];
    assert_eq!(n.to_bits(), 0xffc0_0001);
    let m = f64x2(_mm_cvtps_pd(__m128::from_f32_bits([0x7f80_0001; 4]), FPCR))[0];
    assert_eq!(m.to_bits(), 0x7ff8_0000_2000_0000);
    // Out of range narrows to infinity, or the largest finite value toward zero.
    assert_eq!(f32x4(_mm_cvtpd_ps(set1_pd(1e300), FPCR))[0], f32::INFINITY);
    let toward_zero = _MM_SET_ROUNDING_MODE(FPCR, 0x6000);
    assert_eq!(f32x4(_mm_cvtpd_ps(set1_pd(1e300), toward_zero))[0], f32::MAX);
    // Integers round under the mode of the register.
    let big = _mm_set_epi32(0, 0, 0, 16777217);
    let up = _MM_SET_ROUNDING_MODE(FPCR, _MM_ROUND_UP);
    assert_eq!(f32x4(_mm_cvtepi32_ps(big, up))[0], 16777218.0);
    assert_eq!(f32x4(_mm_cvtepi32_ps(big, _MM_SET_ROUNDING_MODE(FPCR, _MM_ROUND_NEAREST)))[0], 16777216.0);
    assert_eq!(f64x2(_mm_cvtsi64_sd(set1_pd(1.0), i64::MAX, up))[0], 9223372036854775808.0);
}
