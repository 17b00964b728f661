//! The laws of the library, each checked on concrete values.

use sse2neon::constants::_MM_ROUND_TOWARD_ZERO;
use sse2neon::mxcsr::_MM_SET_ROUNDING_MODE;
use sse2neon::sse::{_mm_add_ps, _mm_cmpeq_ps, _mm_cmpneq_ps, _mm_cmplt_ps, _mm_cmpnlt_ps, _mm_max_ps, _mm_min_ps, _mm_mul_ps};
use sse2neon::sse2::{
    _mm_cvtepi32_pd, _mm_cvtpd_ps, _mm_cvtps_pd, _mm_cvtsd_si32, _mm_cvttsd_si32, _mm_loadl_epi64,
    _mm_loadu_si128, _mm_set_epi32, _mm_storel_epi64, _mm_storeu_si128,
};
use sse2neon::types::{__m128, __m128d, __m128i, _mm_castps_si128, _mm_castsi128_ps, _mm_castpd_ps, _mm_castps_pd};

struct Rng(u64);

impl Rng {
    fn next(&mut self) -> u64 {
        self.0 = self.0.wrapping_add(0x9e37_79b9_7f4a_7c15);
        let mut z = self.0;
        z = (z ^ (z >> 30)).wrapping_mul(0xbf58_476d_1ce4_e5b9);
        z = (z ^ (z >> 27)).wrapping_mul(0x94d0_49bb_1331_11eb);
        z ^ (z >> 31)
    }
}

fn lanes(r: &mut Rng) -> [u32; 4] {
    [r.next() as u32, r.next() as u32, (r.next() as u32) | 0x7f80_0000, r.next() as u32 & 0x807f_ffff]
}

#[test]
fn law_negated_compares_on_values() {
    let mut r = Rng(1);
    for _ in 0..2000 {
        let a = __m128::from_f32_bits(lanes(&mut r));
        let b = __m128::from_f32_bits(lanes(&mut r));
        let eq = _mm_cmpeq_ps(a, b, 0).f32_bits();
        let ne = _mm_cmpneq_ps(a, b, 0).f32_bits();
        let lt = _mm_cmplt_ps(a, b, 0).f32_bits();
        let nlt = _mm_cmpnlt_ps(a, b, 0).f32_bits();
        for i in 0..4 {
            assert_eq!(eq[i], !ne[i]);
            assert_eq!(lt[i], !nlt[i]);
        }
    }
}

#[test]
fn law_minmax_and_commutation_on_values() {
    let mut r = Rng(2);
    for _ in 0..2000 {
        let (x, y) = (lanes(&mut r), lanes(&mut r));
        let (a, b) = (__m128::from_f32_bits(x), __m128::from_f32_bits(y));
        let mx = _mm_max_ps(a, b, 0).f32_bits();
        let mn = _mm_min_ps(a, b, 0).f32_bits();
        let s1 = _mm_add_ps(a, b, 0).f32_bits();
        let s2 = _mm_add_ps(b, a, 0).f32_bits();
        let p1 = _mm_mul_ps(a, b, 0).f32_bits();
        let p2 = _mm_mul_ps(b, a, 0).f32_bits();
        for i in 0..4 {
            let (fx, fy) = (f32::from_bits(x[i]), f32::from_bits(y[i]));
            if !fx.is_nan() && !fy.is_nan() {
                assert!(mx[i] == x[i] || mx[i] == y[i]);
                assert!(mn[i] == x[i] || mn[i] == y[i]);
                assert!(f32::from_bits(mx[i]) >= fx && f32::from_bits(mx[i]) >= fy);
                assert!(f32::from_bits(mn[i]) <= fx && f32::from_bits(mn[i]) <= fy);
                assert_eq!(s1[i], s2[i]);
                assert_eq!(p1[i], p2[i]);
            } else {
                assert!(f32::from_bits(mx[i]).is_nan() && f32::from_bits(mn[i]).is_nan());
                assert!(f32::from_bits(s1[i]).is_nan() && f32::from_bits(p1[i]).is_nan());
            }
        }
    }
}

#[test]
fn law_int_double_roundtrip_on_values() {
    let mut r = Rng(3);
    let tz = _MM_SET_ROUNDING_MODE(0, _MM_ROUND_TOWARD_ZERO);
    for _ in 0..2000 {
        let v = r.next() as i32;
        let i = _mm_set_epi32(0, 0, v.wrapping_neg(), v);
        let d = _mm_cvtepi32_pd(i);
        assert_eq!(_mm_cvtsd_si32(d, 0), v);
        assert_eq!(_mm_cvttsd_si32(d), v);
        assert_eq!(_mm_cvtsd_si32(d, tz), v);
    }
}

#[test]
fn law_toward_zero_mode_truncates_on_values() {
    let mut r = Rng(4);
    let tz = _MM_SET_ROUNDING_MODE(0, _MM_ROUND_TOWARD_ZERO);
    for _ in 0..2000 {
        let d = __m128d::from_f64_bits([r.next(), r.next()]);
        assert_eq!(_mm_cvtsd_si32(d, tz), _mm_cvttsd_si32(d));
    }
}

#[test]
fn law_widen_narrow_roundtrip_on_values() {
    let mut r = Rng(5);
    for _ in 0..2000 {
        let x = lanes(&mut r);
        let a = __m128::from_f32_bits(x);
        let back = _mm_cvtpd_ps(_mm_cvtps_pd(a, 0), 0).f32_bits();
        for i in 0..2 {
            if !f32::from_bits(x[i]).is_nan() {
                assert_eq!(back[i], x[i]);
            }
        }
    }
}

#[test]
fn law_casts_keep_bits_on_values() {
    let mut r = Rng(6);
    for _ in 0..2000 {
        let x = lanes(&mut r);
        let a = __m128::from_f32_bits(x);
        assert_eq!(_mm_castsi128_ps(_mm_castps_si128(a)).f32_bits(), x);
        assert_eq!(_mm_castpd_ps(_mm_castps_pd(a)).f32_bits(), x);
        let i = _mm_castps_si128(a);
        let mut bytes = [0u8; 16];
        _mm_storeu_si128(&mut bytes, i);
        let j = _mm_castps_si128(_mm_castsi128_ps(i));
        let mut again = [0u8; 16];
        _mm_storeu_si128(&mut again, j);
        assert_eq!(bytes, again);
    }
}

#[test]
fn law_load_after_store_on_values() {
    let mut mem = [0xAAu8; 24];
    let a = __m128i::from_s64([0x0706_0504_0302_0100, 0x0f0e_0d0c_0b0a_0908]);
    _mm_storeu_si128(&mut mem, a);
    assert_eq!(_mm_loadu_si128(&mem).s64(), a.s64());
    assert_eq!(&mem[16..], &[0xAA; 8]);
    let mut small = [0x55u8; 12];
    _mm_storel_epi64(&mut small, a);
    assert_eq!(_mm_loadl_epi64(&small).s64(), [0x0706_0504_0302_0100, 0]);
    assert_eq!(&small[8..], &[0x55; 4]);
}
