//! NaN handling across comparisons, bitwise ops, blends and compares returning int.

use sse2neon::constants::_MM_SHUFFLE;
use sse2neon::sse::{
    _mm_and_ps, _mm_cmpeq_ps, _mm_cmpge_ps, _mm_cmpgt_ps, _mm_cmple_ps, _mm_cmplt_ps,
    _mm_cmpneq_ps, _mm_cmpnge_ps, _mm_cmpnlt_ps, _mm_comieq_ss, _mm_comigt_ss, _mm_comilt_ss,
    _mm_comineq_ss, _mm_shuffle_ps,
};
use sse2neon::sse2::_mm_set1_epi32;
use sse2neon::sse41::_mm_blendv_ps;
use sse2neon::types::{__m128, _mm_castps_si128, _mm_castsi128_ps};

fn qnan() -> f32 {
    f32::from_bits(0x7FC0_0000)
}

fn set1_ps(w: f32) -> __m128 {
    __m128::from_f32_bits([w.to_bits(); 4])
}

fn set_ss(w: f32) -> __m128 {
    __m128::from_f32_bits([w.to_bits(), 0, 0, 0])
}

fn f32x4(a: __m128) -> [f32; 4] {
    a.f32_bits().map(f32::from_bits)
}

fn i32x4(a: __m128) -> [i32; 4] {
    _mm_castps_si128(a).s32()
}

#[test]
fn all_compares_with_nan() {
    let nan = set1_ps(qnan());
    let x = set1_ps(1.0);
    // Every ordered comparison is false with a NaN operand.
    assert_eq!(i32x4(_mm_cmpeq_ps(nan, x, 0))[0], 0);
    assert_eq!(i32x4(_mm_cmplt_ps(nan, x, 0))[0], 0);
    assert_eq!(i32x4(_mm_cmple_ps(nan, x, 0))[0], 0);
    assert_eq!(i32x4(_mm_cmpgt_ps(nan, x, 0))[0], 0);
    assert_eq!(i32x4(_mm_cmpge_ps(nan, x, 0))[0], 0);
    // Not-equal is true with a NaN operand.
    assert_eq!(i32x4(_mm_cmpneq_ps(nan, x, 0))[0], -1);
    // The negated forms are true with a NaN operand.
    assert_eq!(i32x4(_mm_cmpnlt_ps(nan, x, 0))[0], -1);
    assert_eq!(i32x4(_mm_cmpnge_ps(nan, x, 0))[0], -1);
}

#[test]
fn nan_payload_survives_bitwise_and_shuffle() {
    // A NaN bit pattern passes unchanged through a bitwise identity and a
    // shuffle that only moves lanes.
    let payload = f32::from_bits(0x7FC1_2345);
    let a = set1_ps(payload);
    let ident = _mm_castsi128_ps(_mm_set1_epi32(-1));
    let anded = f32x4(_mm_and_ps(a, ident));
    assert_eq!(anded[0].to_bits(), 0x7FC1_2345);
    let shuffled = f32x4(_mm_shuffle_ps(a, a, _MM_SHUFFLE(3, 2, 1, 0)));
    assert_eq!(shuffled[0].to_bits(), 0x7FC1_2345);
}

#[test]
fn blendv_with_nan_operands_and_selector() {
    let a = set1_ps(qnan());
    let b = set1_ps(2.0);
    // Selector positive picks a, negative picks b. NaN passes through unchanged.
    let mask_pos = set1_ps(1.0);
    let r = f32x4(_mm_blendv_ps(a, b, mask_pos));
    assert!(r[0].is_nan()); // sign bit clear -> a
    let mask_neg = set1_ps(-1.0);
    let r2 = f32x4(_mm_blendv_ps(a, b, mask_neg));
    assert_eq!(r2[0], 2.0); // sign bit set -> b
}

#[test]
fn comi_with_nan() {
    let nan = set_ss(qnan());
    let x = set_ss(1.0);
    // Ordered compares return 0 with NaN, except not-equal which returns 1.
    assert_eq!(_mm_comieq_ss(nan, x, 0), 0);
    assert_eq!(_mm_comilt_ss(nan, x, 0), 0);
    assert_eq!(_mm_comigt_ss(nan, x, 0), 0);
    assert_eq!(_mm_comineq_ss(nan, x, 0), 1);
}
