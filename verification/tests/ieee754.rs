//! IEEE-754 edge cases in the comparisons: NaN and signed zero.

use sse2neon::sse::{_mm_cmpeq_ps, _mm_cmpneq_ps, _mm_cmpord_ps, _mm_cmpunord_ps};
use sse2neon::types::{__m128, _mm_castps_si128};

fn qnan() -> f32 {
    f32::from_bits(0x7FC0_0000)
}

fn set1_ps(w: f32) -> __m128 {
    __m128::from_f32_bits([w.to_bits(); 4])
}

fn i32x4(a: __m128) -> [i32; 4] {
    _mm_castps_si128(a).s32()
}

#[test]
fn cmpord_and_cmpunord() {
    let nan = set1_ps(qnan());
    let one = set1_ps(1.0);
    // ordered: false where any NaN
    let ord = i32x4(_mm_cmpord_ps(nan, one, 0));
    assert_eq!(ord[0], 0);
    let ord2 = i32x4(_mm_cmpord_ps(one, one, 0));
    assert_eq!(ord2[0], -1);
    // unordered: true where any NaN
    let un = i32x4(_mm_cmpunord_ps(nan, one, 0));
    assert_eq!(un[0], -1);
}

#[test]
fn cmpeq_with_nan_is_false() {
    let nan = set1_ps(qnan());
    let eq = i32x4(_mm_cmpeq_ps(nan, nan, 0));
    assert_eq!(eq[0], 0);
    let neq = i32x4(_mm_cmpneq_ps(nan, nan, 0));
    assert_eq!(neq[0], -1);
}

#[test]
fn signed_zeros_compare_equal() {
    let pos = set1_ps(0.0);
    let neg = set1_ps(-0.0);
    assert_eq!(i32x4(_mm_cmpeq_ps(pos, neg, 0))[0], -1);
    assert_eq!(i32x4(_mm_cmpneq_ps(pos, neg, 0))[0], 0);
    // An infinity is ordered; only a NaN is not.
    let inf = set1_ps(f32::INFINITY);
    assert_eq!(i32x4(_mm_cmpord_ps(inf, neg, 0))[0], -1);
}
