//! SSE3 lane duplications and SSSE3 conformance.

use sse2neon::sse2::{_mm_set1_epi16, _mm_set1_epi8, _mm_set_epi16, _mm_set_epi32, _mm_set_epi8};
use sse2neon::sse3::{_mm_movedup_pd, _mm_movehdup_ps, _mm_moveldup_ps};
use sse2neon::ssse3::{
    _mm_abs_epi16, _mm_abs_epi32, _mm_abs_epi8, _mm_alignr_epi8, _mm_hadd_epi16, _mm_hadd_epi32,
    _mm_hsub_epi16, _mm_hsub_epi32, _mm_maddubs_epi16, _mm_mulhrs_epi16, _mm_shuffle_epi8,
    _mm_sign_epi16, _mm_sign_epi32, _mm_sign_epi8,
};
use sse2neon::types::{__m128, __m128d, __m128i};

fn set_ps(w: f32, z: f32, y: f32, x: f32) -> __m128 {
    __m128::from_f32_bits([x.to_bits(), y.to_bits(), z.to_bits(), w.to_bits()])
}
fn f32x4(a: __m128) -> [f32; 4] {
    a.f32_bits().map(f32::from_bits)
}
fn set_pd(e1: f64, e0: f64) -> __m128d {
    __m128d::from_f64_bits([e0.to_bits(), e1.to_bits()])
}
fn f64x2(a: __m128d) -> [f64; 2] {
    a.f64_bits().map(f64::from_bits)
}
fn i8x16(a: __m128i) -> [i8; 16] {
    a.s8()
}
fn u8x16(a: __m128i) -> [u8; 16] {
    a.u8()
}
fn i16x8(a: __m128i) -> [i16; 8] {
    a.s16()
}
fn i32x4(a: __m128i) -> [i32; 4] {
    a.s32()
}

#[test]
fn movedup_and_duplicates() {
    let a = set_pd(2.0, 1.0);
    assert_eq!(f64x2(_mm_movedup_pd(a)), [1.0, 1.0]);
    let f = set_ps(4.0, 3.0, 2.0, 1.0);
    assert_eq!(f32x4(_mm_movehdup_ps(f)), [2.0, 2.0, 4.0, 4.0]);
    assert_eq!(f32x4(_mm_moveldup_ps(f)), [1.0, 1.0, 3.0, 3.0]);
}

#[test]
fn abs_variants() {
    let a = _mm_set_epi8(-8, 7, -6, 5, -4, 3, -2, 1, -8, 7, -6, 5, -4, 3, -2, 1);
    let r = i8x16(_mm_abs_epi8(a));
    assert_eq!(r[0], 1);
    assert_eq!(r[1], 2);
    let b = _mm_set_epi16(-4, 3, -2, 1, -4, 3, -2, 1);
    assert_eq!(i16x8(_mm_abs_epi16(b))[0], 1);
    assert_eq!(i16x8(_mm_abs_epi16(b))[1], 2);
    let c = _mm_set_epi32(-2, 1, -2, 1);
    let cr = i32x4(_mm_abs_epi32(c));
    assert_eq!(cr[0], 1);
    assert_eq!(cr[1], 2);
}

#[test]
fn abs_of_most_negative_reads_unsigned() {
    assert_eq!(u8x16(_mm_abs_epi8(_mm_set1_epi8(i8::MIN)))[0], 128);
    assert_eq!(i16x8(_mm_abs_epi16(_mm_set1_epi16(i16::MIN)))[0], i16::MIN);
    assert_eq!(i32x4(_mm_abs_epi32(_mm_set_epi32(0, 0, 0, i32::MIN)))[0], i32::MIN);
}

#[test]
fn sign_epi8() {
    let a = _mm_set1_epi8(5);
    // b positive keeps, zero zeroes, negative negates
    let b = _mm_set_epi8(0, 0, 0, 0, 0, 0, 0, 0, 0, 0, 0, 0, 0, -1, 0, 1);
    let r = i8x16(_mm_sign_epi8(a, b));
    assert_eq!(r[0], 5); // b=1 keep
    assert_eq!(r[1], 0); // b=0 zero
    assert_eq!(r[2], -5); // b=-1 negate
}

#[test]
fn sign_wider_lanes() {
    let a = _mm_set_epi16(0, 0, 0, 0, i16::MIN, 7, 7, 7);
    let b = _mm_set_epi16(0, 0, 0, 0, -1, -3, 0, 9);
    assert_eq!(&i16x8(_mm_sign_epi16(a, b))[..4], &[7, 0, -7, i16::MIN]);
    let c = _mm_set_epi32(1, -5, 6, 7);
    let d = _mm_set_epi32(1, 1, 0, -2);
    assert_eq!(i32x4(_mm_sign_epi32(c, d)), [-7, 0, -5, 1]);
}

#[test]
fn shuffle_epi8_indexes_and_zeroes() {
    let a = _mm_set_epi8(15, 14, 13, 12, 11, 10, 9, 8, 7, 6, 5, 4, 3, 2, 1, 0);
    let idx = _mm_set_epi8(-1, 1, 2, 3, 4, 5, 6, 7, 8, 9, 10, 11, 12, 13, 14, 15);
    let r = u8x16(_mm_shuffle_epi8(a, idx));
    // lane0 index=15 -> a[15]=15
    assert_eq!(r[0], 15);
    // lane15 index=-1 (top bit set) -> 0
    assert_eq!(r[15], 0);
    // Only the low four bits of an index count.
    let wrap = _mm_set1_epi8(0x72);
    assert_eq!(u8x16(_mm_shuffle_epi8(a, wrap))[4], 2);
}

#[test]
fn hadd_epi16() {
    let a = _mm_set_epi16(8, 7, 6, 5, 4, 3, 2, 1);
    let b = _mm_set_epi16(80, 70, 60, 50, 40, 30, 20, 10);
    // a: 1+2,3+4,5+6,7+8 then b: 10+20,30+40,50+60,70+80
    assert_eq!(
        i16x8(_mm_hadd_epi16(a, b)),
        [3, 7, 11, 15, 30, 70, 110, 150]
    );
}

#[test]
fn hadd_hsub_other_forms() {
    let a = _mm_set_epi16(8, 7, 6, 5, 4, 3, 2, 1);
    let b = _mm_set_epi16(80, 70, 60, 50, 40, 30, 20, 10);
    assert_eq!(i16x8(_mm_hsub_epi16(a, b)), [-1, -1, -1, -1, -10, -10, -10, -10]);
    let c = _mm_set_epi32(4, 3, 2, i32::MAX);
    let d = _mm_set_epi32(40, 30, 20, 10);
    assert_eq!(i32x4(_mm_hadd_epi32(c, d)), [i32::MIN + 1, 7, 30, 70]);
    assert_eq!(i32x4(_mm_hsub_epi32(c, d)), [i32::MAX - 2, -1, -10, -10]);
}

#[test]
fn maddubs_epi16() {
    // a unsigned, b signed. a=[2,2,...], b=[3,-4,...]
    let a = _mm_set1_epi8(2);
    let b = _mm_set_epi8(1, 1, 1, 1, 1, 1, 1, 1, 1, 1, 1, 1, 1, 1, -4, 3);
    let r = i16x8(_mm_maddubs_epi16(a, b));
    // lane0 = 2*3 + 2*(-4) = 6 - 8 = -2
    assert_eq!(r[0], -2);
    // 255*127 twice saturates.
    let big = _mm_maddubs_epi16(_mm_set1_epi8(-1), _mm_set1_epi8(127));
    assert_eq!(i16x8(big)[0], i16::MAX);
}

#[test]
fn mulhrs_epi16() {
    let a = _mm_set1_epi16(0x4000);
    let b = _mm_set1_epi16(0x4000);
    // (0x4000 * 0x4000 + 0x4000) >> 15 = (0x10000000 + 0x4000) >> 15 = 0x2000
    assert_eq!(i16x8(_mm_mulhrs_epi16(a, b))[0], 0x2000);
    // The one overflowing product wraps to i16::MIN.
    let m = _mm_set1_epi16(i16::MIN);
    assert_eq!(i16x8(_mm_mulhrs_epi16(m, m))[0], i16::MIN);
    assert_eq!(i16x8(_mm_mulhrs_epi16(_mm_set1_epi16(-3), _mm_set1_epi16(0x4000)))[0], -1);
}

#[test]
fn alignr_epi8() {
    let a = _mm_set_epi8(
        31, 30, 29, 28, 27, 26, 25, 24, 23, 22, 21, 20, 19, 18, 17, 16,
    );
    let b = _mm_set_epi8(15, 14, 13, 12, 11, 10, 9, 8, 7, 6, 5, 4, 3, 2, 1, 0);
    // concat b:a, shift right 3 bytes. low lane picks b[3]=3
    let r = u8x16(_mm_alignr_epi8(a, b, 3));
    assert_eq!(r[0], 3);
    assert_eq!(r[13], 16); // b[16]=a[0]=16
    // imm >= 32 -> zero
    assert_eq!(u8x16(_mm_alignr_epi8(a, b, 32)), [0u8; 16]);
    assert_eq!(u8x16(_mm_alignr_epi8(a, b, 20))[11], 31);
    assert_eq!(u8x16(_mm_alignr_epi8(a, b, 20))[12], 0);
}
