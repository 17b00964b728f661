//! SSE4.1 and SSE4.2 conformance, plus independent CRC32C and popcnt checks.

use sse2neon::sse2::{
    _mm_set1_epi16, _mm_set1_epi32, _mm_set1_epi8, _mm_set_epi16, _mm_set_epi32, _mm_set_epi64x,
    _mm_set_epi8, _mm_setzero_si128,
};
use sse2neon::sse41::{
    _mm_blend_epi16, _mm_blend_pd, _mm_blend_ps, _mm_blendv_epi8, _mm_blendv_pd, _mm_cmpeq_epi64,
    _mm_cvtepi16_epi32, _mm_cvtepi32_epi64, _mm_cvtepi8_epi16, _mm_cvtepi8_epi32,
    _mm_cvtepu16_epi32, _mm_cvtepu32_epi64, _mm_cvtepu8_epi16, _mm_cvtepu8_epi32,
    _mm_extract_epi16, _mm_extract_epi32, _mm_extract_epi64, _mm_extract_epi8, _mm_insert_epi16,
    _mm_insert_epi32, _mm_insert_epi64, _mm_insert_epi8, _mm_max_epi8, _mm_max_epu16,
    _mm_max_epu32, _mm_min_epi8, _mm_min_epu16, _mm_min_epu32, _mm_minpos_epu16,
    _mm_packus_epi32, _mm_test_all_ones, _mm_test_all_zeros, _mm_test_mix_ones_zeros,
    _mm_testc_si128, _mm_testnzc_si128, _mm_testz_si128,
};
use sse2neon::sse42::{
    _mm_cmpgt_epi64, _mm_crc32_u16, _mm_crc32_u32, _mm_crc32_u64, _mm_crc32_u8, _mm_popcnt_u32,
    _mm_popcnt_u64,
};
use sse2neon::types::{__m128, __m128d, __m128i};

fn set_ps(w: f32, z: f32, y: f32, x: f32) -> __m128 {
    __m128::from_f32_bits([x.to_bits(), y.to_bits(), z.to_bits(), w.to_bits()])
}
fn f32x4(a: __m128) -> [f32; 4] {
    a.f32_bits().map(f32::from_bits)
}
fn set_pd(e1: f64, e0: f64) -> __m128d {
    __m128d::from_f64_bits([e0.to_bits(), e1.to_bits()])
}
fn f64x2(a: __m128d) -> [f64; 2] {
    a.f64_bits().map(f64::from_bits)
}
fn i8x16(a: __m128i) -> [i8; 16] {
    a.s8()
}
fn i16x8(a: __m128i) -> [i16; 8] {
    a.s16()
}
fn u16x8(a: __m128i) -> [u16; 8] {
    a.u16()
}
fn i32x4(a: __m128i) -> [i32; 4] {
    a.s32()
}
fn u32x4(a: __m128i) -> [u32; 4] {
    a.u32()
}
fn i64x2(a: __m128i) -> [i64; 2] {
    a.s64()
}
fn u64x2(a: __m128i) -> [u64; 2] {
    a.u64()
}

#[test]
fn blend_epi16_mask() {
    let a = _mm_set1_epi16(1);
    let b = _mm_set1_epi16(2);
    // imm 0b10101010: lanes 1,3,5,7 from b
    let r = i16x8(_mm_blend_epi16(a, b, 0b1010_1010));
    assert_eq!(r, [1, 2, 1, 2, 1, 2, 1, 2]);
}

#[test]
fn blend_ps_mask() {
    let a = set_ps(4.0, 3.0, 2.0, 1.0);
    let b = set_ps(40.0, 30.0, 20.0, 10.0);
    // imm 0b0101: lanes 0 and 2 from b
    let r = f32x4(_mm_blend_ps(a, b, 0b0101));
    assert_eq!(r, [10.0, 2.0, 30.0, 4.0]);
}

#[test]
fn blend_pd_and_blendv_pd() {
    let a = set_pd(2.0, 1.0);
    let b = set_pd(20.0, 10.0);
    assert_eq!(f64x2(_mm_blend_pd(a, b, 0b10)), [1.0, 20.0]);
    assert_eq!(f64x2(_mm_blendv_pd(a, b, set_pd(1.0, -0.0))), [10.0, 2.0]);
}

#[test]
fn blendv_epi8_by_sign() {
    let a = _mm_set1_epi8(1);
    let b = _mm_set1_epi8(2);
    let mask = _mm_set_epi8(-1, 0, -1, 0, -1, 0, -1, 0, -1, 0, -1, 0, -1, 0, -1, 0);
    let r = i8x16(_mm_blendv_epi8(a, b, mask));
    // negative mask byte selects b; lane0 mask=0 -> a
    assert_eq!(r[0], 1);
    assert_eq!(r[1], 2);
}

#[test]
fn sign_zero_extend() {
    let a = _mm_set_epi8(0, 0, 0, 0, 0, 0, 0, 0, 0, 0, 0, 0, 0, 0, 0, -1);
    // sign extend low byte -1 to i16
    assert_eq!(i16x8(_mm_cvtepi8_epi16(a))[0], -1);
    // zero extend low byte 0xFF to u16 = 255
    let b = _mm_set_epi8(0, 0, 0, 0, 0, 0, 0, 0, 0, 0, 0, 0, 0, 0, 0, -1);
    assert_eq!(u16x8(_mm_cvtepu8_epi16(b))[0], 255);
    let c = _mm_set_epi32(0, 0, 0, -5);
    assert_eq!(i64x2(_mm_cvtepi32_epi64(c))[0], -5);
}

#[test]
fn other_extensions() {
    let a = _mm_set_epi8(0, 0, 0, 0, 0, 0, 0, 0, 0, 0, 0, 0, -4, 3, -2, 1);
    assert_eq!(i32x4(_mm_cvtepi8_epi32(a)), [1, -2, 3, -4]);
    assert_eq!(u32x4(_mm_cvtepu8_epi32(a)), [1, 254, 3, 252]);
    let b = _mm_set_epi16(0, 0, 0, 0, -4, 3, -2, 1);
    assert_eq!(i32x4(_mm_cvtepi16_epi32(b)), [1, -2, 3, -4]);
    assert_eq!(u32x4(_mm_cvtepu16_epi32(b)), [1, 65534, 3, 65532]);
    let c = _mm_set_epi32(0, 0, -1, 7);
    assert_eq!(u64x2(_mm_cvtepu32_epi64(c)), [7, 0xffff_ffff]);
}

#[test]
fn extended_minmax() {
    let a = _mm_set1_epi8(-100);
    let b = _mm_set1_epi8(50);
    assert_eq!(i8x16(_mm_min_epi8(a, b))[0], -100);
    assert_eq!(i8x16(_mm_max_epi8(a, b))[0], 50);
    let c = _mm_set1_epi32(200000);
    let d = _mm_set1_epi32(100000);
    assert_eq!(u32x4(_mm_min_epu32(c, d))[0], 100000);
    assert_eq!(u32x4(_mm_max_epu32(c, d))[0], 200000);
    let e = _mm_set1_epi16(-1);
    let f = _mm_set1_epi16(3);
    assert_eq!(u16x8(_mm_min_epu16(e, f))[0], 3);
    assert_eq!(u16x8(_mm_max_epu16(e, f))[0], 0xffff);
}

#[test]
fn packus_epi32_saturates() {
    let a = _mm_set_epi32(70000, -5, 65535, 1);
    let b = _mm_set1_epi32(-1);
    assert_eq!(u16x8(_mm_packus_epi32(a, b)), [1, 65535, 0, 65535, 0, 0, 0, 0]);
}

#[test]
fn extract_insert() {
    let a = _mm_set_epi32(4, 3, 2, 1);
    assert_eq!(_mm_extract_epi32(a, 0), 1);
    assert_eq!(_mm_extract_epi32(a, 3), 4);
    let b = _mm_insert_epi32(a, 99, 1);
    assert_eq!(i32x4(b), [1, 99, 3, 4]);
    // extract_epi8 zero-extends
    let c = _mm_set_epi8(0, 0, 0, 0, 0, 0, 0, 0, 0, 0, 0, 0, 0, 0, 0, -1);
    assert_eq!(_mm_extract_epi8(c, 0), 255);
}

#[test]
fn extract_insert_other_widths() {
    let a = _mm_set_epi16(8, 7, 6, 5, 4, 3, 2, -1);
    assert_eq!(_mm_extract_epi16(a, 0), 0xffff);
    assert_eq!(_mm_extract_epi16(a, 9), 2); // index taken modulo 8
    assert_eq!(i16x8(_mm_insert_epi16(a, 0x12345, 7))[7], 0x2345);
    let c = _mm_set_epi64x(-7, 3);
    assert_eq!(_mm_extract_epi64(c, 1), -7);
    assert_eq!(i64x2(_mm_insert_epi64(c, 5, 0)), [5, -7]);
    let d = _mm_insert_epi8(_mm_setzero_si128(), 0x1ff, 15);
    assert_eq!(i8x16(d)[15], -1);
    assert_eq!(_mm_extract_epi8(d, -1), 255);
}

#[test]
fn minpos() {
    let a = _mm_set_epi16(9, 8, 7, 6, 5, 4, 3, 2);
    // min value 2 at index 0
    let r = u16x8(_mm_minpos_epu16(a));
    assert_eq!(r[0], 2);
    assert_eq!(r[1], 0);
    let b = _mm_set_epi16(9, 8, 1, 6, 5, 4, 3, 2);
    // min value 1 at index 5
    let rb = u16x8(_mm_minpos_epu16(b));
    assert_eq!(rb[0], 1);
    assert_eq!(rb[1], 5);
    // The first of equal minima wins, and the upper lanes are zero.
    let c = _mm_set_epi16(0, 9, 9, 0, 9, 9, 9, 9);
    assert_eq!(u16x8(_mm_minpos_epu16(c)), [0, 4, 0, 0, 0, 0, 0, 0]);
}

#[test]
fn tests_all_ones_zeros_mix() {
    let ones = _mm_set1_epi32(-1);
    let zeros = _mm_setzero_si128();
    assert_eq!(_mm_test_all_ones(ones), 1);
    assert_eq!(_mm_test_all_ones(zeros), 0);
    assert_eq!(_mm_test_all_zeros(zeros, ones), 1);
    assert_eq!(_mm_testz_si128(zeros, ones), 1);
    assert_eq!(_mm_testz_si128(ones, ones), 0);
    assert_eq!(_mm_testc_si128(ones, ones), 1);
    let mixed = _mm_set_epi32(0, 0, -1, -1);
    assert_eq!(_mm_test_mix_ones_zeros(mixed, ones), 1);
    assert_eq!(_mm_testnzc_si128(mixed, mixed), 0);
}

#[test]
fn cmpeq_and_cmpgt_epi64() {
    let a = _mm_set_epi64x(5, 3);
    let b = _mm_set_epi64x(5, 4);
    assert_eq!(i64x2(_mm_cmpeq_epi64(a, b)), [0, -1]);
    let c = _mm_set_epi64x(10, -5);
    let d = _mm_set_epi64x(1, 1);
    // lane0: -5 > 1? no -> 0. lane1: 10 > 1? yes -> -1
    assert_eq!(i64x2(_mm_cmpgt_epi64(c, d)), [0, -1]);
}

// --- CRC32C independent known-answer tests ---

#[test]
fn crc32c_known_answers() {
    // CRC-32C of "123456789" is 0xE3069283.
    let data = b"123456789";
    let mut crc = 0xFFFF_FFFFu32;
    for &b in data {
        crc = _mm_crc32_u8(crc, b);
    }
    crc ^= 0xFFFF_FFFF;
    assert_eq!(crc, 0xE306_9283);
}

#[test]
fn crc32c_wider_widths_agree() {
    // Feeding bytes one at a time must match feeding a u32 word.
    let bytes = [0x12u8, 0x34, 0x56, 0x78];
    let mut by_byte = 0u32;
    for &b in &bytes {
        by_byte = _mm_crc32_u8(by_byte, b);
    }
    let word = u32::from_le_bytes(bytes);
    let by_word = _mm_crc32_u32(0, word);
    assert_eq!(by_byte, by_word);

    // u64 splits into two u32 lanes correctly.
    let v: u64 = 0x0102_0304_0506_0708;
    let lo = _mm_crc32_u32(0, (v & 0xffff_ffff) as u32);
    let full = _mm_crc32_u32(lo, (v >> 32) as u32);
    assert_eq!(_mm_crc32_u64(0, v), full as u64);
}

#[test]
fn crc32c_u16_and_high_bits_of_u64_register() {
    let mut by_byte = 0x1234_5678u32;
    by_byte = _mm_crc32_u8(by_byte, 0xcd);
    by_byte = _mm_crc32_u8(by_byte, 0xab);
    assert_eq!(_mm_crc32_u16(0x1234_5678, 0xabcd), by_byte);
    // Only the low 32 bits of the running value take part.
    assert_eq!(_mm_crc32_u64(0xdead_beef_0000_0001, 7), _mm_crc32_u64(1, 7));
    // "123456789" as eight bytes then one, with the standard pre- and post-inversion.
    let word = u64::from_le_bytes(*b"12345678");
    let crc = _mm_crc32_u8(_mm_crc32_u64(0xFFFF_FFFF, word) as u32, b'9') ^ 0xFFFF_FFFF;
    assert_eq!(crc, 0xE306_9283);
}

#[test]
fn popcnt_known_answers() {
    assert_eq!(_mm_popcnt_u32(0), 0);
    assert_eq!(_mm_popcnt_u32(0xFFFF_FFFF), 32);
    assert_eq!(_mm_popcnt_u32(0xAAAA_AAAA), 16);
    assert_eq!(_mm_popcnt_u64(0), 0);
    assert_eq!(_mm_popcnt_u64(u64::MAX), 64);
    assert_eq!(_mm_popcnt_u64(0x0F0F_0F0F_0F0F_0F0F), 32);
}
