//! MXCSR mode control over an FPCR value, and the MMX `__m64` family.

use sse2neon::constants::{
    _MM_DENORMALS_ZERO_MASK, _MM_DENORMALS_ZERO_ON, _MM_FLUSH_ZERO_MASK, _MM_FLUSH_ZERO_OFF,
    _MM_FLUSH_ZERO_ON, _MM_ROUND_DOWN, _MM_ROUND_MASK, _MM_ROUND_NEAREST, _MM_ROUND_TOWARD_ZERO,
    _MM_ROUND_UP,
};
use sse2neon::mmx::{
    _mm_add_pi16, _mm_add_pi32, _mm_avg_pu16, _mm_avg_pu8, _mm_cvtsi64_si32, _mm_max_pi16,
    _mm_max_pu8, _mm_min_pi16, _mm_min_pu8, _mm_movemask_pi8, _mm_movepi64_pi64,
    _mm_movpi64_epi64, _mm_sad_pu8, _mm_set1_pi32, _mm_set_pi16, _mm_set_pi32, _mm_set_pi8,
    _mm_setzero_si64, _mm_sub_pi16,
};
use sse2neon::mxcsr::{
    _MM_GET_DENORMALS_ZERO_MODE, _MM_GET_FLUSH_ZERO_MODE, _MM_GET_ROUNDING_MODE,
    _MM_SET_DENORMALS_ZERO_MODE, _MM_SET_FLUSH_ZERO_MODE, _MM_SET_ROUNDING_MODE, _mm_getcsr,
    _mm_setcsr,
};
use sse2neon::sse2::_mm_storeu_si128;
use sse2neon::types::{__m128i, __m64};

/// A register value with unrelated bits set around the mode fields.
const FPCR_START: u64 = 0x0000_0000_0300_0010;

fn m64_words(a: __m64) -> [i32; 2] {
    // Widen the __m64 into the low half of a 128-bit vector, then read lanes.
    let wide = _mm_movpi64_epi64(a);
    let out = wide.s32();
    [out[0], out[1]]
}

fn i16_lanes(a: __m64) -> [i16; 8] {
    _mm_movpi64_epi64(a).s16()
}

#[test]
fn m64_set_and_extract() {
    let a = _mm_set_pi32(7, 3);
    assert_eq!(_mm_cvtsi64_si32(a), 3);
    let words = m64_words(a);
    assert_eq!(words, [3, 7]);
}

#[test]
fn m64_arithmetic() {
    let a = _mm_set_pi16(4, 3, 2, 1);
    let b = _mm_set_pi16(40, 30, 20, 10);
    let r = _mm_add_pi16(a, b);
    // Convert to i16 lanes via widening path.
    let wide = _mm_movpi64_epi64(r);
    let mut out = [0u8; 16];
    _mm_storeu_si128(&mut out, wide);
    let lanes: Vec<i16> = out.chunks(2).map(|c| i16::from_le_bytes([c[0], c[1]])).collect();
    assert_eq!(&lanes[..4], &[11, 22, 33, 44]);
}

#[test]
fn m64_movemask_pi8() {
    let a = _mm_set_pi8(-1, 0, -1, 0, -1, 0, -1, 0);
    // lane0..7 = e0..e7 = 0,-1,0,-1,0,-1,0,-1 -> bits at odd positions = 0b10101010
    assert_eq!(_mm_movemask_pi8(a), 0b1010_1010);
}

#[test]
fn m64_min_max_avg() {
    let a = _mm_set_pi16(1, 2, 3, 4);
    let b = _mm_set_pi16(4, 3, 2, 1);
    let out = i16_lanes(_mm_min_pi16(a, b));
    // lane0 min(4,1)=1, lane1 min(3,2)=2, lane2 min(2,3)=2, lane3 min(1,4)=1
    assert_eq!(&out[..4], &[1, 2, 2, 1]);
}

#[test]
fn m64_sad_pu8() {
    let a = _mm_set_pi8(10, 10, 10, 10, 10, 10, 10, 10);
    let b = _mm_set_pi8(3, 3, 3, 3, 3, 3, 3, 3);
    // |10-3|=7 times 8 = 56, in lane 0
    let r = _mm_movpi64_epi64(_mm_sad_pu8(a, b));
    let out = r.u16();
    assert_eq!(out[0], 56);
}

#[test]
fn m64_more_lanes() {
    let a = _mm_set_pi16(-5, 100, 7, i16::MIN);
    let b = _mm_set_pi16(6, -100, 7, 1);
    assert_eq!(&i16_lanes(_mm_max_pi16(a, b))[..4], &[1, 7, 100, 6]);
    assert_eq!(&i16_lanes(_mm_sub_pi16(a, b))[..4], &[i16::MAX, 0, 200, -11]);
    let w = _mm_add_pi32(_mm_set_pi32(i32::MAX, 5), _mm_set1_pi32(1));
    assert_eq!(m64_words(w), [6, i32::MIN]);
    let x = _mm_set_pi8(1, 2, 3, 4, 5, 6, 7, -1);
    let y = _mm_set_pi8(2, 2, 2, 2, 2, 2, 2, 2);
    let bytes = |v: __m64| _mm_movpi64_epi64(v).u8();
    assert_eq!(&bytes(_mm_max_pu8(x, y))[..8], &[255, 7, 6, 5, 4, 3, 2, 2]);
    assert_eq!(&bytes(_mm_min_pu8(x, y))[..8], &[2, 2, 2, 2, 2, 2, 2, 1]);
    // Rounded average rounds halves up.
    assert_eq!(&bytes(_mm_avg_pu8(x, y))[..8], &[129, 5, 4, 4, 3, 3, 2, 2]);
    let u = _mm_avg_pu16(_mm_set_pi16(0, 0, 3, -1), _mm_set_pi16(0, 0, 4, -1));
    assert_eq!(&_mm_movpi64_epi64(u).u16()[..4], &[0xffff, 4, 0, 0]);
    assert_eq!(_mm_movepi64_pi64(_mm_movpi64_epi64(x)).bytes, x.bytes);
    assert_eq!(_mm_setzero_si64().bytes, [0u8; 8]);
    let wide: __m128i = _mm_movpi64_epi64(x);
    assert_eq!(&wide.u8()[8..], &[0u8; 8]);
}

// --- MXCSR round-trip over an FPCR value ---

#[test]
fn rounding_mode_roundtrip() {
    let mut fpcr = FPCR_START;
    let saved = _MM_GET_ROUNDING_MODE(fpcr);
    for mode in [
        _MM_ROUND_NEAREST,
        _MM_ROUND_DOWN,
        _MM_ROUND_UP,
        _MM_ROUND_TOWARD_ZERO,
    ] {
        fpcr = _MM_SET_ROUNDING_MODE(fpcr, mode);
        assert_eq!(_MM_GET_ROUNDING_MODE(fpcr), mode);
    }
    fpcr = _MM_SET_ROUNDING_MODE(fpcr, saved);
    assert_eq!(_MM_GET_ROUNDING_MODE(fpcr), saved);
}

#[test]
fn flush_zero_roundtrip() {
    let mut fpcr = FPCR_START;
    let saved = _MM_GET_FLUSH_ZERO_MODE(fpcr);
    fpcr = _MM_SET_FLUSH_ZERO_MODE(fpcr, _MM_FLUSH_ZERO_ON);
    assert_eq!(_MM_GET_FLUSH_ZERO_MODE(fpcr), _MM_FLUSH_ZERO_ON);
    fpcr = _MM_SET_FLUSH_ZERO_MODE(fpcr, _MM_FLUSH_ZERO_OFF);
    assert_eq!(_MM_GET_FLUSH_ZERO_MODE(fpcr), _MM_FLUSH_ZERO_OFF);
    fpcr = _MM_SET_FLUSH_ZERO_MODE(fpcr, saved);
    assert_eq!(_MM_GET_FLUSH_ZERO_MODE(fpcr), saved);
}

#[test]
fn getcsr_setcsr_roundtrip() {
    let mut fpcr = FPCR_START;
    let saved = _mm_getcsr(fpcr);
    fpcr = _mm_setcsr(fpcr, _MM_ROUND_UP | _MM_FLUSH_ZERO_ON);
    assert_eq!(_mm_getcsr(fpcr) & _MM_ROUND_MASK, _MM_ROUND_UP);
    assert_eq!(_mm_getcsr(fpcr) & _MM_FLUSH_ZERO_MASK, _MM_FLUSH_ZERO_ON);
    fpcr = _mm_setcsr(fpcr, saved);
    assert_eq!(_mm_getcsr(fpcr), saved);
}

#[test]
fn setcsr_honors_daz_bit() {
    let mut fpcr = FPCR_START;
    let saved = _mm_getcsr(fpcr);

    // DAZ set, FTZ clear: FPCR bit 24 must still turn on flush.
    fpcr = _mm_setcsr(fpcr, _MM_DENORMALS_ZERO_ON);
    assert_eq!(_MM_GET_FLUSH_ZERO_MODE(fpcr), _MM_FLUSH_ZERO_ON);
    assert_eq!(_MM_GET_DENORMALS_ZERO_MODE(fpcr), _MM_DENORMALS_ZERO_ON);

    // A DAZ-only word round-trips through getcsr without losing the bit.
    let word = _mm_getcsr(fpcr);
    assert_eq!(word & _MM_DENORMALS_ZERO_MASK, _MM_DENORMALS_ZERO_ON);

    // Neither bit set clears flush.
    fpcr = _mm_setcsr(fpcr, 0);
    assert_eq!(_MM_GET_FLUSH_ZERO_MODE(fpcr), _MM_FLUSH_ZERO_OFF);

    fpcr = _mm_setcsr(fpcr, saved);
    assert_eq!(_mm_getcsr(fpcr), saved);
}

#[test]
fn invalid_rounding_mode_falls_back_to_toward_zero() {
    let mut fpcr = FPCR_START;
    let saved = _MM_GET_ROUNDING_MODE(fpcr);
    fpcr = _MM_SET_ROUNDING_MODE(fpcr, 0x1234); // not a valid mode
    assert_eq!(_MM_GET_ROUNDING_MODE(fpcr), _MM_ROUND_TOWARD_ZERO);
    fpcr = _MM_SET_ROUNDING_MODE(fpcr, saved);
    assert_eq!(_MM_GET_ROUNDING_MODE(fpcr), saved);
}

#[test]
fn mode_setters_keep_other_bits() {
    let fpcr = 0xffff_ffff_ffff_ffffu64;
    let r = _MM_SET_ROUNDING_MODE(fpcr, _MM_ROUND_NEAREST);
    assert_eq!(r, 0xffff_ffff_ff3f_ffff);
    let f = _MM_SET_FLUSH_ZERO_MODE(r, _MM_FLUSH_ZERO_OFF);
    assert_eq!(f, 0xffff_ffff_fe3f_ffff);
    assert_eq!(_MM_SET_DENORMALS_ZERO_MODE(f, _MM_DENORMALS_ZERO_ON), r);
    assert_eq!(_MM_GET_ROUNDING_MODE(0x0040_0000), _MM_ROUND_UP);
    assert_eq!(_MM_GET_ROUNDING_MODE(0x0080_0000), _MM_ROUND_DOWN);
    assert_eq!(_mm_getcsr(0x01c0_0000), _MM_ROUND_TOWARD_ZERO | 0x8040);
}

#[test]
fn little_endian_only() {
    // The library assumes little-endian lane-to-memory order. Confirm the host
    // matches so the lane readers are valid.
    assert_eq!(1u32.to_ne_bytes(), 1u32.to_le_bytes());
}
