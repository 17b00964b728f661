//! MMX `__m64` intrinsics and the SSE MMX-assisted helpers.
//!
//! These operate on 64-bit vectors: eight `i8`, four `i16`, or two `i32` lanes,
//! least significant first. Each lane operation runs on the vector widened into
//! the low half of a 128-bit vector, and keeps the low half of the result.
use crate::sse2::{
    _mm_add_epi16,
    _mm_add_epi32,
    _mm_avg_epu16,
    _mm_avg_epu8,
    _mm_max_epi16,
    _mm_max_epu8,
    _mm_min_epi16,
    _mm_min_epu8,
    _mm_set_epi16,
    _mm_set_epi32,
    _mm_set_epi8,
    _mm_sub_epi16,
};
use crate::types::{le32, __m128i, __m64, abs_diff_sum, bit_mask, pow2i};
use vstd::arithmetic::power2::{lemma2_to64, lemma_pow2_strictly_increases, lemma_pow2_unfold};
use vstd::prelude::*;

verus! {

/// Widen a `__m64` into the low 64 bits of a `__m128i`, zeroing the high half.
/// Matches `_mm_movpi64_epi64`.
pub fn _mm_movpi64_epi64(a: __m64) -> (r: __m128i)
    ensures
        forall|i: int| 0 <= i < 16 ==> #[trigger] r@[i] == if i < 8 { a@[i] } else { 0u8 },
{
    let b = a.bytes;
    __m128i { bytes: [b[0], b[1], b[2], b[3], b[4], b[5], b[6], b[7], 0, 0, 0, 0, 0, 0, 0, 0] }
}

/// Take the low 64 bits of a `__m128i` as a `__m64`. Matches `_mm_movepi64_pi64`.
pub fn _mm_movepi64_pi64(a: __m128i) -> (r: __m64)
    ensures
        forall|i: int| 0 <= i < 8 ==> #[trigger] r@[i] == a@[i],
{
    let b = a.bytes;
    __m64 { bytes: [b[0], b[1], b[2], b[3], b[4], b[5], b[6], b[7]] }
}

/// Set two `i32` lanes, most significant first: lane 0 is `e0`.
/// Matches `_mm_set_pi32`.
pub fn _mm_set_pi32(e1: i32, e0: i32) -> (r: __m64)
    ensures
        r.i32_at(0) == e0,
        r.i32_at(1) == e1,
{
    _mm_movepi64_pi64(_mm_set_epi32(0, 0, e1, e0))
}

/// Set four `i16` lanes, most significant first: lane 0 is `e0`.
/// Matches `_mm_set_pi16`.
pub fn _mm_set_pi16(e3: i16, e2: i16, e1: i16, e0: i16) -> (r: __m64)
    ensures
        r.i16_at(0) == e0,
        r.i16_at(1) == e1,
        r.i16_at(2) == e2,
        r.i16_at(3) == e3,
{
    _mm_movepi64_pi64(_mm_set_epi16(0, 0, 0, 0, e3, e2, e1, e0))
}

/// Set eight `i8` lanes, most significant first: lane 0 is `e0`.
/// Matches `_mm_set_pi8`.
pub fn _mm_set_pi8(e7: i8, e6: i8, e5: i8, e4: i8, e3: i8, e2: i8, e1: i8, e0: i8) -> (r: __m64)
    ensures
        r.i8_at(0) == e0,
        r.i8_at(1) == e1,
        r.i8_at(2) == e2,
        r.i8_at(3) == e3,
        r.i8_at(4) == e4,
        r.i8_at(5) == e5,
        r.i8_at(6) == e6,
        r.i8_at(7) == e7,
{
    _mm_movepi64_pi64(_mm_set_epi8(0, 0, 0, 0, 0, 0, 0, 0, e7, e6, e5, e4, e3, e2, e1, e0))
}

/// Broadcast one `i32` to both lanes. Matches `_mm_set1_pi32`.
pub fn _mm_set1_pi32(w: i32) -> (r: __m64)
    ensures
        r.i32_at(0) == w,
        r.i32_at(1) == w,
{
    _mm_set_pi32(w, w)
}

/// Return a zeroed `__m64`. Matches `_mm_setzero_si64`.
pub fn _mm_setzero_si64() -> (r: __m64)
    ensures
        forall|i: int| 0 <= i < 8 ==> #[trigger] r@[i] == 0,
{
    __m64 { bytes: [0u8; 8] }
}

/// Extract lane 0 as `i32`. Matches `_mm_cvtsi64_si32`.
pub fn _mm_cvtsi64_si32(a: __m64) -> (r: i32)
    ensures
        r == a.i32_at(0),
{
    let w = _mm_movpi64_epi64(a);
    assert(w@[0] == a@[0] && w@[1] == a@[1] && w@[2] == a@[2] && w@[3] == a@[3]);
    let v = w.s32();
    assert(v[0] == w.i32_at(0));
    assert(le32(w@, 0) == le32(a@, 0));
    v[0]
}

/// Add four `i16` lanes with wraparound. Matches `_mm_add_pi16`.
pub fn _mm_add_pi16(a: __m64, b: __m64) -> (r: __m64)
    ensures
        forall|i: int| 0 <= i < 4 ==> #[trigger] r.u16_at(i) == (a.u16_at(i) + b.u16_at(i)) % 0x1_0000,
{
    let w = _mm_add_epi16(_mm_movpi64_epi64(a), _mm_movpi64_epi64(b));
    let r = _mm_movepi64_pi64(w);
    assert forall|i: int| 0 <= i < 4 implies #[trigger] r.u16_at(i) == (a.u16_at(i) + b.u16_at(i))
        % 0x1_0000 by {
        assert(w.u16_at(i) == r.u16_at(i));
    }
    r
}

/// Add two `i32` lanes with wraparound. Matches `_mm_add_pi32`.
pub fn _mm_add_pi32(a: __m64, b: __m64) -> (r: __m64)
    ensures
        forall|i: int| 0 <= i < 2 ==> #[trigger] r.u32_at(i) == (a.u32_at(i) + b.u32_at(i)) % 0x1_0000_0000,
{
    let w = _mm_add_epi32(_mm_movpi64_epi64(a), _mm_movpi64_epi64(b));
    let r = _mm_movepi64_pi64(w);
    assert forall|i: int| 0 <= i < 2 implies #[trigger] r.u32_at(i) == (a.u32_at(i) + b.u32_at(i))
        % 0x1_0000_0000 by {
        assert(w.u32_at(i) == r.u32_at(i));
    }
    r
}

/// Subtract four `i16` lanes with wraparound. Matches `_mm_sub_pi16`.
pub fn _mm_sub_pi16(a: __m64, b: __m64) -> (r: __m64)
    ensures
        forall|i: int| 0 <= i < 4 ==> #[trigger] r.u16_at(i) == (a.u16_at(i) - b.u16_at(i)) % 0x1_0000,
{
    let w = _mm_sub_epi16(_mm_movpi64_epi64(a), _mm_movpi64_epi64(b));
    let r = _mm_movepi64_pi64(w);
    assert forall|i: int| 0 <= i < 4 implies #[trigger] r.u16_at(i) == (a.u16_at(i) - b.u16_at(i))
        % 0x1_0000 by {
        assert(w.u16_at(i) == r.u16_at(i));
    }
    r
}

/// Packed maximum of four `i16` lanes. Matches `_mm_max_pi16`.
pub fn _mm_max_pi16(a: __m64, b: __m64) -> (r: __m64)
    ensures
        forall|i: int|
            0 <= i < 4 ==> #[trigger] r.i16_at(i) == if a.i16_at(i) > b.i16_at(i) {
                a.i16_at(i)
            } else {
                b.i16_at(i)
            },
{
    let w = _mm_max_epi16(_mm_movpi64_epi64(a), _mm_movpi64_epi64(b));
    let r = _mm_movepi64_pi64(w);
    assert forall|i: int| 0 <= i < 4 implies #[trigger] r.i16_at(i) == if a.i16_at(i) > b.i16_at(i) {
        a.i16_at(i)
    } else {
        b.i16_at(i)
    } by {
        assert(w.i16_at(i) == r.i16_at(i));
    }
    r
}

/// Packed minimum of four `i16` lanes. Matches `_mm_min_pi16`.
pub fn _mm_min_pi16(a: __m64, b: __m64) -> (r: __m64)
    ensures
        forall|i: int|
            0 <= i < 4 ==> #[trigger] r.i16_at(i) == if a.i16_at(i) < b.i16_at(i) {
                a.i16_at(i)
            } else {
                b.i16_at(i)
            },
{
    let w = _mm_min_epi16(_mm_movpi64_epi64(a), _mm_movpi64_epi64(b));
    let r = _mm_movepi64_pi64(w);
    assert forall|i: int| 0 <= i < 4 implies #[trigger] r.i16_at(i) == if a.i16_at(i) < b.i16_at(i) {
        a.i16_at(i)
    } else {
        b.i16_at(i)
    } by {
        assert(w.i16_at(i) == r.i16_at(i));
    }
    r
}

/// Packed maximum of eight `u8` lanes. Matches `_mm_max_pu8`.
pub fn _mm_max_pu8(a: __m64, b: __m64) -> (r: __m64)
    ensures
        forall|i: int|
            0 <= i < 8 ==> #[trigger] r.u8_at(i) == if a.u8_at(i) > b.u8_at(i) {
                a.u8_at(i)
            } else {
                b.u8_at(i)
            },
{
    let wa = _mm_movpi64_epi64(a);
    let wb = _mm_movpi64_epi64(b);
    let w = _mm_max_epu8(wa, wb);
    let r = _mm_movepi64_pi64(w);
    assert forall|i: int| 0 <= i < 8 implies #[trigger] r.u8_at(i) == if a.u8_at(i) > b.u8_at(i) {
        a.u8_at(i)
    } else {
        b.u8_at(i)
    } by {
        assert(w.u8_at(i) == r.u8_at(i));
        assert(wa.u8_at(i) == a.u8_at(i));
        assert(wb.u8_at(i) == b.u8_at(i));
    }
    r
}

/// Packed minimum of eight `u8` lanes. Matches `_mm_min_pu8`.
pub fn _mm_min_pu8(a: __m64, b: __m64) -> (r: __m64)
    ensures
        forall|i: int|
            0 <= i < 8 ==> #[trigger] r.u8_at(i) == if a.u8_at(i) < b.u8_at(i) {
                a.u8_at(i)
            } else {
                b.u8_at(i)
            },
{
    let wa = _mm_movpi64_epi64(a);
    let wb = _mm_movpi64_epi64(b);
    let w = _mm_min_epu8(wa, wb);
    let r = _mm_movepi64_pi64(w);
    assert forall|i: int| 0 <= i < 8 implies #[trigger] r.u8_at(i) == if a.u8_at(i) < b.u8_at(i) {
        a.u8_at(i)
    } else {
        b.u8_at(i)
    } by {
        assert(w.u8_at(i) == r.u8_at(i));
        assert(wa.u8_at(i) == a.u8_at(i));
        assert(wb.u8_at(i) == b.u8_at(i));
    }
    r
}

/// Rounded average of eight `u8` lanes. Matches `_mm_avg_pu8`.
pub fn _mm_avg_pu8(a: __m64, b: __m64) -> (r: __m64)
    ensures
        forall|i: int| 0 <= i < 8 ==> #[trigger] r.u8_at(i) == (a.u8_at(i) + b.u8_at(i) + 1) / 2,
{
    let wa = _mm_movpi64_epi64(a);
    let wb = _mm_movpi64_epi64(b);
    let w = _mm_avg_epu8(wa, wb);
    let r = _mm_movepi64_pi64(w);
    assert forall|i: int| 0 <= i < 8 implies #[trigger] r.u8_at(i) == (a.u8_at(i) + b.u8_at(i) + 1) / 2 by {
        assert(w.u8_at(i) == r.u8_at(i));
        assert(wa.u8_at(i) == a.u8_at(i));
        assert(wb.u8_at(i) == b.u8_at(i));
    }
    r
}

/// Rounded average of four `u16` lanes. Matches `_mm_avg_pu16`.
pub fn _mm_avg_pu16(a: __m64, b: __m64) -> (r: __m64)
    ensures
        forall|i: int| 0 <= i < 4 ==> #[trigger] r.u16_at(i) == (a.u16_at(i) + b.u16_at(i) + 1) / 2,
{
    let w = _mm_avg_epu16(_mm_movpi64_epi64(a), _mm_movpi64_epi64(b));
    let r = _mm_movepi64_pi64(w);
    assert forall|i: int| 0 <= i < 4 implies #[trigger] r.u16_at(i) == (a.u16_at(i) + b.u16_at(i) + 1)
        / 2 by {
        assert(w.u16_at(i) == r.u16_at(i));
    }
    r
}

/// Gather the sign bit of each of the eight `i8` lanes into bits 0-7.
/// Matches `_mm_movemask_pi8`.
pub fn _mm_movemask_pi8(a: __m64) -> (r: i32)
    ensures
        r == bit_mask(|i: int| a@[i] >= 0x80, 8),
{
    let mut acc: u32 = 0;
    let mut bit: u32 = 1;
    proof {
        lemma2_to64();
    }
    for i in 0..8
        invariant
            acc == bit_mask(|i: int| a@[i] >= 0x80, i as nat),
            bit == pow2i(i as int),
            acc < bit,
            bit <= 0x100,
    {
        proof {
            lemma_pow2_unfold((i + 1) as nat);
            lemma2_to64();
            if i < 7 {
                lemma_pow2_strictly_increases((i + 1) as nat, 8);
            }
        }
        if a.bytes[i] >= 0x80 {
            acc = acc + bit;
        }
        bit = bit * 2;
    }
    acc as i32
}

/// Sum the absolute differences of the eight `u8` lanes into 16-bit lane 0;
/// the other lanes are zero. Matches `_mm_sad_pu8`.
pub fn _mm_sad_pu8(a: __m64, b: __m64) -> (r: __m64)
    ensures
        r.u16_at(0) == abs_diff_sum(a@, b@, 0, 8),
        forall|i: int| 1 <= i < 4 ==> #[trigger] r.u16_at(i) == 0,
{
    let mut acc: u16 = 0;
    for i in 0..8
        invariant
            acc == abs_diff_sum(a@, b@, 0, i as nat),
            acc <= 0xff * i,
    {
        let p = a.bytes[i];
        let q = b.bytes[i];
        let d = if p >= q { p - q } else { q - p };
        acc = acc + d as u16;
    }
    __m64 { bytes: [(acc % 0x100) as u8, (acc / 0x100) as u8, 0, 0, 0, 0, 0, 0] }
}

} // verus!
