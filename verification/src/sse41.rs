//! SSE4.1 intrinsics: blend, sign and zero extension, extended min and max,
//! 32-bit multiplies, unsigned pack, 64-bit equality, minimum position,
//! extract and insert, the all-ones / all-zeros tests, rounding to integral
//! values, and the dot products.
use crate::sse2::_mm_andnot_si128;
use crate::sse2::_mm_and_si128;
use crate::types::{__m128, __m128d, __m128i, bit_of, clamp, lemma_mul_bound};
use crate::constants::{_MM_FROUND_RAISE_EXC, _MM_FROUND_NO_EXC, _MM_FROUND_TO_NEG_INF, _MM_FROUND_TO_POS_INF};
use crate::ieee::{rounds_to_int32, rounds_to_int64, round_lane32, round_lane64};
use crate::fparith::{fadd32, fadd64, fmul32, fmul64, add_lane32, add_lane64, mul_lane32, mul_lane64};
use crate::mxcsr::{fz_set, dn_set, FPCR_FZ_BIT, FPCR_DN_BIT};
use crate::sse::_mm_move_ss;
use crate::sse2::{_mm_move_sd, round_code, rounding_code};
use vstd::prelude::*;

verus! {

// --- Blend ---

/// Blend eight `i16` lanes: bit `i` of `imm` picks lane `i` from `b`, else from
/// `a`. Matches `_mm_blend_epi16`.
pub fn _mm_blend_epi16(a: __m128i, b: __m128i, imm: i32) -> (r: __m128i)
    ensures
        forall|i: int|
            0 <= i < 8 ==> #[trigger] r.u16_at(i) == if bit_of(imm, i) { b.u16_at(i) } else { a.u16_at(i) },
{
    let x = a.u16();
    let y = b.u16();
    let mut o = [0u16; 8];
    for i in 0..8
        invariant
            forall|j: int| 0 <= j < i ==> o[j] == if bit_of(imm, j) { y[j] } else { x[j] },
    {
        o[i] = if (imm >> (i as i32)) & 1 == 1 { y[i] } else { x[i] };
    }
    __m128i::from_u16(o)
}

/// Blend two `f64` lanes: bit `i` of `imm` picks lane `i` from `b`, else from
/// `a`. Matches `_mm_blend_pd`.
pub fn _mm_blend_pd(a: __m128d, b: __m128d, imm: i32) -> (r: __m128d)
    ensures
        forall|i: int| 0 <= i < 2 ==> #[trigger] r@[i] == if bit_of(imm, i) { b@[i] } else { a@[i] },
{
    let e0 = if (imm >> 0i32) & 1 == 1 { b.lanes[0] } else { a.lanes[0] };
    let e1 = if (imm >> 1i32) & 1 == 1 { b.lanes[1] } else { a.lanes[1] };
    __m128d { lanes: [e0, e1] }
}

/// Blend four `f32` lanes: bit `i` of `imm` picks lane `i` from `b`, else from
/// `a`. Matches `_mm_blend_ps`.
pub fn _mm_blend_ps(a: __m128, b: __m128, imm: i32) -> (r: __m128)
    ensures
        forall|i: int| 0 <= i < 4 ==> #[trigger] r@[i] == if bit_of(imm, i) { b@[i] } else { a@[i] },
{
    let mut o = [0u32; 4];
    for i in 0..4
        invariant
            forall|j: int| 0 <= j < i ==> o[j] == if bit_of(imm, j) { b@[j] } else { a@[j] },
    {
        o[i] = if (imm >> (i as i32)) & 1 == 1 { b.lanes[i] } else { a.lanes[i] };
    }
    __m128 { lanes: o }
}

/// Blend sixteen bytes: where the top bit of `mask[i]` is set take `b[i]`, else
/// `a[i]`. Matches `_mm_blendv_epi8`.
pub fn _mm_blendv_epi8(a: __m128i, b: __m128i, mask: __m128i) -> (r: __m128i)
    ensures
        forall|i: int| 0 <= i < 16 ==> #[trigger] r@[i] == if mask@[i] >= 0x80 { b@[i] } else { a@[i] },
{
    let mut o = [0u8; 16];
    for i in 0..16
        invariant
            forall|j: int| 0 <= j < i ==> o[j] == if mask@[j] >= 0x80 { b@[j] } else { a@[j] },
    {
        o[i] = if mask.bytes[i] >= 0x80 { b.bytes[i] } else { a.bytes[i] };
    }
    __m128i { bytes: o }
}

/// Blend four `f32` lanes by the sign bit of each `mask` lane: set takes `b`.
/// Matches `_mm_blendv_ps`.
pub fn _mm_blendv_ps(a: __m128, b: __m128, mask: __m128) -> (r: __m128)
    ensures
        forall|i: int| 0 <= i < 4 ==> #[trigger] r@[i] == if mask@[i] >= 0x8000_0000 { b@[i] } else { a@[i] },
{
    let mut o = [0u32; 4];
    for i in 0..4
        invariant
            forall|j: int| 0 <= j < i ==> o[j] == if mask@[j] >= 0x8000_0000 { b@[j] } else { a@[j] },
    {
        o[i] = if mask.lanes[i] >= 0x8000_0000 { b.lanes[i] } else { a.lanes[i] };
    }
    __m128 { lanes: o }
}

/// Blend two `f64` lanes by the sign bit of each `mask` lane: set takes `b`.
/// Matches `_mm_blendv_pd`.
pub fn _mm_blendv_pd(a: __m128d, b: __m128d, mask: __m128d) -> (r: __m128d)
    ensures
        forall|i: int|
            0 <= i < 2 ==> #[trigger] r@[i] == if mask@[i] >= 0x8000_0000_0000_0000 { b@[i] } else { a@[i] },
{
    let e0 = if mask.lanes[0] >= 0x8000_0000_0000_0000 { b.lanes[0] } else { a.lanes[0] };
    let e1 = if mask.lanes[1] >= 0x8000_0000_0000_0000 { b.lanes[1] } else { a.lanes[1] };
    __m128d { lanes: [e0, e1] }
}

// --- Sign / zero extension ---

/// Sign-extend the low eight `i8` lanes to `i16`. Matches `_mm_cvtepi8_epi16`.
pub fn _mm_cvtepi8_epi16(a: __m128i) -> (r: __m128i)
    ensures
        forall|i: int| 0 <= i < 8 ==> #[trigger] r.i16_at(i) == a.i8_at(i),
{
    let x = a.s8();
    let mut o = [0i16; 8];
    for i in 0..8
        invariant
            forall|j: int| 0 <= j < i ==> o[j] == x[j],
    {
        o[i] = x[i] as i16;
    }
    __m128i::from_s16(o)
}

/// Sign-extend the low four `i8` lanes to `i32`. Matches `_mm_cvtepi8_epi32`.
pub fn _mm_cvtepi8_epi32(a: __m128i) -> (r: __m128i)
    ensures
        forall|i: int| 0 <= i < 4 ==> #[trigger] r.i32_at(i) == a.i8_at(i),
{
    let x = a.s8();
    let mut o = [0i32; 4];
    for i in 0..4
        invariant
            forall|j: int| 0 <= j < i ==> o[j] == x[j],
    {
        o[i] = x[i] as i32;
    }
    __m128i::from_s32(o)
}

/// Sign-extend the low four `i16` lanes to `i32`. Matches `_mm_cvtepi16_epi32`.
pub fn _mm_cvtepi16_epi32(a: __m128i) -> (r: __m128i)
    ensures
        forall|i: int| 0 <= i < 4 ==> #[trigger] r.i32_at(i) == a.i16_at(i),
{
    let x = a.s16();
    let mut o = [0i32; 4];
    for i in 0..4
        invariant
            forall|j: int| 0 <= j < i ==> o[j] == x[j],
    {
        o[i] = x[i] as i32;
    }
    __m128i::from_s32(o)
}

/// Sign-extend the low two `i32` lanes to `i64`. Matches `_mm_cvtepi32_epi64`.
pub fn _mm_cvtepi32_epi64(a: __m128i) -> (r: __m128i)
    ensures
        forall|i: int| 0 <= i < 2 ==> #[trigger] r.i64_at(i) == a.i32_at(i),
{
    let x = a.s32();
    let mut o = [0i64; 2];
    for i in 0..2
        invariant
            forall|j: int| 0 <= j < i ==> o[j] == x[j],
    {
        o[i] = x[i] as i64;
    }
    __m128i::from_s64(o)
}

/// Zero-extend the low eight `u8` lanes to `u16`. Matches `_mm_cvtepu8_epi16`.
pub fn _mm_cvtepu8_epi16(a: __m128i) -> (r: __m128i)
    ensures
        forall|i: int| 0 <= i < 8 ==> #[trigger] r.u16_at(i) == a.u8_at(i),
{
    let x = a.u8();
    let mut o = [0u16; 8];
    for i in 0..8
        invariant
            forall|j: int| 0 <= j < i ==> o[j] == x[j],
    {
        o[i] = x[i] as u16;
    }
    __m128i::from_u16(o)
}

/// Zero-extend the low four `u8` lanes to `u32`. Matches `_mm_cvtepu8_epi32`.
pub fn _mm_cvtepu8_epi32(a: __m128i) -> (r: __m128i)
    ensures
        forall|i: int| 0 <= i < 4 ==> #[trigger] r.u32_at(i) == a.u8_at(i),
{
    let x = a.u8();
    let mut o = [0u32; 4];
    for i in 0..4
        invariant
            forall|j: int| 0 <= j < i ==> o[j] == x[j],
    {
        o[i] = x[i] as u32;
    }
    __m128i::from_u32(o)
}

/// Zero-extend the low four `u16` lanes to `u32`. Matches `_mm_cvtepu16_epi32`.
pub fn _mm_cvtepu16_epi32(a: __m128i) -> (r: __m128i)
    ensures
        forall|i: int| 0 <= i < 4 ==> #[trigger] r.u32_at(i) == a.u16_at(i),
{
    let x = a.u16();
    let mut o = [0u32; 4];
    for i in 0..4
        invariant
            forall|j: int| 0 <= j < i ==> o[j] == x[j],
    {
        o[i] = x[i] as u32;
    }
    __m128i::from_u32(o)
}

/// Zero-extend the low two `u32` lanes to `u64`. Matches `_mm_cvtepu32_epi64`.
pub fn _mm_cvtepu32_epi64(a: __m128i) -> (r: __m128i)
    ensures
        forall|i: int| 0 <= i < 2 ==> #[trigger] r.u64_at(i) == a.u32_at(i),
{
    let x = a.u32();
    let mut o = [0u64; 2];
    for i in 0..2
        invariant
            forall|j: int| 0 <= j < i ==> o[j] == x[j],
    {
        o[i] = x[i] as u64;
    }
    __m128i::from_u64(o)
}

// --- Min / max ---

/// Packed minimum of sixteen `i8` lanes. Matches `_mm_min_epi8`.
pub fn _mm_min_epi8(a: __m128i, b: __m128i) -> (r: __m128i)
    ensures
        forall|i: int| 0 <= i < 16 ==> #[trigger] r.i8_at(i) == if a.i8_at(i) < b.i8_at(i) { a.i8_at(i) } else { b.i8_at(i) },
{
    let x = a.s8();
    let y = b.s8();
    let mut o = [0i8; 16];
    for i in 0..16
        invariant
            forall|j: int| 0 <= j < i ==> o[j] == if x[j] < y[j] { x[j] } else { y[j] },
    {
        o[i] = if x[i] < y[i] { x[i] } else { y[i] };
    }
    __m128i::from_s8(o)
}

/// Packed maximum of sixteen `i8` lanes. Matches `_mm_max_epi8`.
pub fn _mm_max_epi8(a: __m128i, b: __m128i) -> (r: __m128i)
    ensures
        forall|i: int| 0 <= i < 16 ==> #[trigger] r.i8_at(i) == if a.i8_at(i) > b.i8_at(i) { a.i8_at(i) } else { b.i8_at(i) },
{
    let x = a.s8();
    let y = b.s8();
    let mut o = [0i8; 16];
    for i in 0..16
        invariant
            forall|j: int| 0 <= j < i ==> o[j] == if x[j] > y[j] { x[j] } else { y[j] },
    {
        o[i] = if x[i] > y[i] { x[i] } else { y[i] };
    }
    __m128i::from_s8(o)
}

/// Packed minimum of four `i32` lanes. Matches `_mm_min_epi32`.
pub fn _mm_min_epi32(a: __m128i, b: __m128i) -> (r: __m128i)
    ensures
        forall|i: int| 0 <= i < 4 ==> #[trigger] r.i32_at(i) == if a.i32_at(i) < b.i32_at(i) { a.i32_at(i) } else { b.i32_at(i) },
{
    let x = a.s32();
    let y = b.s32();
    let mut o = [0i32; 4];
    for i in 0..4
        invariant
            forall|j: int| 0 <= j < i ==> o[j] == if x[j] < y[j] { x[j] } else { y[j] },
    {
        o[i] = if x[i] < y[i] { x[i] } else { y[i] };
    }
    __m128i::from_s32(o)
}

/// Packed maximum of four `i32` lanes. Matches `_mm_max_epi32`.
pub fn _mm_max_epi32(a: __m128i, b: __m128i) -> (r: __m128i)
    ensures
        forall|i: int| 0 <= i < 4 ==> #[trigger] r.i32_at(i) == if a.i32_at(i) > b.i32_at(i) { a.i32_at(i) } else { b.i32_at(i) },
{
    let x = a.s32();
    let y = b.s32();
    let mut o = [0i32; 4];
    for i in 0..4
        invariant
            forall|j: int| 0 <= j < i ==> o[j] == if x[j] > y[j] { x[j] } else { y[j] },
    {
        o[i] = if x[i] > y[i] { x[i] } else { y[i] };
    }
    __m128i::from_s32(o)
}

/// Packed minimum of eight `u16` lanes. Matches `_mm_min_epu16`.
pub fn _mm_min_epu16(a: __m128i, b: __m128i) -> (r: __m128i)
    ensures
        forall|i: int| 0 <= i < 8 ==> #[trigger] r.u16_at(i) == if a.u16_at(i) < b.u16_at(i) { a.u16_at(i) } else { b.u16_at(i) },
{
    let x = a.u16();
    let y = b.u16();
    let mut o = [0u16; 8];
    for i in 0..8
        invariant
            forall|j: int| 0 <= j < i ==> o[j] == if x[j] < y[j] { x[j] } else { y[j] },
    {
        o[i] = if x[i] < y[i] { x[i] } else { y[i] };
    }
    __m128i::from_u16(o)
}

/// Packed maximum of eight `u16` lanes. Matches `_mm_max_epu16`.
pub fn _mm_max_epu16(a: __m128i, b: __m128i) -> (r: __m128i)
    ensures
        forall|i: int| 0 <= i < 8 ==> #[trigger] r.u16_at(i) == if a.u16_at(i) > b.u16_at(i) { a.u16_at(i) } else { b.u16_at(i) },
{
    let x = a.u16();
    let y = b.u16();
    let mut o = [0u16; 8];
    for i in 0..8
        invariant
            forall|j: int| 0 <= j < i ==> o[j] == if x[j] > y[j] { x[j] } else { y[j] },
    {
        o[i] = if x[i] > y[i] { x[i] } else { y[i] };
    }
    __m128i::from_u16(o)
}

/// Packed minimum of four `u32` lanes. Matches `_mm_min_epu32`.
pub fn _mm_min_epu32(a: __m128i, b: __m128i) -> (r: __m128i)
    ensures
        forall|i: int| 0 <= i < 4 ==> #[trigger] r.u32_at(i) == if a.u32_at(i) < b.u32_at(i) { a.u32_at(i) } else { b.u32_at(i) },
{
    let x = a.u32();
    let y = b.u32();
    let mut o = [0u32; 4];
    for i in 0..4
        invariant
            forall|j: int| 0 <= j < i ==> o[j] == if x[j] < y[j] { x[j] } else { y[j] },
    {
        o[i] = if x[i] < y[i] { x[i] } else { y[i] };
    }
    __m128i::from_u32(o)
}

/// Packed maximum of four `u32` lanes. Matches `_mm_max_epu32`.
pub fn _mm_max_epu32(a: __m128i, b: __m128i) -> (r: __m128i)
    ensures
        forall|i: int| 0 <= i < 4 ==> #[trigger] r.u32_at(i) == if a.u32_at(i) > b.u32_at(i) { a.u32_at(i) } else { b.u32_at(i) },
{
    let x = a.u32();
    let y = b.u32();
    let mut o = [0u32; 4];
    for i in 0..4
        invariant
            forall|j: int| 0 <= j < i ==> o[j] == if x[j] > y[j] { x[j] } else { y[j] },
    {
        o[i] = if x[i] > y[i] { x[i] } else { y[i] };
    }
    __m128i::from_u32(o)
}

// --- Multiply / pack / compare ---

/// Multiply four `i32` lanes, keep the low 32 bits. Matches `_mm_mullo_epi32`.
pub fn _mm_mullo_epi32(a: __m128i, b: __m128i) -> (r: __m128i)
    ensures
        forall|i: int| 0 <= i < 4 ==> #[trigger] r.u32_at(i) == (a.u32_at(i) * b.u32_at(i)) % 0x1_0000_0000,
{
    let x = a.u32();
    let y = b.u32();
    let mut o = [0u32; 4];
    for i in 0..4
        invariant
            forall|j: int| 0 <= j < i ==> o[j] == (x[j] * y[j]) % 0x1_0000_0000,
    {
        proof {
            lemma_mul_bound(x[i as int] as int, y[i as int] as int, 0xffff_ffff);
        }
        o[i] = ((x[i] as u64 * y[i] as u64) % 0x1_0000_0000) as u32;
    }
    __m128i::from_u32(o)
}

/// Multiply the even `i32` lanes into `i64`. Matches `_mm_mul_epi32`.
pub fn _mm_mul_epi32(a: __m128i, b: __m128i) -> (r: __m128i)
    ensures
        forall|i: int| 0 <= i < 2 ==> #[trigger] r.i64_at(i) == a.i32_at(2 * i) * b.i32_at(2 * i),
{
    let x = a.s32();
    let y = b.s32();
    proof {
        lemma_mul_bound(x[0] as int, y[0] as int, 0x8000_0000);
        lemma_mul_bound(x[2] as int, y[2] as int, 0x8000_0000);
    }
    __m128i::from_s64([(x[0] as i64) * (y[0] as i64), (x[2] as i64) * (y[2] as i64)])
}

/// Pack four `i32` from each input to eight `u16` with unsigned saturation,
/// `a` into the low half. Matches `_mm_packus_epi32`.
pub fn _mm_packus_epi32(a: __m128i, b: __m128i) -> (r: __m128i)
    ensures
        forall|i: int|
            0 <= i < 8 ==> #[trigger] r.u16_at(i) == clamp(
                if i < 4 { a.i32_at(i) } else { b.i32_at(i - 4) },
                0,
                0xffff,
            ),
{
    let x = a.s32();
    let y = b.s32();
    let mut o = [0u16; 8];
    for i in 0..8
        invariant
            forall|j: int|
                0 <= j < i ==> o[j] == clamp(if j < 4 { x[j] as int } else { y[j - 4] as int }, 0, 0xffff),
    {
        let v = if i < 4 { x[i] } else { y[i - 4] };
        o[i] = if v < 0 { 0 } else if v > 0xffff { 0xffff } else { v as u16 };
    }
    __m128i::from_u16(o)
}

/// Lanes where two `i64` are equal become all ones, else zero.
/// Matches `_mm_cmpeq_epi64`.
pub fn _mm_cmpeq_epi64(a: __m128i, b: __m128i) -> (r: __m128i)
    ensures
        forall|i: int|
            0 <= i < 2 ==> #[trigger] r.u64_at(i) == if a.u64_at(i) == b.u64_at(i) {
                0xffff_ffff_ffff_ffffint
            } else {
                0int
            },
{
    let x = a.u64();
    let y = b.u64();
    let e0: u64 = if x[0] == y[0] { 0xffff_ffff_ffff_ffff } else { 0 };
    let e1: u64 = if x[1] == y[1] { 0xffff_ffff_ffff_ffff } else { 0 };
    __m128i::from_u64([e0, e1])
}

// --- Min position ---

/// Find the smallest `u16` lane and the first index holding it. Lane 0 of the
/// result is the minimum, lane 1 its index, the rest zero.
/// Matches `_mm_minpos_epu16`.
pub fn _mm_minpos_epu16(a: __m128i) -> (r: __m128i)
    ensures
        0 <= r.u16_at(1) < 8,
        r.u16_at(0) == a.u16_at(r.u16_at(1)),
        forall|j: int| 0 <= j < 8 ==> a.u16_at(j) >= r.u16_at(0),
        forall|j: int| 0 <= j < r.u16_at(1) ==> a.u16_at(j) > r.u16_at(0),
        forall|i: int| 2 <= i < 8 ==> #[trigger] r.u16_at(i) == 0,
{
    let v = a.u16();
    let mut min = v[0];
    let mut idx: usize = 0;
    for i in 1..8
        invariant
            idx < i,
            min == v[idx as int],
            forall|j: int| 0 <= j < i ==> v[j] >= min,
            forall|j: int| 0 <= j < idx ==> v[j] > min,
    {
        if v[i] < min {
            min = v[i];
            idx = i;
        }
    }
    __m128i::from_u16([min, idx as u16, 0, 0, 0, 0, 0, 0])
}

// --- Extract / insert ---

/// Extract byte lane `imm & 15`, zero-extended. Matches `_mm_extract_epi8`.
pub fn _mm_extract_epi8(a: __m128i, imm: i32) -> (r: i32)
    ensures
        r == a.u8_at((imm as int) % 16),
{
    let k = lane_index(imm, 16);
    a.bytes[k] as i32
}

/// Extract `i32` lane `imm & 3`. Matches `_mm_extract_epi32`.
pub fn _mm_extract_epi32(a: __m128i, imm: i32) -> (r: i32)
    ensures
        r == a.i32_at((imm as int) % 4),
{
    let k = lane_index(imm, 4);
    a.s32()[k]
}

/// Extract `i64` lane `imm & 1`. Matches `_mm_extract_epi64`.
pub fn _mm_extract_epi64(a: __m128i, imm: i32) -> (r: i64)
    ensures
        r == a.i64_at((imm as int) % 2),
{
    let k = lane_index(imm, 2);
    a.s64()[k]
}

/// Extract 16-bit lane `imm & 7`, zero-extended. Matches `_mm_extract_epi16`.
pub fn _mm_extract_epi16(a: __m128i, imm: i32) -> (r: i32)
    ensures
        r == a.u16_at((imm as int) % 8),
{
    let k = lane_index(imm, 8);
    a.u16()[k] as i32
}

/// Insert the low 8 bits of `i` into byte lane `imm & 15`.
/// Matches `_mm_insert_epi8`.
pub fn _mm_insert_epi8(a: __m128i, i: i32, imm: i32) -> (r: __m128i)
    ensures
        forall|k: int|
            0 <= k < 16 ==> #[trigger] r.u8_at(k) == if k == (imm as int) % 16 { (i as int) % 0x100 } else { a.u8_at(k) },
{
    let k = lane_index(imm, 16);
    let mut v = a.bytes;
    v[k] = ((i as i64 + 0x1_0000_0000) % 0x100) as u8;
    __m128i { bytes: v }
}

/// Insert `i` into `i32` lane `imm & 3`. Matches `_mm_insert_epi32`.
pub fn _mm_insert_epi32(a: __m128i, i: i32, imm: i32) -> (r: __m128i)
    ensures
        forall|k: int| 0 <= k < 4 ==> #[trigger] r.i32_at(k) == if k == (imm as int) % 4 { i as int } else { a.i32_at(k) },
{
    let k = lane_index(imm, 4);
    let mut v = a.s32();
    v[k] = i;
    __m128i::from_s32(v)
}

/// Insert `i` into `i64` lane `imm & 1`. Matches `_mm_insert_epi64`.
pub fn _mm_insert_epi64(a: __m128i, i: i64, imm: i32) -> (r: __m128i)
    ensures
        forall|k: int| 0 <= k < 2 ==> #[trigger] r.i64_at(k) == if k == (imm as int) % 2 { i as int } else { a.i64_at(k) },
{
    let k = lane_index(imm, 2);
    let mut v = a.s64();
    v[k] = i;
    __m128i::from_s64(v)
}

/// Insert the low 16 bits of `i` into 16-bit lane `imm & 7`.
/// Matches `_mm_insert_epi16`.
pub fn _mm_insert_epi16(a: __m128i, i: i32, imm: i32) -> (r: __m128i)
    ensures
        forall|k: int| 0 <= k < 8 ==> #[trigger] r.u16_at(k) == if k == (imm as int) % 8 { (i as int) % 0x1_0000 } else { a.u16_at(k) },
{
    let k = lane_index(imm, 8);
    let mut v = a.u16();
    v[k] = ((i as i64 + 0x1_0000_0000) % 0x1_0000) as u16;
    __m128i::from_u16(v)
}

/// The lane picked by the low bits of `imm`: `imm` modulo `n`.
fn lane_index(imm: i32, n: usize) -> (k: usize)
    requires
        n == 2 || n == 4 || n == 8 || n == 16,
    ensures
        k == (imm as int) % (n as int),
{
    ((imm as i64 + 0x8000_0000) % (n as i64)) as usize
}

// --- Tests ---

/// Every byte of `x` is zero.
pub open spec fn all_zero(x: __m128i) -> bool {
    forall|i: int| 0 <= i < 16 ==> #[trigger] x@[i] == 0
}

fn is_all_zero(x: __m128i) -> (r: bool)
    ensures
        r == all_zero(x),
{
    for i in 0..16
        invariant
            forall|j: int| 0 <= j < i ==> x@[j] == 0,
    {
        if x.bytes[i] != 0 {
            assert(x@[i as int] != 0);
            return false;
        }
    }
    assert(all_zero(x));
    true
}

/// 1 if `a & b` is zero, else 0. Matches `_mm_testz_si128`.
pub fn _mm_testz_si128(a: __m128i, b: __m128i) -> (r: i32)
    ensures
        r == if (forall|i: int| 0 <= i < 16 ==> #[trigger] (a@[i] & b@[i]) == 0) { 1i32 } else { 0i32 },
{
    let m = _mm_and_si128(a, b);
    assert(forall|i: int| 0 <= i < 16 ==> #[trigger] m@[i] == (a@[i] & b@[i]));
    if is_all_zero(m) {
        assert forall|i: int| 0 <= i < 16 implies #[trigger] (a@[i] & b@[i]) == 0 by {
            assert(m@[i] == 0);
        }
        1
    } else {
        0
    }
}

/// 1 if `(!a) & b` is zero, that is every bit set in `b` is set in `a`, else 0.
/// Matches `_mm_testc_si128`.
pub fn _mm_testc_si128(a: __m128i, b: __m128i) -> (r: i32)
    ensures
        r == if (forall|i: int| 0 <= i < 16 ==> #[trigger] (!a@[i] & b@[i]) == 0) { 1i32 } else { 0i32 },
{
    let m = _mm_andnot_si128(a, b);
    assert(forall|i: int| 0 <= i < 16 ==> #[trigger] m@[i] == (!a@[i] & b@[i]));
    if is_all_zero(m) {
        assert forall|i: int| 0 <= i < 16 implies #[trigger] (!a@[i] & b@[i]) == 0 by {
            assert(m@[i] == 0);
        }
        1
    } else {
        0
    }
}

/// 1 if both `a & b` and `(!a) & b` are nonzero, else 0.
/// Matches `_mm_testnzc_si128`.
pub fn _mm_testnzc_si128(a: __m128i, b: __m128i) -> (r: i32)
    ensures
        r == if !(forall|i: int| 0 <= i < 16 ==> #[trigger] (a@[i] & b@[i]) == 0) && !(forall|i: int|
            0 <= i < 16 ==> #[trigger] (!a@[i] & b@[i]) == 0) {
            1i32
        } else {
            0i32
        },
{
    let zf = _mm_testz_si128(a, b);
    let cf = _mm_testc_si128(a, b);
    if zf == 0 && cf == 0 {
        1
    } else {
        0
    }
}

/// 1 if every bit of `a` is one, else 0. Matches `_mm_test_all_ones`.
pub fn _mm_test_all_ones(a: __m128i) -> (r: i32)
    ensures
        r == if (forall|i: int| 0 <= i < 16 ==> #[trigger] a@[i] == 0xff) { 1i32 } else { 0i32 },
{
    for i in 0..16
        invariant
            forall|j: int| 0 <= j < i ==> a@[j] == 0xff,
    {
        if a.bytes[i] != 0xff {
            assert(a@[i as int] != 0xff);
            return 0;
        }
    }
    1
}

/// 1 if `a & mask` is zero, else 0. Matches `_mm_test_all_zeros`.
pub fn _mm_test_all_zeros(a: __m128i, mask: __m128i) -> (r: i32)
    ensures
        r == if (forall|i: int| 0 <= i < 16 ==> #[trigger] (a@[i] & mask@[i]) == 0) { 1i32 } else { 0i32 },
{
    _mm_testz_si128(a, mask)
}

/// 1 if the bits of `a` selected by `mask` are neither all zero nor all one,
/// else 0. Matches `_mm_test_mix_ones_zeros`.
pub fn _mm_test_mix_ones_zeros(a: __m128i, mask: __m128i) -> (r: i32)
    ensures
        r == if !(forall|i: int| 0 <= i < 16 ==> #[trigger] (a@[i] & mask@[i]) == 0) && !(forall|i: int|
            0 <= i < 16 ==> #[trigger] (!a@[i] & mask@[i]) == 0) {
            1i32
        } else {
            0i32
        },
{
    _mm_testnzc_si128(a, mask)
}


// --- Rounding to integral values ---

/// Rounding code, in the sense of [`crate::ieee::round_div`], that the
/// `_MM_FROUND_*` argument `rounding` selects: its direction bits pick
/// nearest-even, down, up or toward zero, and any other value picks the mode of
/// `fpcr`. The exception bit is ignored.
pub open spec fn fround_code(rounding: i32, fpcr: u64) -> int {
    let mode = rounding & !(_MM_FROUND_RAISE_EXC | _MM_FROUND_NO_EXC);
    if 0 <= mode < 4 {
        mode as int
    } else {
        round_code(fpcr)
    }
}

proof fn lemma_fround_direction(m: i32)
    requires
        0 <= m < 4,
    ensures
        m & !(0i32 | 8i32) == m,
{
    assert(0 <= m < 4 ==> m & !(0i32 | 8i32) == m) by (bit_vector);
}

fn fround_mode(rounding: i32, fpcr: u64) -> (r: u8)
    ensures
        r == fround_code(rounding, fpcr),
        r < 4,
{
    let mode = rounding & !(_MM_FROUND_RAISE_EXC | _MM_FROUND_NO_EXC);
    if 0 <= mode && mode < 4 {
        mode as u8
    } else {
        rounding_code(fpcr)
    }
}

/// Round four `f32` lanes to integral values in the direction that `rounding`
/// selects (see [`fround_code`]); NaN, infinities and denormals follow
/// [`rounds_to_int32`] under the FZ and DN bits of `fpcr`.
/// Matches `_mm_round_ps`.
pub fn _mm_round_ps(a: __m128, rounding: i32, fpcr: u64) -> (r: __m128)
    ensures
        forall|i: int|
            0 <= i < 4 ==> rounds_to_int32(
                a@[i],
                #[trigger] r@[i],
                fround_code(rounding, fpcr),
                fz_set(fpcr),
                dn_set(fpcr),
            ),
{
    let code = fround_mode(rounding, fpcr);
    let fz = (fpcr / FPCR_FZ_BIT) % 2 == 1;
    let dn = (fpcr / FPCR_DN_BIT) % 2 == 1;
    let mut v = [0u32; 4];
    for i in 0..4
        invariant
            code == fround_code(rounding, fpcr),
            code < 4,
            fz == fz_set(fpcr),
            dn == dn_set(fpcr),
            forall|j: int|
                0 <= j < i ==> rounds_to_int32(
                    a@[j],
                    #[trigger] v@[j],
                    fround_code(rounding, fpcr),
                    fz_set(fpcr),
                    dn_set(fpcr),
                ),
    {
        v[i] = round_lane32(a.lanes[i], code, fz, dn);
    }
    __m128 { lanes: v }
}

/// Round two `f64` lanes to integral values in the direction that `rounding`
/// selects (see [`fround_code`]); NaN, infinities and denormals follow
/// [`rounds_to_int64`] under the FZ and DN bits of `fpcr`.
/// Matches `_mm_round_pd`.
pub fn _mm_round_pd(a: __m128d, rounding: i32, fpcr: u64) -> (r: __m128d)
    ensures
        rounds_to_int64(a@[0], r@[0], fround_code(rounding, fpcr), fz_set(fpcr), dn_set(fpcr)),
        rounds_to_int64(a@[1], r@[1], fround_code(rounding, fpcr), fz_set(fpcr), dn_set(fpcr)),
{
    let code = fround_mode(rounding, fpcr);
    let fz = (fpcr / FPCR_FZ_BIT) % 2 == 1;
    let dn = (fpcr / FPCR_DN_BIT) % 2 == 1;
    __m128d {
        lanes: [round_lane64(a.lanes[0], code, fz, dn), round_lane64(a.lanes[1], code, fz, dn)],
    }
}

/// Round four `f32` lanes toward negative infinity. Matches `_mm_floor_ps`.
pub fn _mm_floor_ps(a: __m128, fpcr: u64) -> (r: __m128)
    ensures
        forall|i: int|
            0 <= i < 4 ==> rounds_to_int32(a@[i], #[trigger] r@[i], 1, fz_set(fpcr), dn_set(fpcr)),
{
    proof {
        lemma_fround_direction(_MM_FROUND_TO_NEG_INF);
    }
    _mm_round_ps(a, _MM_FROUND_TO_NEG_INF, fpcr)
}

/// Round four `f32` lanes toward positive infinity. Matches `_mm_ceil_ps`.
pub fn _mm_ceil_ps(a: __m128, fpcr: u64) -> (r: __m128)
    ensures
        forall|i: int|
            0 <= i < 4 ==> rounds_to_int32(a@[i], #[trigger] r@[i], 2, fz_set(fpcr), dn_set(fpcr)),
{
    proof {
        lemma_fround_direction(_MM_FROUND_TO_POS_INF);
    }
    _mm_round_ps(a, _MM_FROUND_TO_POS_INF, fpcr)
}

/// Round two `f64` lanes toward negative infinity. Matches `_mm_floor_pd`.
pub fn _mm_floor_pd(a: __m128d, fpcr: u64) -> (r: __m128d)
    ensures
        rounds_to_int64(a@[0], r@[0], 1, fz_set(fpcr), dn_set(fpcr)),
        rounds_to_int64(a@[1], r@[1], 1, fz_set(fpcr), dn_set(fpcr)),
{
    proof {
        lemma_fround_direction(_MM_FROUND_TO_NEG_INF);
    }
    _mm_round_pd(a, _MM_FROUND_TO_NEG_INF, fpcr)
}

/// Round two `f64` lanes toward positive infinity. Matches `_mm_ceil_pd`.
pub fn _mm_ceil_pd(a: __m128d, fpcr: u64) -> (r: __m128d)
    ensures
        rounds_to_int64(a@[0], r@[0], 2, fz_set(fpcr), dn_set(fpcr)),
        rounds_to_int64(a@[1], r@[1], 2, fz_set(fpcr), dn_set(fpcr)),
{
    proof {
        lemma_fround_direction(_MM_FROUND_TO_POS_INF);
    }
    _mm_round_pd(a, _MM_FROUND_TO_POS_INF, fpcr)
}

/// Round lane 0 of `b` as [`_mm_round_ps`] does; lanes 1-3 come from `a`.
/// Matches `_mm_round_ss`.
pub fn _mm_round_ss(a: __m128, b: __m128, rounding: i32, fpcr: u64) -> (r: __m128)
    ensures
        rounds_to_int32(b@[0], r@[0], fround_code(rounding, fpcr), fz_set(fpcr), dn_set(fpcr)),
        forall|i: int| 1 <= i < 4 ==> #[trigger] r@[i] == a@[i],
{
    _mm_move_ss(a, _mm_round_ps(b, rounding, fpcr))
}

/// Floor lane 0 of `b`; lanes 1-3 come from `a`. Matches `_mm_floor_ss`.
pub fn _mm_floor_ss(a: __m128, b: __m128, fpcr: u64) -> (r: __m128)
    ensures
        rounds_to_int32(b@[0], r@[0], 1, fz_set(fpcr), dn_set(fpcr)),
        forall|i: int| 1 <= i < 4 ==> #[trigger] r@[i] == a@[i],
{
    _mm_move_ss(a, _mm_floor_ps(b, fpcr))
}

/// Ceil lane 0 of `b`; lanes 1-3 come from `a`. Matches `_mm_ceil_ss`.
pub fn _mm_ceil_ss(a: __m128, b: __m128, fpcr: u64) -> (r: __m128)
    ensures
        rounds_to_int32(b@[0], r@[0], 2, fz_set(fpcr), dn_set(fpcr)),
        forall|i: int| 1 <= i < 4 ==> #[trigger] r@[i] == a@[i],
{
    _mm_move_ss(a, _mm_ceil_ps(b, fpcr))
}

/// Round lane 0 of `b` as [`_mm_round_pd`] does; lane 1 comes from `a`.
/// Matches `_mm_round_sd`.
pub fn _mm_round_sd(a: __m128d, b: __m128d, rounding: i32, fpcr: u64) -> (r: __m128d)
    ensures
        rounds_to_int64(b@[0], r@[0], fround_code(rounding, fpcr), fz_set(fpcr), dn_set(fpcr)),
        r@[1] == a@[1],
{
    _mm_move_sd(a, _mm_round_pd(b, rounding, fpcr))
}

/// Floor lane 0 of `b`; lane 1 comes from `a`. Matches `_mm_floor_sd`.
pub fn _mm_floor_sd(a: __m128d, b: __m128d, fpcr: u64) -> (r: __m128d)
    ensures
        rounds_to_int64(b@[0], r@[0], 1, fz_set(fpcr), dn_set(fpcr)),
        r@[1] == a@[1],
{
    _mm_move_sd(a, _mm_floor_pd(b, fpcr))
}

/// Ceil lane 0 of `b`; lane 1 comes from `a`. Matches `_mm_ceil_sd`.
pub fn _mm_ceil_sd(a: __m128d, b: __m128d, fpcr: u64) -> (r: __m128d)
    ensures
        rounds_to_int64(b@[0], r@[0], 2, fz_set(fpcr), dn_set(fpcr)),
        r@[1] == a@[1],
{
    _mm_move_sd(a, _mm_ceil_pd(b, fpcr))
}

// --- Dot product ---

/// The running sum of [`_mm_dp_ps`] after its first `k` lanes: starting from
/// `+0.0`, each lane `i` whose bit `4 + i` of `imm` is set adds the product
/// `a[i] * b[i]`, every operation rounded as [`fadd32`] and [`fmul32`] round.
pub open spec fn dot32(a: Seq<u32>, b: Seq<u32>, imm: i32, k: int, mode: int, fz: bool, dn: bool) -> u32
    decreases k,
{
    if k <= 0 {
        0u32
    } else {
        let s = dot32(a, b, imm, k - 1, mode, fz, dn);
        if bit_of(imm, 4 + k - 1) {
            fadd32(s, fmul32(a[k - 1], b[k - 1], mode, fz, dn), false, mode, fz, dn)
        } else {
            s
        }
    }
}

/// Dot product of four `f32` lanes: lanes whose bit `4 + i` of `imm` is set
/// contribute their product to a sum accumulated in lane order from `+0.0`
/// (see [`dot32`]); lanes whose bit `i` is set receive the sum, the others
/// `+0.0`. Every operation rounds under the rounding mode of `fpcr`, with its
/// FZ and DN bits. Matches `_mm_dp_ps`.
pub fn _mm_dp_ps(a: __m128, b: __m128, imm: i32, fpcr: u64) -> (r: __m128)
    ensures
        forall|i: int|
            0 <= i < 4 ==> #[trigger] r@[i] == if bit_of(imm, i) {
                dot32(a@, b@, imm, 4, round_code(fpcr), fz_set(fpcr), dn_set(fpcr))
            } else {
                0u32
            },
{
    let code = rounding_code(fpcr);
    let fz = (fpcr / FPCR_FZ_BIT) % 2 == 1;
    let dn = (fpcr / FPCR_DN_BIT) % 2 == 1;
    let mut sum: u32 = 0;
    for i in 0..4
        invariant
            code == round_code(fpcr),
            code < 4,
            fz == fz_set(fpcr),
            dn == dn_set(fpcr),
            sum == dot32(a@, b@, imm, i as int, round_code(fpcr), fz_set(fpcr), dn_set(fpcr)),
    {
        if (imm >> ((4 + i) as i32)) & 1 == 1 {
            let p = mul_lane32(a.lanes[i], b.lanes[i], code, fz, dn);
            sum = add_lane32(sum, p, false, code, fz, dn);
        }
    }
    let mut out = [0u32; 4];
    for i in 0..4
        invariant
            forall|j: int|
                0 <= j < i ==> out[j] == if bit_of(imm, j) {
                    sum
                } else {
                    0u32
                },
            forall|j: int| i <= j < 4 ==> out[j] == 0,
    {
        if (imm >> (i as i32)) & 1 == 1 {
            out[i] = sum;
        }
    }
    __m128 { lanes: out }
}

/// Dot product of two `f64` lanes: starting from `+0.0`, lane 0 adds
/// `a0 * b0` when bit 4 of `imm` is set, then lane 1 adds `a1 * b1` when bit 5
/// is set; lane `i` of the result is the sum when bit `i` is set, else `+0.0`.
/// Every operation rounds under the rounding mode of `fpcr`, with its FZ and DN
/// bits. Matches `_mm_dp_pd`.
pub fn _mm_dp_pd(a: __m128d, b: __m128d, imm: i32, fpcr: u64) -> (r: __m128d)
    ensures
        ({
            let mode = round_code(fpcr);
            let fz = fz_set(fpcr);
            let dn = dn_set(fpcr);
            let s0: u64 = if bit_of(imm, 4) {
                fadd64(0, fmul64(a@[0], b@[0], mode, fz, dn), false, mode, fz, dn)
            } else {
                0
            };
            let s1: u64 = if bit_of(imm, 5) {
                fadd64(s0, fmul64(a@[1], b@[1], mode, fz, dn), false, mode, fz, dn)
            } else {
                s0
            };
            &&& r@[0] == if bit_of(imm, 0) { s1 } else { 0u64 }
            &&& r@[1] == if bit_of(imm, 1) { s1 } else { 0u64 }
        }),
{
    let code = rounding_code(fpcr);
    let fz = (fpcr / FPCR_FZ_BIT) % 2 == 1;
    let dn = (fpcr / FPCR_DN_BIT) % 2 == 1;
    let mut sum: u64 = 0;
    if (imm >> 4) & 1 == 1 {
        let p = mul_lane64(a.lanes[0], b.lanes[0], code, fz, dn);
        sum = add_lane64(sum, p, false, code, fz, dn);
    }
    if (imm >> 5) & 1 == 1 {
        let p = mul_lane64(a.lanes[1], b.lanes[1], code, fz, dn);
        sum = add_lane64(sum, p, false, code, fz, dn);
    }
    let e0 = if imm & 1 == 1 { sum } else { 0 };
    let e1 = if (imm >> 1) & 1 == 1 { sum } else { 0 };
    proof {
        assert(imm & 1 == (imm >> 0) & 1) by (bit_vector);
    }
    __m128d { lanes: [e0, e1] }
}

// --- Laws of rounding directions and dot products ---

/// An explicit rounding direction does not depend on the FPCR: when the
/// direction bits of `rounding` (all but the exception bit) are `0..4`, every
/// FPCR gives the same rounding code, the one those two bits name.
pub proof fn law_explicit_direction_ignores_fpcr(rounding: i32, fpcr1: u64, fpcr2: u64)
    requires
        0 <= rounding & !8i32 < 4,
    ensures
        fround_code(rounding, fpcr1) == fround_code(rounding, fpcr2),
        fround_code(rounding, fpcr1) == (rounding & 3i32) as int,
{
    assert(0 <= rounding & !8i32 < 4 ==> rounding & !(0i32 | 8i32) == rounding & 3i32
        && 0 <= rounding & 3i32 < 4) by (bit_vector);
}

/// The named directions, alone or with `_MM_FROUND_NO_EXC`: nearest-even is
/// code `0`, toward negative infinity `1`, toward positive infinity `2` and
/// toward zero `3`, whatever the FPCR holds; `_MM_FROUND_CUR_DIRECTION` and
/// `_MM_FROUND_NEARBYINT` take the FPCR's mode.
pub proof fn law_named_directions(fpcr: u64)
    ensures
        fround_code(0x00, fpcr) == 0,
        fround_code(0x01, fpcr) == 1,
        fround_code(0x02, fpcr) == 2,
        fround_code(0x03, fpcr) == 3,
        fround_code(0x08, fpcr) == 0,
        fround_code(0x09, fpcr) == 1,
        fround_code(0x0a, fpcr) == 2,
        fround_code(0x0b, fpcr) == 3,
        fround_code(0x04, fpcr) == round_code(fpcr),
        fround_code(0x0c, fpcr) == round_code(fpcr),
{
    assert(0x00i32 & !(0i32 | 8i32) == 0 && 0x01i32 & !(0i32 | 8i32) == 1
        && 0x02i32 & !(0i32 | 8i32) == 2 && 0x03i32 & !(0i32 | 8i32) == 3
        && 0x08i32 & !(0i32 | 8i32) == 0 && 0x09i32 & !(0i32 | 8i32) == 1
        && 0x0ai32 & !(0i32 | 8i32) == 2 && 0x0bi32 & !(0i32 | 8i32) == 3
        && 0x04i32 & !(0i32 | 8i32) == 4 && 0x0ci32 & !(0i32 | 8i32) == 4) by (bit_vector);
}

/// Lane `i` takes part in the dot product only when bit `4 + i` of `imm` is
/// set: with that bit clear, changing `a[i]` and `b[i]`, and nothing else,
/// leaves every running sum, so the result, unchanged.
pub proof fn law_dot32_ignores_unselected_lane(
    a: Seq<u32>,
    b: Seq<u32>,
    a2: Seq<u32>,
    b2: Seq<u32>,
    imm: i32,
    i: int,
    k: int,
    mode: int,
    fz: bool,
    dn: bool,
)
    requires
        0 <= i < 4,
        k <= 4,
        !bit_of(imm, 4 + i),
        forall|j: int| 0 <= j < 4 && j != i ==> #[trigger] a2[j] == a[j] && b2[j] == b[j],
    ensures
        dot32(a, b, imm, k, mode, fz, dn) == dot32(a2, b2, imm, k, mode, fz, dn),
    decreases k,
{
    if k > 0 {
        law_dot32_ignores_unselected_lane(a, b, a2, b2, imm, i, k - 1, mode, fz, dn);
    }
}

/// With exactly one of bits `4..8` of `imm` set, bit `4 + i`, the dot product
/// is the single product `a[i] * b[i]` added to `+0.0`; the running sum is
/// `+0.0` before lane `i` and that value from lane `i` on.
pub proof fn law_dot32_single_lane(a: Seq<u32>, b: Seq<u32>, imm: i32, i: int, k: int, mode: int, fz: bool, dn: bool)
    requires
        0 <= i < 4,
        k <= 4,
        bit_of(imm, 4 + i),
        forall|j: int| 0 <= j < 4 && j != i ==> !#[trigger] bit_of(imm, 4 + j),
    ensures
        dot32(a, b, imm, k, mode, fz, dn) == if k <= i {
            0u32
        } else {
            fadd32(0u32, fmul32(a[i], b[i], mode, fz, dn), false, mode, fz, dn)
        },
    decreases k,
{
    if k > 0 {
        law_dot32_single_lane(a, b, imm, i, k - 1, mode, fz, dn);
        assert(k - 1 != i ==> !bit_of(imm, 4 + (k - 1)));
    }
}
} // verus!
