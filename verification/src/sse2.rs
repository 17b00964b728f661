//! SSE2 intrinsics on packed integers and on `f64` vectors.
//!
//! Covers integer arithmetic with and without saturation, bitwise logic,
//! comparisons, shifts, pack and unpack, set/load/store, movemask; the `f64`
//! bitwise, compare, minimum and maximum, arithmetic, square root, move and
//! unpack operations; and the conversions between integers, `f32` and `f64`,
//! which take the value of the FPCR as [`crate::sse`] describes.
use crate::ieee::{eq64, leq64, lt64, nan64, pred64, test64, convert32, convert64, cvt32_i32, cvt64_i32, flush32, flush64, flush_lane32, flush_lane64, fmax64, fmin64, minmax_lane64, exp32, exp64, sig32, sig64};
use crate::mxcsr::{rmode_field, fz_set, dn_set, rmode_for, with_rmode, FPCR_RMODE_UNIT, FPCR_FZ_BIT, FPCR_DN_BIT};
use crate::constants::{_MM_ROUND_DOWN, _MM_ROUND_NEAREST, _MM_ROUND_TOWARD_ZERO, _MM_ROUND_UP};
use crate::fparith::{fadd64, fmul64, fdiv64, fsqrt64, add_lane64, mul_lane64, div_lane64, sqrt_lane64, int_to32, int_to64, int_lane32, int_lane64, narrow, widen, narrow_lane, widen_lane};
use crate::types::{field2, bit_mask, abs_diff_sum, pow2i, lemma_u64_shl_mod, lemma_mul_bound, sat_i8, sat_u8, sat_i16, sat_u16, __m128i, __m128d, __m128, clamp, sx8, sx16, sx32, sx64, le16, le32, le64};
use vstd::prelude::*;
use vstd::arithmetic::power2::{pow2, lemma2_to64, lemma2_to64_rest, lemma_pow2_pos, lemma_pow2_adds, lemma_pow2_unfold, lemma_pow2_strictly_increases};
use vstd::bits::lemma_u64_shr_is_div;

verus! {

// --- Integer arithmetic ---

fn add64(x: u64, y: u64) -> (r: u64)
    ensures
        r == (x + y) % 0x1_0000_0000_0000_0000,
{
    if x <= u64::MAX - y {
        x + y
    } else {
        x - (u64::MAX - y) - 1
    }
}

fn sub64(x: u64, y: u64) -> (r: u64)
    ensures
        r == (x - y) % 0x1_0000_0000_0000_0000,
{
    if x >= y {
        x - y
    } else {
        x + (u64::MAX - y) + 1
    }
}

/// Add sixteen `i8` lanes with wraparound. Matches `_mm_add_epi8`.
pub fn _mm_add_epi8(a: __m128i, b: __m128i) -> (r: __m128i)
    ensures
        forall|i: int| 0 <= i < 16 ==> #[trigger] r.u8_at(i) == (a.u8_at(i) + b.u8_at(i)) % 0x100,
{
    let x = a.u8();
    let y = b.u8();
    let mut o = [0u8; 16];
    for i in 0..16
        invariant
            forall|j: int| 0 <= j < i ==> o[j] == (x[j] + y[j]) % 0x100,
    {
        o[i] = ((x[i] as u16 + y[i] as u16) % 0x100) as u8;
    }
    __m128i::from_u8(o)
}

/// Add eight `i16` lanes with wraparound. Matches `_mm_add_epi16`.
pub fn _mm_add_epi16(a: __m128i, b: __m128i) -> (r: __m128i)
    ensures
        forall|i: int| 0 <= i < 8 ==> #[trigger] r.u16_at(i) == (a.u16_at(i) + b.u16_at(i)) % 0x1_0000,
{
    let x = a.u16();
    let y = b.u16();
    let mut o = [0u16; 8];
    for i in 0..8
        invariant
            forall|j: int| 0 <= j < i ==> o[j] == (x[j] + y[j]) % 0x1_0000,
    {
        o[i] = ((x[i] as u32 + y[i] as u32) % 0x1_0000) as u16;
    }
    __m128i::from_u16(o)
}

/// Add four `i32` lanes with wraparound. Matches `_mm_add_epi32`.
pub fn _mm_add_epi32(a: __m128i, b: __m128i) -> (r: __m128i)
    ensures
        forall|i: int| 0 <= i < 4 ==> #[trigger] r.u32_at(i) == (a.u32_at(i) + b.u32_at(i)) % 0x1_0000_0000,
{
    let x = a.u32();
    let y = b.u32();
    let mut o = [0u32; 4];
    for i in 0..4
        invariant
            forall|j: int| 0 <= j < i ==> o[j] == (x[j] + y[j]) % 0x1_0000_0000,
    {
        o[i] = ((x[i] as u64 + y[i] as u64) % 0x1_0000_0000) as u32;
    }
    __m128i::from_u32(o)
}

/// Add two `i64` lanes with wraparound. Matches `_mm_add_epi64`.
pub fn _mm_add_epi64(a: __m128i, b: __m128i) -> (r: __m128i)
    ensures
        forall|i: int| 0 <= i < 2 ==> #[trigger] r.u64_at(i) == (a.u64_at(i) + b.u64_at(i)) % 0x1_0000_0000_0000_0000,
{
    let x = a.u64();
    let y = b.u64();
    __m128i::from_u64([add64(x[0], y[0]), add64(x[1], y[1])])
}

/// Subtract sixteen `i8` lanes with wraparound. Matches `_mm_sub_epi8`.
pub fn _mm_sub_epi8(a: __m128i, b: __m128i) -> (r: __m128i)
    ensures
        forall|i: int| 0 <= i < 16 ==> #[trigger] r.u8_at(i) == (a.u8_at(i) - b.u8_at(i)) % 0x100,
{
    let x = a.u8();
    let y = b.u8();
    let mut o = [0u8; 16];
    for i in 0..16
        invariant
            forall|j: int| 0 <= j < i ==> o[j] == (x[j] - y[j]) % 0x100,
    {
        o[i] = ((x[i] as u16 + 0x100 - y[i] as u16) % 0x100) as u8;
    }
    __m128i::from_u8(o)
}

/// Subtract eight `i16` lanes with wraparound. Matches `_mm_sub_epi16`.
pub fn _mm_sub_epi16(a: __m128i, b: __m128i) -> (r: __m128i)
    ensures
        forall|i: int| 0 <= i < 8 ==> #[trigger] r.u16_at(i) == (a.u16_at(i) - b.u16_at(i)) % 0x1_0000,
{
    let x = a.u16();
    let y = b.u16();
    let mut o = [0u16; 8];
    for i in 0..8
        invariant
            forall|j: int| 0 <= j < i ==> o[j] == (x[j] - y[j]) % 0x1_0000,
    {
        o[i] = ((x[i] as u32 + 0x1_0000 - y[i] as u32) % 0x1_0000) as u16;
    }
    __m128i::from_u16(o)
}

/// Subtract four `i32` lanes with wraparound. Matches `_mm_sub_epi32`.
pub fn _mm_sub_epi32(a: __m128i, b: __m128i) -> (r: __m128i)
    ensures
        forall|i: int| 0 <= i < 4 ==> #[trigger] r.u32_at(i) == (a.u32_at(i) - b.u32_at(i)) % 0x1_0000_0000,
{
    let x = a.u32();
    let y = b.u32();
    let mut o = [0u32; 4];
    for i in 0..4
        invariant
            forall|j: int| 0 <= j < i ==> o[j] == (x[j] - y[j]) % 0x1_0000_0000,
    {
        o[i] = ((x[i] as u64 + 0x1_0000_0000 - y[i] as u64) % 0x1_0000_0000) as u32;
    }
    __m128i::from_u32(o)
}

/// Subtract two `i64` lanes with wraparound. Matches `_mm_sub_epi64`.
pub fn _mm_sub_epi64(a: __m128i, b: __m128i) -> (r: __m128i)
    ensures
        forall|i: int| 0 <= i < 2 ==> #[trigger] r.u64_at(i) == (a.u64_at(i) - b.u64_at(i)) % 0x1_0000_0000_0000_0000,
{
    let x = a.u64();
    let y = b.u64();
    __m128i::from_u64([sub64(x[0], y[0]), sub64(x[1], y[1])])
}

/// Add eight `i16` lanes with signed saturation. Matches `_mm_adds_epi16`.
pub fn _mm_adds_epi16(a: __m128i, b: __m128i) -> (r: __m128i)
    ensures
        forall|i: int| 0 <= i < 8 ==> #[trigger] r.i16_at(i) == clamp(a.i16_at(i) + b.i16_at(i), -0x8000, 0x7fff),
{
    let x = a.s16();
    let y = b.s16();
    let mut o = [0i16; 8];
    for i in 0..8
        invariant
            forall|j: int| 0 <= j < i ==> o[j] == clamp(x[j] + y[j], -0x8000, 0x7fff),
    {
        o[i] = sat_i16(x[i] as i32 + y[i] as i32);
    }
    __m128i::from_s16(o)
}

/// Add sixteen `i8` lanes with signed saturation. Matches `_mm_adds_epi8`.
pub fn _mm_adds_epi8(a: __m128i, b: __m128i) -> (r: __m128i)
    ensures
        forall|i: int| 0 <= i < 16 ==> #[trigger] r.i8_at(i) == clamp(a.i8_at(i) + b.i8_at(i), -0x80, 0x7f),
{
    let x = a.s8();
    let y = b.s8();
    let mut o = [0i8; 16];
    for i in 0..16
        invariant
            forall|j: int| 0 <= j < i ==> o[j] == clamp(x[j] + y[j], -0x80, 0x7f),
    {
        o[i] = sat_i8(x[i] as i32 + y[i] as i32);
    }
    __m128i::from_s8(o)
}

/// Add sixteen `u8` lanes with unsigned saturation. Matches `_mm_adds_epu8`.
pub fn _mm_adds_epu8(a: __m128i, b: __m128i) -> (r: __m128i)
    ensures
        forall|i: int| 0 <= i < 16 ==> #[trigger] r.u8_at(i) == clamp(a.u8_at(i) + b.u8_at(i), 0, 0xff),
{
    let x = a.u8();
    let y = b.u8();
    let mut o = [0u8; 16];
    for i in 0..16
        invariant
            forall|j: int| 0 <= j < i ==> o[j] == clamp(x[j] + y[j], 0, 0xff),
    {
        o[i] = sat_u8(x[i] as i32 + y[i] as i32);
    }
    __m128i::from_u8(o)
}

/// Add eight `u16` lanes with unsigned saturation. Matches `_mm_adds_epu16`.
pub fn _mm_adds_epu16(a: __m128i, b: __m128i) -> (r: __m128i)
    ensures
        forall|i: int| 0 <= i < 8 ==> #[trigger] r.u16_at(i) == clamp(a.u16_at(i) + b.u16_at(i), 0, 0xffff),
{
    let x = a.u16();
    let y = b.u16();
    let mut o = [0u16; 8];
    for i in 0..8
        invariant
            forall|j: int| 0 <= j < i ==> o[j] == clamp(x[j] + y[j], 0, 0xffff),
    {
        o[i] = sat_u16(x[i] as i32 + y[i] as i32);
    }
    __m128i::from_u16(o)
}

/// Subtract eight `i16` lanes with signed saturation. Matches `_mm_subs_epi16`.
pub fn _mm_subs_epi16(a: __m128i, b: __m128i) -> (r: __m128i)
    ensures
        forall|i: int| 0 <= i < 8 ==> #[trigger] r.i16_at(i) == clamp(a.i16_at(i) - b.i16_at(i), -0x8000, 0x7fff),
{
    let x = a.s16();
    let y = b.s16();
    let mut o = [0i16; 8];
    for i in 0..8
        invariant
            forall|j: int| 0 <= j < i ==> o[j] == clamp(x[j] - y[j], -0x8000, 0x7fff),
    {
        o[i] = sat_i16(x[i] as i32 - y[i] as i32);
    }
    __m128i::from_s16(o)
}

/// Subtract sixteen `i8` lanes with signed saturation. Matches `_mm_subs_epi8`.
pub fn _mm_subs_epi8(a: __m128i, b: __m128i) -> (r: __m128i)
    ensures
        forall|i: int| 0 <= i < 16 ==> #[trigger] r.i8_at(i) == clamp(a.i8_at(i) - b.i8_at(i), -0x80, 0x7f),
{
    let x = a.s8();
    let y = b.s8();
    let mut o = [0i8; 16];
    for i in 0..16
        invariant
            forall|j: int| 0 <= j < i ==> o[j] == clamp(x[j] - y[j], -0x80, 0x7f),
    {
        o[i] = sat_i8(x[i] as i32 - y[i] as i32);
    }
    __m128i::from_s8(o)
}

/// Subtract sixteen `u8` lanes with unsigned saturation. Matches `_mm_subs_epu8`.
pub fn _mm_subs_epu8(a: __m128i, b: __m128i) -> (r: __m128i)
    ensures
        forall|i: int| 0 <= i < 16 ==> #[trigger] r.u8_at(i) == clamp(a.u8_at(i) - b.u8_at(i), 0, 0xff),
{
    let x = a.u8();
    let y = b.u8();
    let mut o = [0u8; 16];
    for i in 0..16
        invariant
            forall|j: int| 0 <= j < i ==> o[j] == clamp(x[j] - y[j], 0, 0xff),
    {
        o[i] = sat_u8(x[i] as i32 - y[i] as i32);
    }
    __m128i::from_u8(o)
}

/// Subtract eight `u16` lanes with unsigned saturation. Matches `_mm_subs_epu16`.
pub fn _mm_subs_epu16(a: __m128i, b: __m128i) -> (r: __m128i)
    ensures
        forall|i: int| 0 <= i < 8 ==> #[trigger] r.u16_at(i) == clamp(a.u16_at(i) - b.u16_at(i), 0, 0xffff),
{
    let x = a.u16();
    let y = b.u16();
    let mut o = [0u16; 8];
    for i in 0..8
        invariant
            forall|j: int| 0 <= j < i ==> o[j] == clamp(x[j] - y[j], 0, 0xffff),
    {
        o[i] = sat_u16(x[i] as i32 - y[i] as i32);
    }
    __m128i::from_u16(o)
}

/// Multiply eight `i16` lanes, keep the low 16 bits. Matches `_mm_mullo_epi16`.
pub fn _mm_mullo_epi16(a: __m128i, b: __m128i) -> (r: __m128i)
    ensures
        forall|i: int| 0 <= i < 8 ==> #[trigger] r.u16_at(i) == (a.u16_at(i) * b.u16_at(i)) % 0x1_0000,
{
    let x = a.u16();
    let y = b.u16();
    let mut o = [0u16; 8];
    for i in 0..8
        invariant
            forall|j: int| 0 <= j < i ==> o[j] == (x[j] * y[j]) % 0x1_0000,
    {
        proof {
            lemma_mul_bound(x[i as int] as int, y[i as int] as int, 0xffff);
        }
        o[i] = ((x[i] as u32 * y[i] as u32) % 0x1_0000) as u16;
    }
    __m128i::from_u16(o)
}

fn mulhi_i16(x: i16, y: i16) -> (r: i16)
    ensures
        r == (x * y) / 0x1_0000,
{
    proof {
        lemma_mul_bound(x as int, y as int, 0x8000);
    }
    let p: i64 = (x as i64) * (y as i64);
    let q: i64 = (p + 0x8000_0000) / 0x1_0000;
    (q - 0x8000) as i16
}

/// Multiply eight `i16` lanes, keep the high 16 bits. Matches `_mm_mulhi_epi16`.
///
/// Each lane is the signed product shifted right by 16, rounding toward
/// negative infinity.
pub fn _mm_mulhi_epi16(a: __m128i, b: __m128i) -> (r: __m128i)
    ensures
        forall|i: int| 0 <= i < 8 ==> #[trigger] r.i16_at(i) == (a.i16_at(i) * b.i16_at(i)) / 0x1_0000,
{
    let x = a.s16();
    let y = b.s16();
    let mut o = [0i16; 8];
    for i in 0..8
        invariant
            forall|j: int| 0 <= j < i ==> o[j] == (x[j] * y[j]) / 0x1_0000,
    {
        o[i] = mulhi_i16(x[i], y[i]);
    }
    __m128i::from_s16(o)
}

/// Multiply eight `u16` lanes, keep the high 16 bits. Matches `_mm_mulhi_epu16`.
pub fn _mm_mulhi_epu16(a: __m128i, b: __m128i) -> (r: __m128i)
    ensures
        forall|i: int| 0 <= i < 8 ==> #[trigger] r.u16_at(i) == (a.u16_at(i) * b.u16_at(i)) / 0x1_0000,
{
    let x = a.u16();
    let y = b.u16();
    let mut o = [0u16; 8];
    for i in 0..8
        invariant
            forall|j: int| 0 <= j < i ==> o[j] == (x[j] * y[j]) / 0x1_0000,
    {
        proof {
            lemma_mul_bound(x[i as int] as int, y[i as int] as int, 0xffff);
        }
        o[i] = ((x[i] as u32 * y[i] as u32) / 0x1_0000) as u16;
    }
    __m128i::from_u16(o)
}

fn madd_pair(a0: i16, b0: i16, a1: i16, b1: i16) -> (r: u32)
    ensures
        r == (a0 * b0 + a1 * b1) % 0x1_0000_0000,
{
    proof {
        lemma_mul_bound(a0 as int, b0 as int, 0x8000);
        lemma_mul_bound(a1 as int, b1 as int, 0x8000);
    }
    let s: i64 = (a0 as i64) * (b0 as i64) + (a1 as i64) * (b1 as i64);
    ((s + 0x1_0000_0000) % 0x1_0000_0000) as u32
}

/// Multiply pairs of `i16`, add adjacent products to `i32` with wraparound.
/// Matches `_mm_madd_epi16`.
pub fn _mm_madd_epi16(a: __m128i, b: __m128i) -> (r: __m128i)
    ensures
        forall|i: int|
            0 <= i < 4 ==> #[trigger] r.u32_at(i) == (a.i16_at(2 * i) * b.i16_at(2 * i) + a.i16_at(2 * i + 1)
                * b.i16_at(2 * i + 1)) % 0x1_0000_0000,
{
    let x = a.s16();
    let y = b.s16();
    let mut o = [0u32; 4];
    for i in 0..4
        invariant
            forall|j: int|
                0 <= j < i ==> o[j] == (x[2 * j] * y[2 * j] + x[2 * j + 1] * y[2 * j + 1]) % 0x1_0000_0000,
    {
        o[i] = madd_pair(x[2 * i], y[2 * i], x[2 * i + 1], y[2 * i + 1]);
    }
    __m128i::from_u32(o)
}

/// Multiply the low `u32` of each 64-bit lane, producing `u64`. Matches `_mm_mul_epu32`.
pub fn _mm_mul_epu32(a: __m128i, b: __m128i) -> (r: __m128i)
    ensures
        forall|i: int| 0 <= i < 2 ==> #[trigger] r.u64_at(i) == a.u32_at(2 * i) * b.u32_at(2 * i),
{
    let x = a.u32();
    let y = b.u32();
    proof {
        lemma_mul_bound(x[0] as int, y[0] as int, 0xffff_ffff);
        lemma_mul_bound(x[2] as int, y[2] as int, 0xffff_ffff);
    }
    __m128i::from_u64([(x[0] as u64) * (y[0] as u64), (x[2] as u64) * (y[2] as u64)])
}

// --- Bitwise ---

/// Bitwise AND of two integer vectors. Matches `_mm_and_si128`.
pub fn _mm_and_si128(a: __m128i, b: __m128i) -> (r: __m128i)
    ensures
        forall|i: int| 0 <= i < 16 ==> #[trigger] r@[i] == a@[i] & b@[i],
{
    let mut o = [0u8; 16];
    for i in 0..16
        invariant
            forall|j: int| 0 <= j < i ==> o[j] == a@[j] & b@[j],
    {
        o[i] = a.bytes[i] & b.bytes[i];
    }
    __m128i { bytes: o }
}

/// Bitwise OR of two integer vectors. Matches `_mm_or_si128`.
pub fn _mm_or_si128(a: __m128i, b: __m128i) -> (r: __m128i)
    ensures
        forall|i: int| 0 <= i < 16 ==> #[trigger] r@[i] == a@[i] | b@[i],
{
    let mut o = [0u8; 16];
    for i in 0..16
        invariant
            forall|j: int| 0 <= j < i ==> o[j] == a@[j] | b@[j],
    {
        o[i] = a.bytes[i] | b.bytes[i];
    }
    __m128i { bytes: o }
}

/// Bitwise XOR of two integer vectors. Matches `_mm_xor_si128`.
pub fn _mm_xor_si128(a: __m128i, b: __m128i) -> (r: __m128i)
    ensures
        forall|i: int| 0 <= i < 16 ==> #[trigger] r@[i] == a@[i] ^ b@[i],
{
    let mut o = [0u8; 16];
    for i in 0..16
        invariant
            forall|j: int| 0 <= j < i ==> o[j] == a@[j] ^ b@[j],
    {
        o[i] = a.bytes[i] ^ b.bytes[i];
    }
    __m128i { bytes: o }
}

/// Bitwise `(!a) & b`. The NOT applies to `a`. Matches `_mm_andnot_si128`.
pub fn _mm_andnot_si128(a: __m128i, b: __m128i) -> (r: __m128i)
    ensures
        forall|i: int| 0 <= i < 16 ==> #[trigger] r@[i] == !a@[i] & b@[i],
{
    let mut o = [0u8; 16];
    for i in 0..16
        invariant
            forall|j: int| 0 <= j < i ==> o[j] == !a@[j] & b@[j],
    {
        o[i] = !a.bytes[i] & b.bytes[i];
    }
    __m128i { bytes: o }
}

// --- Averages ---

/// Rounded average of sixteen `u8` lanes. Matches `_mm_avg_epu8`.
pub fn _mm_avg_epu8(a: __m128i, b: __m128i) -> (r: __m128i)
    ensures
        forall|i: int| 0 <= i < 16 ==> #[trigger] r.u8_at(i) == (a.u8_at(i) + b.u8_at(i) + 1) / 2,
{
    let x = a.u8();
    let y = b.u8();
    let mut o = [0u8; 16];
    for i in 0..16
        invariant
            forall|j: int| 0 <= j < i ==> o[j] == (x[j] + y[j] + 1) / 2,
    {
        o[i] = ((x[i] as u16 + y[i] as u16 + 1) / 2) as u8;
    }
    __m128i::from_u8(o)
}

/// Rounded average of eight `u16` lanes. Matches `_mm_avg_epu16`.
pub fn _mm_avg_epu16(a: __m128i, b: __m128i) -> (r: __m128i)
    ensures
        forall|i: int| 0 <= i < 8 ==> #[trigger] r.u16_at(i) == (a.u16_at(i) + b.u16_at(i) + 1) / 2,
{
    let x = a.u16();
    let y = b.u16();
    let mut o = [0u16; 8];
    for i in 0..8
        invariant
            forall|j: int| 0 <= j < i ==> o[j] == (x[j] + y[j] + 1) / 2,
    {
        o[i] = ((x[i] as u32 + y[i] as u32 + 1) / 2) as u16;
    }
    __m128i::from_u16(o)
}

// --- Min / max ---

/// Packed minimum of eight `i16` lanes. Matches `_mm_min_epi16`.
pub fn _mm_min_epi16(a: __m128i, b: __m128i) -> (r: __m128i)
    ensures
        forall|i: int| 0 <= i < 8 ==> #[trigger] r.i16_at(i) == if a.i16_at(i) < b.i16_at(i) { a.i16_at(i) } else { b.i16_at(i) },
{
    let x = a.s16();
    let y = b.s16();
    let mut o = [0i16; 8];
    for i in 0..8
        invariant
            forall|j: int| 0 <= j < i ==> o[j] == if x[j] < y[j] { x[j] } else { y[j] },
    {
        o[i] = if x[i] < y[i] { x[i] } else { y[i] };
    }
    __m128i::from_s16(o)
}

/// Packed maximum of eight `i16` lanes. Matches `_mm_max_epi16`.
pub fn _mm_max_epi16(a: __m128i, b: __m128i) -> (r: __m128i)
    ensures
        forall|i: int| 0 <= i < 8 ==> #[trigger] r.i16_at(i) == if a.i16_at(i) > b.i16_at(i) { a.i16_at(i) } else { b.i16_at(i) },
{
    let x = a.s16();
    let y = b.s16();
    let mut o = [0i16; 8];
    for i in 0..8
        invariant
            forall|j: int| 0 <= j < i ==> o[j] == if x[j] > y[j] { x[j] } else { y[j] },
    {
        o[i] = if x[i] > y[i] { x[i] } else { y[i] };
    }
    __m128i::from_s16(o)
}

/// Packed minimum of sixteen `u8` lanes. Matches `_mm_min_epu8`.
pub fn _mm_min_epu8(a: __m128i, b: __m128i) -> (r: __m128i)
    ensures
        forall|i: int| 0 <= i < 16 ==> #[trigger] r.u8_at(i) == if a.u8_at(i) < b.u8_at(i) { a.u8_at(i) } else { b.u8_at(i) },
{
    let x = a.u8();
    let y = b.u8();
    let mut o = [0u8; 16];
    for i in 0..16
        invariant
            forall|j: int| 0 <= j < i ==> o[j] == if x[j] < y[j] { x[j] } else { y[j] },
    {
        o[i] = if x[i] < y[i] { x[i] } else { y[i] };
    }
    __m128i::from_u8(o)
}

/// Packed maximum of sixteen `u8` lanes. Matches `_mm_max_epu8`.
pub fn _mm_max_epu8(a: __m128i, b: __m128i) -> (r: __m128i)
    ensures
        forall|i: int| 0 <= i < 16 ==> #[trigger] r.u8_at(i) == if a.u8_at(i) > b.u8_at(i) { a.u8_at(i) } else { b.u8_at(i) },
{
    let x = a.u8();
    let y = b.u8();
    let mut o = [0u8; 16];
    for i in 0..16
        invariant
            forall|j: int| 0 <= j < i ==> o[j] == if x[j] > y[j] { x[j] } else { y[j] },
    {
        o[i] = if x[i] > y[i] { x[i] } else { y[i] };
    }
    __m128i::from_u8(o)
}

// --- Compares ---

/// Lanes of sixteen `i8` where are equal become all ones, else zero. Matches `_mm_cmpeq_epi8`.
pub fn _mm_cmpeq_epi8(a: __m128i, b: __m128i) -> (r: __m128i)
    ensures
        forall|i: int| 0 <= i < 16 ==> #[trigger] r.u8_at(i) == if a.i8_at(i) == b.i8_at(i) { 0xffint } else { 0int },
{
    let x = a.s8();
    let y = b.s8();
    let mut o = [0u8; 16];
    for i in 0..16
        invariant
            forall|j: int| 0 <= j < i ==> o[j] == if x[j] == y[j] { 0xffint } else { 0int },
    {
        o[i] = if x[i] == y[i] { 0xff } else { 0 };
    }
    __m128i::from_u8(o)
}

/// Lanes of sixteen `i8` where signed `a > b` become all ones, else zero. Matches `_mm_cmpgt_epi8`.
pub fn _mm_cmpgt_epi8(a: __m128i, b: __m128i) -> (r: __m128i)
    ensures
        forall|i: int| 0 <= i < 16 ==> #[trigger] r.u8_at(i) == if a.i8_at(i) > b.i8_at(i) { 0xffint } else { 0int },
{
    let x = a.s8();
    let y = b.s8();
    let mut o = [0u8; 16];
    for i in 0..16
        invariant
            forall|j: int| 0 <= j < i ==> o[j] == if x[j] > y[j] { 0xffint } else { 0int },
    {
        o[i] = if x[i] > y[i] { 0xff } else { 0 };
    }
    __m128i::from_u8(o)
}

/// Lanes of sixteen `i8` where signed `a < b` become all ones, else zero. Matches `_mm_cmplt_epi8`.
pub fn _mm_cmplt_epi8(a: __m128i, b: __m128i) -> (r: __m128i)
    ensures
        forall|i: int| 0 <= i < 16 ==> #[trigger] r.u8_at(i) == if a.i8_at(i) < b.i8_at(i) { 0xffint } else { 0int },
{
    let x = a.s8();
    let y = b.s8();
    let mut o = [0u8; 16];
    for i in 0..16
        invariant
            forall|j: int| 0 <= j < i ==> o[j] == if x[j] < y[j] { 0xffint } else { 0int },
    {
        o[i] = if x[i] < y[i] { 0xff } else { 0 };
    }
    __m128i::from_u8(o)
}

/// Lanes of eight `i16` where are equal become all ones, else zero. Matches `_mm_cmpeq_epi16`.
pub fn _mm_cmpeq_epi16(a: __m128i, b: __m128i) -> (r: __m128i)
    ensures
        forall|i: int| 0 <= i < 8 ==> #[trigger] r.u16_at(i) == if a.i16_at(i) == b.i16_at(i) { 0xffffint } else { 0int },
{
    let x = a.s16();
    let y = b.s16();
    let mut o = [0u16; 8];
    for i in 0..8
        invariant
            forall|j: int| 0 <= j < i ==> o[j] == if x[j] == y[j] { 0xffffint } else { 0int },
    {
        o[i] = if x[i] == y[i] { 0xffff } else { 0 };
    }
    __m128i::from_u16(o)
}

/// Lanes of eight `i16` where signed `a > b` become all ones, else zero. Matches `_mm_cmpgt_epi16`.
pub fn _mm_cmpgt_epi16(a: __m128i, b: __m128i) -> (r: __m128i)
    ensures
        forall|i: int| 0 <= i < 8 ==> #[trigger] r.u16_at(i) == if a.i16_at(i) > b.i16_at(i) { 0xffffint } else { 0int },
{
    let x = a.s16();
    let y = b.s16();
    let mut o = [0u16; 8];
    for i in 0..8
        invariant
            forall|j: int| 0 <= j < i ==> o[j] == if x[j] > y[j] { 0xffffint } else { 0int },
    {
        o[i] = if x[i] > y[i] { 0xffff } else { 0 };
    }
    __m128i::from_u16(o)
}

/// Lanes of eight `i16` where signed `a < b` become all ones, else zero. Matches `_mm_cmplt_epi16`.
pub fn _mm_cmplt_epi16(a: __m128i, b: __m128i) -> (r: __m128i)
    ensures
        forall|i: int| 0 <= i < 8 ==> #[trigger] r.u16_at(i) == if a.i16_at(i) < b.i16_at(i) { 0xffffint } else { 0int },
{
    let x = a.s16();
    let y = b.s16();
    let mut o = [0u16; 8];
    for i in 0..8
        invariant
            forall|j: int| 0 <= j < i ==> o[j] == if x[j] < y[j] { 0xffffint } else { 0int },
    {
        o[i] = if x[i] < y[i] { 0xffff } else { 0 };
    }
    __m128i::from_u16(o)
}

/// Lanes of four `i32` where are equal become all ones, else zero. Matches `_mm_cmpeq_epi32`.
pub fn _mm_cmpeq_epi32(a: __m128i, b: __m128i) -> (r: __m128i)
    ensures
        forall|i: int| 0 <= i < 4 ==> #[trigger] r.u32_at(i) == if a.i32_at(i) == b.i32_at(i) { 0xffff_ffffint } else { 0int },
{
    let x = a.s32();
    let y = b.s32();
    let mut o = [0u32; 4];
    for i in 0..4
        invariant
            forall|j: int| 0 <= j < i ==> o[j] == if x[j] == y[j] { 0xffff_ffffint } else { 0int },
    {
        o[i] = if x[i] == y[i] { 0xffff_ffff } else { 0 };
    }
    __m128i::from_u32(o)
}

/// Lanes of four `i32` where signed `a > b` become all ones, else zero. Matches `_mm_cmpgt_epi32`.
pub fn _mm_cmpgt_epi32(a: __m128i, b: __m128i) -> (r: __m128i)
    ensures
        forall|i: int| 0 <= i < 4 ==> #[trigger] r.u32_at(i) == if a.i32_at(i) > b.i32_at(i) { 0xffff_ffffint } else { 0int },
{
    let x = a.s32();
    let y = b.s32();
    let mut o = [0u32; 4];
    for i in 0..4
        invariant
            forall|j: int| 0 <= j < i ==> o[j] == if x[j] > y[j] { 0xffff_ffffint } else { 0int },
    {
        o[i] = if x[i] > y[i] { 0xffff_ffff } else { 0 };
    }
    __m128i::from_u32(o)
}

/// Lanes of four `i32` where signed `a < b` become all ones, else zero. Matches `_mm_cmplt_epi32`.
pub fn _mm_cmplt_epi32(a: __m128i, b: __m128i) -> (r: __m128i)
    ensures
        forall|i: int| 0 <= i < 4 ==> #[trigger] r.u32_at(i) == if a.i32_at(i) < b.i32_at(i) { 0xffff_ffffint } else { 0int },
{
    let x = a.s32();
    let y = b.s32();
    let mut o = [0u32; 4];
    for i in 0..4
        invariant
            forall|j: int| 0 <= j < i ==> o[j] == if x[j] < y[j] { 0xffff_ffffint } else { 0int },
    {
        o[i] = if x[i] < y[i] { 0xffff_ffff } else { 0 };
    }
    __m128i::from_u32(o)
}

// --- Shifts by immediate ---

/// `x * 2^n` modulo `2^64`: the left shift of a 64-bit value.
pub(crate) fn shl64(x: u64, n: u64) -> (r: u64)
    requires
        n < 64,
    ensures
        r == (x * pow2i(n as int)) % 0x1_0000_0000_0000_0000,
{
    proof {
        lemma_u64_shl_mod(x, n);
    }
    x << n
}

/// `x / 2^n`, rounded down: the logical right shift of a 64-bit value.
pub(crate) fn shr64(x: u64, n: u64) -> (r: u64)
    requires
        n < 64,
    ensures
        r == x as int / pow2i(n as int),
{
    proof {
        lemma_u64_shr_is_div(x, n);
    }
    x >> n
}

/// `x / 2^n`, rounded toward negative infinity: the arithmetic right shift.
pub(crate) fn sar32(x: i32, n: u32) -> (r: i32)
    requires
        n < 32,
    ensures
        r == x as int / pow2i(n as int),
{
    let u: u64 = (x as i64 + 0x8000_0000) as u64;
    let q: u64 = shr64(u, n as u64);
    let c: u64 = shr64(0x8000_0000, n as u64);
    proof {
        lemma2_to64();
        lemma_pow2_pos(n as nat);
        lemma_pow2_adds((31 - n) as nat, n as nat);
        let p = pow2i(n as int) as int;
        let cc = pow2((31 - n) as nat) as int;
        assert(0x8000_0000 == cc * p);
        vstd::arithmetic::div_mod::lemma_div_multiples_vanish(cc, p);
        vstd::arithmetic::mul::lemma_mul_is_commutative(cc, p);
        assert(c == cc);
        vstd::arithmetic::div_mod::lemma_hoist_over_denominator(x as int, cc, p as nat);
        vstd::arithmetic::mul::lemma_mul_is_commutative(cc, p);
        assert(q == (x as int) / p + cc);
        lemma_floor_div_range(x as int, p, 0x8000_0000);
    }
    (q as i64 - c as i64) as i32
}

/// Shift eight `i16` lanes left by `imm`. A count of 16 or more gives zero.
/// Matches `_mm_slli_epi16`.
pub fn _mm_slli_epi16(a: __m128i, imm: i32) -> (r: __m128i)
    requires
        0 <= imm < 256,
    ensures
        forall|i: int|
            0 <= i < 8 ==> #[trigger] r.u16_at(i) == if imm < 16 {
                (a.u16_at(i) * pow2i(imm as int)) % 0x1_0000
            } else {
                0
            },
{
    if imm >= 16 {
        return _mm_setzero_si128();
    }
    let x = a.u16();
    let mut o = [0u16; 8];
    for i in 0..8
        invariant
            0 <= imm < 16,
            forall|j: int| 0 <= j < i ==> o[j] == (x[j] * pow2i(imm as int)) % 0x1_0000,
    {
        let v = shl64(x[i] as u64, imm as u64);
        proof {
            vstd::arithmetic::div_mod::lemma_mod_mod(
                x[i as int] * pow2i(imm as int),
                0x1_0000,
                0x1_0000_0000_0000,
            );
        }
        o[i] = (v % 0x1_0000) as u16;
    }
    __m128i::from_u16(o)
}

/// Shift four `i32` lanes left by `imm`. A count of 32 or more gives zero.
/// Matches `_mm_slli_epi32`.
pub fn _mm_slli_epi32(a: __m128i, imm: i32) -> (r: __m128i)
    requires
        0 <= imm < 256,
    ensures
        forall|i: int|
            0 <= i < 4 ==> #[trigger] r.u32_at(i) == if imm < 32 {
                (a.u32_at(i) * pow2i(imm as int)) % 0x1_0000_0000
            } else {
                0
            },
{
    if imm >= 32 {
        return _mm_setzero_si128();
    }
    let x = a.u32();
    let mut o = [0u32; 4];
    for i in 0..4
        invariant
            0 <= imm < 32,
            forall|j: int| 0 <= j < i ==> o[j] == (x[j] * pow2i(imm as int)) % 0x1_0000_0000,
    {
        let v = shl64(x[i] as u64, imm as u64);
        proof {
            vstd::arithmetic::div_mod::lemma_mod_mod(
                x[i as int] * pow2i(imm as int),
                0x1_0000_0000,
                0x1_0000_0000,
            );
        }
        o[i] = (v % 0x1_0000_0000) as u32;
    }
    __m128i::from_u32(o)
}

/// Shift two `i64` lanes left by `imm`. A count of 64 or more gives zero.
/// Matches `_mm_slli_epi64`.
pub fn _mm_slli_epi64(a: __m128i, imm: i32) -> (r: __m128i)
    requires
        0 <= imm < 256,
    ensures
        forall|i: int|
            0 <= i < 2 ==> #[trigger] r.u64_at(i) == if imm < 64 {
                (a.u64_at(i) * pow2i(imm as int)) % 0x1_0000_0000_0000_0000
            } else {
                0
            },
{
    if imm >= 64 {
        return _mm_setzero_si128();
    }
    let x = a.u64();
    __m128i::from_u64([shl64(x[0], imm as u64), shl64(x[1], imm as u64)])
}

/// Logical shift eight `u16` lanes right by `imm`. A count of 16 or more gives
/// zero. Matches `_mm_srli_epi16`.
pub fn _mm_srli_epi16(a: __m128i, imm: i32) -> (r: __m128i)
    requires
        0 <= imm < 256,
    ensures
        forall|i: int|
            0 <= i < 8 ==> #[trigger] r.u16_at(i) == if imm < 16 {
                a.u16_at(i) / pow2i(imm as int)
            } else {
                0
            },
{
    if imm >= 16 {
        return _mm_setzero_si128();
    }
    let x = a.u16();
    let mut o = [0u16; 8];
    for i in 0..8
        invariant
            0 <= imm < 16,
            forall|j: int| 0 <= j < i ==> o[j] == x[j] as int / pow2i(imm as int),
    {
        proof {
            lemma_pow2_pos(imm as nat);
            vstd::arithmetic::div_mod::lemma_div_is_ordered_by_denominator(x[i as int] as int, 1, pow2i(imm as int) as int);
        }
        o[i] = shr64(x[i] as u64, imm as u64) as u16;
    }
    __m128i::from_u16(o)
}

/// Logical shift four `u32` lanes right by `imm`. A count of 32 or more gives
/// zero. Matches `_mm_srli_epi32`.
pub fn _mm_srli_epi32(a: __m128i, imm: i32) -> (r: __m128i)
    requires
        0 <= imm < 256,
    ensures
        forall|i: int|
            0 <= i < 4 ==> #[trigger] r.u32_at(i) == if imm < 32 {
                a.u32_at(i) / pow2i(imm as int)
            } else {
                0
            },
{
    if imm >= 32 {
        return _mm_setzero_si128();
    }
    let x = a.u32();
    let mut o = [0u32; 4];
    for i in 0..4
        invariant
            0 <= imm < 32,
            forall|j: int| 0 <= j < i ==> o[j] == x[j] as int / pow2i(imm as int),
    {
        proof {
            lemma_pow2_pos(imm as nat);
            vstd::arithmetic::div_mod::lemma_div_is_ordered_by_denominator(x[i as int] as int, 1, pow2i(imm as int) as int);
        }
        o[i] = shr64(x[i] as u64, imm as u64) as u32;
    }
    __m128i::from_u32(o)
}

/// Logical shift two `u64` lanes right by `imm`. A count of 64 or more gives
/// zero. Matches `_mm_srli_epi64`.
pub fn _mm_srli_epi64(a: __m128i, imm: i32) -> (r: __m128i)
    requires
        0 <= imm < 256,
    ensures
        forall|i: int|
            0 <= i < 2 ==> #[trigger] r.u64_at(i) == if imm < 64 {
                a.u64_at(i) / pow2i(imm as int)
            } else {
                0
            },
{
    if imm >= 64 {
        return _mm_setzero_si128();
    }
    let x = a.u64();
    __m128i::from_u64([shr64(x[0], imm as u64), shr64(x[1], imm as u64)])
}

/// Arithmetic shift eight `i16` lanes right by `imm`. Counts above 15 act as 15,
/// filling each lane with its sign. Matches `_mm_srai_epi16`.
pub fn _mm_srai_epi16(a: __m128i, imm: i32) -> (r: __m128i)
    requires
        0 <= imm < 256,
    ensures
        forall|i: int|
            0 <= i < 8 ==> #[trigger] r.i16_at(i) == a.i16_at(i) / pow2i(if imm < 15 { imm as int } else { 15 }),
{
    let sh: u32 = if imm < 15 { imm as u32 } else { 15 };
    let x = a.s16();
    let mut o = [0i16; 8];
    for i in 0..8
        invariant
            sh < 16,
            forall|j: int| 0 <= j < i ==> o[j] == x[j] as int / pow2i(sh as int),
    {
        proof {
            lemma_pow2_pos(sh as nat);
            lemma_floor_div_range(x[i as int] as int, pow2i(sh as int) as int, 0x8000);
        }
        o[i] = sar32(x[i] as i32, sh) as i16;
    }
    __m128i::from_s16(o)
}

/// Arithmetic shift four `i32` lanes right by `imm`. Counts above 31 act as 31,
/// filling each lane with its sign. Matches `_mm_srai_epi32`.
pub fn _mm_srai_epi32(a: __m128i, imm: i32) -> (r: __m128i)
    requires
        0 <= imm < 256,
    ensures
        forall|i: int|
            0 <= i < 4 ==> #[trigger] r.i32_at(i) == a.i32_at(i) / pow2i(if imm < 31 { imm as int } else { 31 }),
{
    let sh: u32 = if imm < 31 { imm as u32 } else { 31 };
    let x = a.s32();
    let mut o = [0i32; 4];
    for i in 0..4
        invariant
            sh < 32,
            forall|j: int| 0 <= j < i ==> o[j] == x[j] as int / pow2i(sh as int),
    {
        o[i] = sar32(x[i], sh);
    }
    __m128i::from_s32(o)
}

/// Floor division by a positive divisor keeps a value inside `-m..m`.
proof fn lemma_floor_div_range(x: int, p: int, m: int)
    requires
        0 < p,
        0 < m,
        -m <= x < m,
    ensures
        -m <= x / p < m,
{
    vstd::arithmetic::div_mod::lemma_fundamental_div_mod(x, p);
    lemma_quotient_range(x, p, m, x / p, x % p);
}

proof fn lemma_quotient_range(x: int, p: int, m: int, q: int, r: int)
    by (nonlinear_arith)
    requires
        0 < p,
        0 < m,
        -m <= x < m,
        x == p * q + r,
        0 <= r < p,
    ensures
        -m <= q < m,
{
}

} // verus!

verus! {

// --- Set / load / store ---

/// Return a zeroed integer vector. Matches `_mm_setzero_si128`.
pub fn _mm_setzero_si128() -> (r: __m128i)
    ensures
        forall|i: int| 0 <= i < 16 ==> #[trigger] r@[i] == 0,
{
    __m128i { bytes: [0u8; 16] }
}

/// Shift the whole vector left by `imm` bytes, filling with zeros.
/// Matches `_mm_slli_si128`.
pub fn _mm_slli_si128(a: __m128i, imm: i32) -> (r: __m128i)
    requires
        0 <= imm < 256,
    ensures
        forall|i: int|
            0 <= i < 16 ==> #[trigger] r@[i] == if imm <= i { a@[i - imm] } else { 0u8 },
{
    if imm == 0 {
        return a;
    }
    if imm >= 16 {
        return _mm_setzero_si128();
    }
    let k = imm as usize;
    let mut o = [0u8; 16];
    for i in 0..16
        invariant
            0 < k < 16,
            k == imm,
            forall|j: int| 0 <= j < i ==> o[j] == if k <= j { a@[j - k] } else { 0u8 },
    {
        o[i] = if k <= i { a.bytes[i - k] } else { 0 };
    }
    __m128i { bytes: o }
}

/// Shift the whole vector right by `imm` bytes, filling with zeros.
/// Matches `_mm_srli_si128`.
pub fn _mm_srli_si128(a: __m128i, imm: i32) -> (r: __m128i)
    requires
        0 <= imm < 256,
    ensures
        forall|i: int|
            0 <= i < 16 ==> #[trigger] r@[i] == if i + imm < 16 { a@[i + imm] } else { 0u8 },
{
    if imm == 0 {
        return a;
    }
    if imm >= 16 {
        return _mm_setzero_si128();
    }
    let k = imm as usize;
    let mut o = [0u8; 16];
    for i in 0..16
        invariant
            0 < k < 16,
            k == imm,
            forall|j: int| 0 <= j < i ==> o[j] == if j + k < 16 { a@[j + k] } else { 0u8 },
    {
        o[i] = if i + k < 16 { a.bytes[i + k] } else { 0 };
    }
    __m128i { bytes: o }
}

/// Alias of [`_mm_slli_si128`]. Matches `_mm_bslli_si128`.
pub fn _mm_bslli_si128(a: __m128i, imm: i32) -> (r: __m128i)
    requires
        0 <= imm < 256,
    ensures
        forall|i: int|
            0 <= i < 16 ==> #[trigger] r@[i] == if imm <= i { a@[i - imm] } else { 0u8 },
{
    _mm_slli_si128(a, imm)
}

/// Alias of [`_mm_srli_si128`]. Matches `_mm_bsrli_si128`.
pub fn _mm_bsrli_si128(a: __m128i, imm: i32) -> (r: __m128i)
    requires
        0 <= imm < 256,
    ensures
        forall|i: int|
            0 <= i < 16 ==> #[trigger] r@[i] == if i + imm < 16 { a@[i + imm] } else { 0u8 },
{
    _mm_srli_si128(a, imm)
}

// --- Pack / unpack ---

/// Pack eight `i16` from each input to sixteen `i8` with signed saturation,
/// `a` into the low half. Matches `_mm_packs_epi16`.
pub fn _mm_packs_epi16(a: __m128i, b: __m128i) -> (r: __m128i)
    ensures
        forall|i: int|
            0 <= i < 16 ==> #[trigger] r.i8_at(i) == clamp(
                if i < 8 { a.i16_at(i) } else { b.i16_at(i - 8) },
                -0x80,
                0x7f,
            ),
{
    let x = a.s16();
    let y = b.s16();
    let mut o = [0i8; 16];
    for i in 0..16
        invariant
            forall|j: int|
                0 <= j < i ==> o[j] == clamp(if j < 8 { x[j] as int } else { y[j - 8] as int }, -0x80, 0x7f),
    {
        let v = if i < 8 { x[i] } else { y[i - 8] };
        o[i] = sat_i8(v as i32);
    }
    __m128i::from_s8(o)
}

/// Pack four `i32` from each input to eight `i16` with signed saturation,
/// `a` into the low half. Matches `_mm_packs_epi32`.
pub fn _mm_packs_epi32(a: __m128i, b: __m128i) -> (r: __m128i)
    ensures
        forall|i: int|
            0 <= i < 8 ==> #[trigger] r.i16_at(i) == clamp(
                if i < 4 { a.i32_at(i) } else { b.i32_at(i - 4) },
                -0x8000,
                0x7fff,
            ),
{
    let x = a.s32();
    let y = b.s32();
    let mut o = [0i16; 8];
    for i in 0..8
        invariant
            forall|j: int|
                0 <= j < i ==> o[j] == clamp(if j < 4 { x[j] as int } else { y[j - 4] as int }, -0x8000, 0x7fff),
    {
        let v = if i < 4 { x[i] } else { y[i - 4] };
        o[i] = if v < -0x8000 { -0x8000 } else if v > 0x7fff { 0x7fff } else { v as i16 };
    }
    __m128i::from_s16(o)
}

/// Pack eight `i16` from each input to sixteen `u8` with unsigned saturation,
/// `a` into the low half. Matches `_mm_packus_epi16`.
pub fn _mm_packus_epi16(a: __m128i, b: __m128i) -> (r: __m128i)
    ensures
        forall|i: int|
            0 <= i < 16 ==> #[trigger] r.u8_at(i) == clamp(
                if i < 8 { a.i16_at(i) } else { b.i16_at(i - 8) },
                0,
                0xff,
            ),
{
    let x = a.s16();
    let y = b.s16();
    let mut o = [0u8; 16];
    for i in 0..16
        invariant
            forall|j: int|
                0 <= j < i ==> o[j] == clamp(if j < 8 { x[j] as int } else { y[j - 8] as int }, 0, 0xff),
    {
        let v = if i < 8 { x[i] } else { y[i - 8] };
        o[i] = sat_u8(v as i32);
    }
    __m128i::from_u8(o)
}

/// Interleave the low eight `i8` lanes of `a` and `b`, `a` first.
/// Matches `_mm_unpacklo_epi8`.
pub fn _mm_unpacklo_epi8(a: __m128i, b: __m128i) -> (r: __m128i)
    ensures
        forall|i: int|
            0 <= i < 16 ==> #[trigger] r.u8_at(i) == if i % 2 == 0 {
                a.u8_at(i / 2)
            } else {
                b.u8_at(i / 2)
            },
{
    let x = a.u8();
    let y = b.u8();
    let mut o = [0u8; 16];
    for i in 0..16
        invariant
            forall|j: int| 0 <= j < i ==> o[j] == if j % 2 == 0 { x[j / 2] } else { y[j / 2] },
    {
        o[i] = if i % 2 == 0 { x[i / 2] } else { y[i / 2] };
    }
    __m128i::from_u8(o)
}

/// Interleave the high eight `i8` lanes of `a` and `b`, `a` first.
/// Matches `_mm_unpackhi_epi8`.
pub fn _mm_unpackhi_epi8(a: __m128i, b: __m128i) -> (r: __m128i)
    ensures
        forall|i: int|
            0 <= i < 16 ==> #[trigger] r.u8_at(i) == if i % 2 == 0 {
                a.u8_at(i / 2 + 8)
            } else {
                b.u8_at(i / 2 + 8)
            },
{
    let x = a.u8();
    let y = b.u8();
    let mut o = [0u8; 16];
    for i in 0..16
        invariant
            forall|j: int| 0 <= j < i ==> o[j] == if j % 2 == 0 { x[j / 2 + 8] } else { y[j / 2 + 8] },
    {
        o[i] = if i % 2 == 0 { x[i / 2 + 8] } else { y[i / 2 + 8] };
    }
    __m128i::from_u8(o)
}

/// Interleave the low four `i16` lanes of `a` and `b`, `a` first.
/// Matches `_mm_unpacklo_epi16`.
pub fn _mm_unpacklo_epi16(a: __m128i, b: __m128i) -> (r: __m128i)
    ensures
        forall|i: int|
            0 <= i < 8 ==> #[trigger] r.u16_at(i) == if i % 2 == 0 {
                a.u16_at(i / 2)
            } else {
                b.u16_at(i / 2)
            },
{
    let x = a.u16();
    let y = b.u16();
    let mut o = [0u16; 8];
    for i in 0..8
        invariant
            forall|j: int| 0 <= j < i ==> o[j] == if j % 2 == 0 { x[j / 2] } else { y[j / 2] },
    {
        o[i] = if i % 2 == 0 { x[i / 2] } else { y[i / 2] };
    }
    __m128i::from_u16(o)
}

/// Interleave the high four `i16` lanes of `a` and `b`, `a` first.
/// Matches `_mm_unpackhi_epi16`.
pub fn _mm_unpackhi_epi16(a: __m128i, b: __m128i) -> (r: __m128i)
    ensures
        forall|i: int|
            0 <= i < 8 ==> #[trigger] r.u16_at(i) == if i % 2 == 0 {
                a.u16_at(i / 2 + 4)
            } else {
                b.u16_at(i / 2 + 4)
            },
{
    let x = a.u16();
    let y = b.u16();
    let mut o = [0u16; 8];
    for i in 0..8
        invariant
            forall|j: int| 0 <= j < i ==> o[j] == if j % 2 == 0 { x[j / 2 + 4] } else { y[j / 2 + 4] },
    {
        o[i] = if i % 2 == 0 { x[i / 2 + 4] } else { y[i / 2 + 4] };
    }
    __m128i::from_u16(o)
}

/// Interleave the low two `i32` lanes of `a` and `b`, `a` first.
/// Matches `_mm_unpacklo_epi32`.
pub fn _mm_unpacklo_epi32(a: __m128i, b: __m128i) -> (r: __m128i)
    ensures
        forall|i: int|
            0 <= i < 4 ==> #[trigger] r.u32_at(i) == if i % 2 == 0 {
                a.u32_at(i / 2)
            } else {
                b.u32_at(i / 2)
            },
{
    let x = a.u32();
    let y = b.u32();
    let mut o = [0u32; 4];
    for i in 0..4
        invariant
            forall|j: int| 0 <= j < i ==> o[j] == if j % 2 == 0 { x[j / 2] } else { y[j / 2] },
    {
        o[i] = if i % 2 == 0 { x[i / 2] } else { y[i / 2] };
    }
    __m128i::from_u32(o)
}

/// Interleave the high two `i32` lanes of `a` and `b`, `a` first.
/// Matches `_mm_unpackhi_epi32`.
pub fn _mm_unpackhi_epi32(a: __m128i, b: __m128i) -> (r: __m128i)
    ensures
        forall|i: int|
            0 <= i < 4 ==> #[trigger] r.u32_at(i) == if i % 2 == 0 {
                a.u32_at(i / 2 + 2)
            } else {
                b.u32_at(i / 2 + 2)
            },
{
    let x = a.u32();
    let y = b.u32();
    let mut o = [0u32; 4];
    for i in 0..4
        invariant
            forall|j: int| 0 <= j < i ==> o[j] == if j % 2 == 0 { x[j / 2 + 2] } else { y[j / 2 + 2] },
    {
        o[i] = if i % 2 == 0 { x[i / 2 + 2] } else { y[i / 2 + 2] };
    }
    __m128i::from_u32(o)
}

/// Interleave the low `i64` lanes of `a` and `b`, `a` first.
/// Matches `_mm_unpacklo_epi64`.
pub fn _mm_unpacklo_epi64(a: __m128i, b: __m128i) -> (r: __m128i)
    ensures
        r.u64_at(0) == a.u64_at(0),
        r.u64_at(1) == b.u64_at(0),
{
    let x = a.u64();
    let y = b.u64();
    __m128i::from_u64([x[0], y[0]])
}

/// Interleave the high `i64` lanes of `a` and `b`, `a` first.
/// Matches `_mm_unpackhi_epi64`.
pub fn _mm_unpackhi_epi64(a: __m128i, b: __m128i) -> (r: __m128i)
    ensures
        r.u64_at(0) == a.u64_at(1),
        r.u64_at(1) == b.u64_at(1),
{
    let x = a.u64();
    let y = b.u64();
    __m128i::from_u64([x[1], y[1]])
}

// --- Move / shuffle ---

/// Copy the low `i64` lane, zero the high lane. Matches `_mm_move_epi64`.
pub fn _mm_move_epi64(a: __m128i) -> (r: __m128i)
    ensures
        r.u64_at(0) == a.u64_at(0),
        r.u64_at(1) == 0,
{
    let x = a.u64();
    __m128i::from_u64([x[0], 0])
}

/// The four 2-bit lane selectors of a shuffle immediate, lane 0 first.
pub(crate) fn selectors(imm: i32) -> (r: [usize; 4])
    requires
        0 <= imm < 256,
    ensures
        forall|i: int| 0 <= i < 4 ==> #[trigger] r[i] == field2(imm as int, i),
{
    [(imm % 4) as usize, ((imm / 4) % 4) as usize, ((imm / 16) % 4) as usize, ((imm / 64) % 4) as usize]
}

/// Shuffle four `i32` lanes: lane `i` takes the lane picked by bits `2i..2i+2`
/// of `imm`. Matches `_mm_shuffle_epi32`.
pub fn _mm_shuffle_epi32(a: __m128i, imm: i32) -> (r: __m128i)
    requires
        0 <= imm < 256,
    ensures
        forall|i: int| 0 <= i < 4 ==> #[trigger] r.u32_at(i) == a.u32_at(field2(imm as int, i)),
{
    let x = a.u32();
    let s = selectors(imm);
    __m128i::from_u32([x[s[0]], x[s[1]], x[s[2]], x[s[3]]])
}

/// Shuffle the high four `i16` lanes by `imm`, keep the low four.
/// Matches `_mm_shufflehi_epi16`.
pub fn _mm_shufflehi_epi16(a: __m128i, imm: i32) -> (r: __m128i)
    requires
        0 <= imm < 256,
    ensures
        forall|i: int|
            0 <= i < 8 ==> #[trigger] r.u16_at(i) == if i < 4 {
                a.u16_at(i)
            } else {
                a.u16_at(4 + field2(imm as int, i - 4))
            },
{
    let x = a.u16();
    let s = selectors(imm);
    __m128i::from_u16([x[0], x[1], x[2], x[3], x[4 + s[0]], x[4 + s[1]], x[4 + s[2]], x[4 + s[3]]])
}

/// Shuffle the low four `i16` lanes by `imm`, keep the high four.
/// Matches `_mm_shufflelo_epi16`.
pub fn _mm_shufflelo_epi16(a: __m128i, imm: i32) -> (r: __m128i)
    requires
        0 <= imm < 256,
    ensures
        forall|i: int|
            0 <= i < 8 ==> #[trigger] r.u16_at(i) == if i < 4 {
                a.u16_at(field2(imm as int, i))
            } else {
                a.u16_at(i)
            },
{
    let x = a.u16();
    let s = selectors(imm);
    __m128i::from_u16([x[s[0]], x[s[1]], x[s[2]], x[s[3]], x[4], x[5], x[6], x[7]])
}

// --- Movemask ---

/// Gather the top bit of each of the sixteen bytes: bit `i` of the result is
/// set exactly when byte lane `i` is negative. Matches `_mm_movemask_epi8`.
pub fn _mm_movemask_epi8(a: __m128i) -> (r: i32)
    ensures
        r == bit_mask(|i: int| a@[i] >= 0x80, 16),
{
    let mut acc: u32 = 0;
    let mut bit: u32 = 1;
    proof {
        lemma2_to64();
    }
    for i in 0..16
        invariant
            acc == bit_mask(|i: int| a@[i] >= 0x80, i as nat),
            bit == pow2i(i as int),
            acc < bit,
            bit <= 0x1_0000,
    {
        proof {
            lemma_pow2_unfold((i + 1) as nat);
            lemma2_to64();
            if i < 15 {
                lemma_pow2_strictly_increases((i + 1) as nat, 16);
            }
        }
        if a.bytes[i] >= 0x80 {
            acc = acc + bit;
        }
        bit = bit * 2;
    }
    acc as i32
}

// --- Sum of absolute differences ---

fn sad8(x: &[u8; 16], y: &[u8; 16], lo: usize) -> (r: u64)
    requires
        lo == 0 || lo == 8,
    ensures
        r == abs_diff_sum(x@, y@, lo as int, 8),
{
    let mut acc: u64 = 0;
    for i in 0..8
        invariant
            lo == 0 || lo == 8,
            acc == abs_diff_sum(x@, y@, lo as int, i as nat),
            acc <= 0xff * i,
    {
        let p = x[lo + i];
        let q = y[lo + i];
        let d = if p >= q { p - q } else { q - p };
        acc = acc + d as u64;
    }
    acc
}

/// Sum the absolute differences of the `u8` lanes of each 64-bit half into
/// that half. Matches `_mm_sad_epu8`.
pub fn _mm_sad_epu8(a: __m128i, b: __m128i) -> (r: __m128i)
    ensures
        forall|k: int| 0 <= k < 2 ==> #[trigger] r.u64_at(k) == abs_diff_sum(a@, b@, 8 * k, 8),
{
    __m128i::from_u64([sad8(&a.bytes, &b.bytes, 0), sad8(&a.bytes, &b.bytes, 8)])
}

/// Broadcast one `i8` to all sixteen lanes. Matches `_mm_set1_epi8`.
pub fn _mm_set1_epi8(w: i8) -> (r: __m128i)
    ensures
        forall|i: int| 0 <= i < 16 ==> #[trigger] r.i8_at(i) == w,
{
    __m128i::from_s8([w; 16])
}

/// Broadcast one `i16` to all eight lanes. Matches `_mm_set1_epi16`.
pub fn _mm_set1_epi16(w: i16) -> (r: __m128i)
    ensures
        forall|i: int| 0 <= i < 8 ==> #[trigger] r.i16_at(i) == w,
{
    __m128i::from_s16([w; 8])
}

/// Broadcast one `i32` to all four lanes. Matches `_mm_set1_epi32`.
pub fn _mm_set1_epi32(w: i32) -> (r: __m128i)
    ensures
        forall|i: int| 0 <= i < 4 ==> #[trigger] r.i32_at(i) == w,
{
    __m128i::from_s32([w; 4])
}

/// Broadcast one `i64` to both lanes. Matches `_mm_set1_epi64x`.
pub fn _mm_set1_epi64x(w: i64) -> (r: __m128i)
    ensures
        forall|i: int| 0 <= i < 2 ==> #[trigger] r.i64_at(i) == w,
{
    __m128i::from_s64([w, w])
}

/// Set four `i32` lanes, most significant first: lane 0 is `e0`.
/// Matches `_mm_set_epi32`.
pub fn _mm_set_epi32(e3: i32, e2: i32, e1: i32, e0: i32) -> (r: __m128i)
    ensures
        r.i32_at(0) == e0,
        r.i32_at(1) == e1,
        r.i32_at(2) == e2,
        r.i32_at(3) == e3,
{
    __m128i::from_s32([e0, e1, e2, e3])
}

/// Set four `i32` lanes in memory order: lane 0 is `e3`, the first argument.
/// Matches `_mm_setr_epi32`.
pub fn _mm_setr_epi32(e3: i32, e2: i32, e1: i32, e0: i32) -> (r: __m128i)
    ensures
        r.i32_at(0) == e3,
        r.i32_at(1) == e2,
        r.i32_at(2) == e1,
        r.i32_at(3) == e0,
{
    _mm_set_epi32(e0, e1, e2, e3)
}

/// Set two `i64` lanes, most significant first: lane 0 is `e0`.
/// Matches `_mm_set_epi64x`.
pub fn _mm_set_epi64x(e1: i64, e0: i64) -> (r: __m128i)
    ensures
        r.i64_at(0) == e0,
        r.i64_at(1) == e1,
{
    __m128i::from_s64([e0, e1])
}

/// Set eight `i16` lanes, most significant first: lane 0 is `e0`.
/// Matches `_mm_set_epi16`.
pub fn _mm_set_epi16(e7: i16, e6: i16, e5: i16, e4: i16, e3: i16, e2: i16, e1: i16, e0: i16) -> (r: __m128i)
    ensures
        r.i16_at(0) == e0,
        r.i16_at(1) == e1,
        r.i16_at(2) == e2,
        r.i16_at(3) == e3,
        r.i16_at(4) == e4,
        r.i16_at(5) == e5,
        r.i16_at(6) == e6,
        r.i16_at(7) == e7,
{
    __m128i::from_s16([e0, e1, e2, e3, e4, e5, e6, e7])
}

/// Set sixteen `i8` lanes, most significant first: lane 0 is `e0`.
/// Matches `_mm_set_epi8`.
pub fn _mm_set_epi8(
    e15: i8,
    e14: i8,
    e13: i8,
    e12: i8,
    e11: i8,
    e10: i8,
    e9: i8,
    e8: i8,
    e7: i8,
    e6: i8,
    e5: i8,
    e4: i8,
    e3: i8,
    e2: i8,
    e1: i8,
    e0: i8,
) -> (r: __m128i)
    ensures
        r.i8_at(0) == e0,
        r.i8_at(1) == e1,
        r.i8_at(2) == e2,
        r.i8_at(3) == e3,
        r.i8_at(4) == e4,
        r.i8_at(5) == e5,
        r.i8_at(6) == e6,
        r.i8_at(7) == e7,
        r.i8_at(8) == e8,
        r.i8_at(9) == e9,
        r.i8_at(10) == e10,
        r.i8_at(11) == e11,
        r.i8_at(12) == e12,
        r.i8_at(13) == e13,
        r.i8_at(14) == e14,
        r.i8_at(15) == e15,
{
    __m128i::from_s8([e0, e1, e2, e3, e4, e5, e6, e7, e8, e9, e10, e11, e12, e13, e14, e15])
}

/// `mem` with its first `n` bytes replaced by the first `n` bytes of `a`.
pub open spec fn stored(mem: Seq<u8>, a: Seq<u8>, n: int) -> Seq<u8> {
    a.subrange(0, n) + mem.subrange(n, mem.len() as int)
}

/// What a load gives back of a store: loading the sixteen bytes that
/// [`_mm_storeu_si128`] wrote gives the vector that was stored, and loading
/// with [`_mm_loadl_epi64`] after [`_mm_storel_epi64`] gives its low 64 bits
/// with the high 64 bits zero. Bytes past the stored ones keep their values.
pub proof fn law_load_after_store(mem: Seq<u8>, a: __m128i)
    requires
        mem.len() >= 16,
    ensures
        stored(mem, a@, 16).subrange(0, 16) == a@,
        stored(mem, a@, 8).subrange(0, 8) + seq![0u8; 8] == a@.subrange(0, 8) + seq![0u8; 8],
        stored(mem, a@, 16).subrange(16, mem.len() as int) == mem.subrange(16, mem.len() as int),
        stored(mem, a@, 8).subrange(8, mem.len() as int) == mem.subrange(8, mem.len() as int),
{
    assert(stored(mem, a@, 16).subrange(0, 16) =~= a@);
    assert(stored(mem, a@, 8).subrange(0, 8) =~= a@.subrange(0, 8));
    assert(stored(mem, a@, 16).subrange(16, mem.len() as int) =~= mem.subrange(16, mem.len() as int));
    assert(stored(mem, a@, 8).subrange(8, mem.len() as int) =~= mem.subrange(8, mem.len() as int));
}

/// Load a 128-bit vector from the first sixteen bytes of `mem`.
/// Matches `_mm_load_si128`.
pub fn _mm_load_si128(mem: &[u8]) -> (r: __m128i)
    requires
        mem@.len() >= 16,
    ensures
        forall|i: int| 0 <= i < 16 ==> #[trigger] r@[i] == mem@[i],
        r@ == mem@.subrange(0, 16),
{
    _mm_loadu_si128(mem)
}

/// Load a 128-bit vector from the first sixteen bytes of `mem`.
/// Matches `_mm_loadu_si128`.
pub fn _mm_loadu_si128(mem: &[u8]) -> (r: __m128i)
    requires
        mem@.len() >= 16,
    ensures
        forall|i: int| 0 <= i < 16 ==> #[trigger] r@[i] == mem@[i],
        r@ == mem@.subrange(0, 16),
{
    let mut o = [0u8; 16];
    for i in 0..16
        invariant
            mem@.len() >= 16,
            forall|j: int| 0 <= j < i ==> o[j] == mem@[j],
    {
        o[i] = mem[i];
    }
    __m128i { bytes: o }
}

/// Load the low 64 bits from the first eight bytes of `mem`, zero the high 64
/// bits. Matches `_mm_loadl_epi64`.
pub fn _mm_loadl_epi64(mem: &[u8]) -> (r: __m128i)
    requires
        mem@.len() >= 8,
    ensures
        forall|i: int| 0 <= i < 16 ==> #[trigger] r@[i] == if i < 8 { mem@[i] } else { 0u8 },
        r@ == mem@.subrange(0, 8) + seq![0u8; 8],
{
    let mut o = [0u8; 16];
    for i in 0..8
        invariant
            mem@.len() >= 8,
            forall|j: int| 0 <= j < i ==> o[j] == mem@[j],
            forall|j: int| 8 <= j < 16 ==> o[j] == 0,
    {
        o[i] = mem[i];
    }
    __m128i { bytes: o }
}

/// Store a 128-bit vector into the first sixteen bytes of `mem`.
/// Matches `_mm_store_si128`.
pub fn _mm_store_si128(mem: &mut [u8], a: __m128i)
    requires
        old(mem)@.len() >= 16,
    ensures
        final(mem)@.len() == old(mem)@.len(),
        final(mem)@ == stored(old(mem)@, a@, 16),
        forall|i: int| 0 <= i < 16 ==> #[trigger] final(mem)@[i] == a@[i],
        forall|i: int| 16 <= i < old(mem)@.len() ==> #[trigger] final(mem)@[i] == old(mem)@[i],
{
    _mm_storeu_si128(mem, a)
}

/// Store a 128-bit vector into the first sixteen bytes of `mem`.
/// Matches `_mm_storeu_si128`.
pub fn _mm_storeu_si128(mem: &mut [u8], a: __m128i)
    requires
        old(mem)@.len() >= 16,
    ensures
        final(mem)@.len() == old(mem)@.len(),
        final(mem)@ == stored(old(mem)@, a@, 16),
        forall|i: int| 0 <= i < 16 ==> #[trigger] final(mem)@[i] == a@[i],
        forall|i: int| 16 <= i < old(mem)@.len() ==> #[trigger] final(mem)@[i] == old(mem)@[i],
{
    for i in 0..16
        invariant
            mem@.len() == old(mem)@.len(),
            old(mem)@.len() >= 16,
            forall|j: int| 0 <= j < i ==> mem@[j] == a@[j],
            forall|j: int| i <= j < old(mem)@.len() ==> mem@[j] == old(mem)@[j],
    {
        mem[i] = a.bytes[i];
    }
}

/// Store the low 64 bits into the first eight bytes of `mem`.
/// Matches `_mm_storel_epi64`.
pub fn _mm_storel_epi64(mem: &mut [u8], a: __m128i)
    requires
        old(mem)@.len() >= 8,
    ensures
        final(mem)@.len() == old(mem)@.len(),
        final(mem)@ == stored(old(mem)@, a@, 8),
        forall|i: int| 0 <= i < 8 ==> #[trigger] final(mem)@[i] == a@[i],
        forall|i: int| 8 <= i < old(mem)@.len() ==> #[trigger] final(mem)@[i] == old(mem)@[i],
{
    for i in 0..8
        invariant
            mem@.len() == old(mem)@.len(),
            old(mem)@.len() >= 8,
            forall|j: int| 0 <= j < i ==> mem@[j] == a@[j],
            forall|j: int| i <= j < old(mem)@.len() ==> mem@[j] == old(mem)@[j],
    {
        mem[i] = a.bytes[i];
    }
}

/// Extract the low `i32` lane. Matches `_mm_cvtsi128_si32`.
pub fn _mm_cvtsi128_si32(a: __m128i) -> (r: i32)
    ensures
        r == a.i32_at(0),
{
    a.s32()[0]
}

/// Extract the low `i64` lane. Matches `_mm_cvtsi128_si64`.
pub fn _mm_cvtsi128_si64(a: __m128i) -> (r: i64)
    ensures
        r == a.i64_at(0),
{
    a.s64()[0]
}

/// Set lane 0 to `w`, zero the other three `i32` lanes. Matches `_mm_cvtsi32_si128`.
pub fn _mm_cvtsi32_si128(w: i32) -> (r: __m128i)
    ensures
        r.i32_at(0) == w,
        r.i32_at(1) == 0,
        r.i32_at(2) == 0,
        r.i32_at(3) == 0,
{
    __m128i::from_s32([w, 0, 0, 0])
}

/// Set lane 0 to `w`, zero the high `i64` lane. Matches `_mm_cvtsi64_si128`.
pub fn _mm_cvtsi64_si128(w: i64) -> (r: __m128i)
    ensures
        r.i64_at(0) == w,
        r.i64_at(1) == 0,
{
    __m128i::from_s64([w, 0])
}

// ============================================================================
// `f64` vectors: operations on lane bit patterns
// ============================================================================

/// Bitwise AND of two `f64` vectors. Matches `_mm_and_pd`.
pub fn _mm_and_pd(a: __m128d, b: __m128d) -> (r: __m128d)
    ensures
        forall|i: int| 0 <= i < 2 ==> #[trigger] r@[i] == a@[i] & b@[i],
{
    __m128d { lanes: [a.lanes[0] & b.lanes[0], a.lanes[1] & b.lanes[1]] }
}

/// Bitwise OR of two `f64` vectors. Matches `_mm_or_pd`.
pub fn _mm_or_pd(a: __m128d, b: __m128d) -> (r: __m128d)
    ensures
        forall|i: int| 0 <= i < 2 ==> #[trigger] r@[i] == a@[i] | b@[i],
{
    __m128d { lanes: [a.lanes[0] | b.lanes[0], a.lanes[1] | b.lanes[1]] }
}

/// Bitwise XOR of two `f64` vectors. Matches `_mm_xor_pd`.
pub fn _mm_xor_pd(a: __m128d, b: __m128d) -> (r: __m128d)
    ensures
        forall|i: int| 0 <= i < 2 ==> #[trigger] r@[i] == a@[i] ^ b@[i],
{
    __m128d { lanes: [a.lanes[0] ^ b.lanes[0], a.lanes[1] ^ b.lanes[1]] }
}

/// Bitwise `(!a) & b`. The NOT applies to `a`. Matches `_mm_andnot_pd`.
pub fn _mm_andnot_pd(a: __m128d, b: __m128d) -> (r: __m128d)
    ensures
        forall|i: int| 0 <= i < 2 ==> #[trigger] r@[i] == !a@[i] & b@[i],
{
    __m128d { lanes: [!a.lanes[0] & b.lanes[0], !a.lanes[1] & b.lanes[1]] }
}

/// All ones in each lane where [`pred64`] `op` holds of `a` and `b`, else zero.
fn mask_lanes64(a: __m128d, b: __m128d, op: u8, fz: bool) -> (r: __m128d)
    requires
        op < 8,
    ensures
        forall|i: int|
            0 <= i < 2 ==> #[trigger] r@[i] == if pred64(op as int, flush64(a@[i], fz), flush64(b@[i], fz)) {
                0xffff_ffff_ffff_ffffu64
            } else {
                0u64
            },
{
    let m0: u64 = if test64(op, flush_lane64(a.lanes[0], fz), flush_lane64(b.lanes[0], fz)) { 0xffff_ffff_ffff_ffff } else { 0 };
    let m1: u64 = if test64(op, flush_lane64(a.lanes[1], fz), flush_lane64(b.lanes[1], fz)) { 0xffff_ffff_ffff_ffff } else { 0 };
    __m128d { lanes: [m0, m1] }
}

/// Lanes where `a == b` become all ones, else zero. Matches `_mm_cmpeq_pd`.
pub fn _mm_cmpeq_pd(a: __m128d, b: __m128d, fpcr: u64) -> (r: __m128d)
    ensures
        forall|i: int| 0 <= i < 2 ==> #[trigger] r@[i] == if eq64(flush64(a@[i], fz_set(fpcr)), flush64(b@[i], fz_set(fpcr))) { 0xffff_ffff_ffff_ffffu64 } else { 0u64 },
{
    mask_lanes64(a, b, 0, (fpcr / FPCR_FZ_BIT) % 2 == 1)
}

/// Lanes where `a >= b` become all ones, else zero. Matches `_mm_cmpge_pd`.
pub fn _mm_cmpge_pd(a: __m128d, b: __m128d, fpcr: u64) -> (r: __m128d)
    ensures
        forall|i: int| 0 <= i < 2 ==> #[trigger] r@[i] == if leq64(flush64(b@[i], fz_set(fpcr)), flush64(a@[i], fz_set(fpcr))) { 0xffff_ffff_ffff_ffffu64 } else { 0u64 },
{
    mask_lanes64(b, a, 2, (fpcr / FPCR_FZ_BIT) % 2 == 1)
}

/// Lanes where `a > b` become all ones, else zero. Matches `_mm_cmpgt_pd`.
pub fn _mm_cmpgt_pd(a: __m128d, b: __m128d, fpcr: u64) -> (r: __m128d)
    ensures
        forall|i: int| 0 <= i < 2 ==> #[trigger] r@[i] == if lt64(flush64(b@[i], fz_set(fpcr)), flush64(a@[i], fz_set(fpcr))) { 0xffff_ffff_ffff_ffffu64 } else { 0u64 },
{
    mask_lanes64(b, a, 1, (fpcr / FPCR_FZ_BIT) % 2 == 1)
}

/// Lanes where `a <= b` become all ones, else zero. Matches `_mm_cmple_pd`.
pub fn _mm_cmple_pd(a: __m128d, b: __m128d, fpcr: u64) -> (r: __m128d)
    ensures
        forall|i: int| 0 <= i < 2 ==> #[trigger] r@[i] == if leq64(flush64(a@[i], fz_set(fpcr)), flush64(b@[i], fz_set(fpcr))) { 0xffff_ffff_ffff_ffffu64 } else { 0u64 },
{
    mask_lanes64(a, b, 2, (fpcr / FPCR_FZ_BIT) % 2 == 1)
}

/// Lanes where `a < b` become all ones, else zero. Matches `_mm_cmplt_pd`.
pub fn _mm_cmplt_pd(a: __m128d, b: __m128d, fpcr: u64) -> (r: __m128d)
    ensures
        forall|i: int| 0 <= i < 2 ==> #[trigger] r@[i] == if lt64(flush64(a@[i], fz_set(fpcr)), flush64(b@[i], fz_set(fpcr))) { 0xffff_ffff_ffff_ffffu64 } else { 0u64 },
{
    mask_lanes64(a, b, 1, (fpcr / FPCR_FZ_BIT) % 2 == 1)
}

/// Lanes where `a != b` (true when either is NaN) become all ones, else zero. Matches `_mm_cmpneq_pd`.
pub fn _mm_cmpneq_pd(a: __m128d, b: __m128d, fpcr: u64) -> (r: __m128d)
    ensures
        forall|i: int| 0 <= i < 2 ==> #[trigger] r@[i] == if !eq64(flush64(a@[i], fz_set(fpcr)), flush64(b@[i], fz_set(fpcr))) { 0xffff_ffff_ffff_ffffu64 } else { 0u64 },
{
    mask_lanes64(a, b, 4, (fpcr / FPCR_FZ_BIT) % 2 == 1)
}

/// Lanes where neither lane is NaN become all ones, else zero. Matches `_mm_cmpord_pd`.
pub fn _mm_cmpord_pd(a: __m128d, b: __m128d, fpcr: u64) -> (r: __m128d)
    ensures
        forall|i: int| 0 <= i < 2 ==> #[trigger] r@[i] == if !nan64(flush64(a@[i], fz_set(fpcr))) && !nan64(flush64(b@[i], fz_set(fpcr))) { 0xffff_ffff_ffff_ffffu64 } else { 0u64 },
{
    mask_lanes64(a, b, 7, (fpcr / FPCR_FZ_BIT) % 2 == 1)
}

/// Lanes where either lane is NaN become all ones, else zero. Matches `_mm_cmpunord_pd`.
pub fn _mm_cmpunord_pd(a: __m128d, b: __m128d, fpcr: u64) -> (r: __m128d)
    ensures
        forall|i: int| 0 <= i < 2 ==> #[trigger] r@[i] == if nan64(flush64(a@[i], fz_set(fpcr))) || nan64(flush64(b@[i], fz_set(fpcr))) { 0xffff_ffff_ffff_ffffu64 } else { 0u64 },
{
    mask_lanes64(a, b, 3, (fpcr / FPCR_FZ_BIT) % 2 == 1)
}

/// Copy the low lane from `b`, the high lane from `a`. Matches `_mm_move_sd`.
pub fn _mm_move_sd(a: __m128d, b: __m128d) -> (r: __m128d)
    ensures
        r@[0] == b@[0],
        forall|i: int| 1 <= i < 2 ==> #[trigger] r@[i] == a@[i],
{
    __m128d { lanes: [b.lanes[0], a.lanes[1]] }
}

/// Interleave the high `f64` lanes: `a1, b1`. Matches `_mm_unpackhi_pd`.
pub fn _mm_unpackhi_pd(a: __m128d, b: __m128d) -> (r: __m128d)
    ensures
        r@ == seq![a@[1], b@[1]],
{
    __m128d { lanes: [a.lanes[1], b.lanes[1]] }
}

/// Interleave the low `f64` lanes: `a0, b0`. Matches `_mm_unpacklo_pd`.
pub fn _mm_unpacklo_pd(a: __m128d, b: __m128d) -> (r: __m128d)
    ensures
        r@ == seq![a@[0], b@[0]],
{
    __m128d { lanes: [a.lanes[0], b.lanes[0]] }
}

/// Gather the sign bit of each `f64` lane into bits 0 and 1.
/// Matches `_mm_movemask_pd`.
pub fn _mm_movemask_pd(a: __m128d) -> (r: i32)
    ensures
        r == bit_mask(|i: int| a@[i] >= 0x8000_0000_0000_0000u64, 2),
{
    proof {
        lemma2_to64();
        reveal_with_fuel(bit_mask, 3);
    }
    let lo: i32 = if a.lanes[0] >= 0x8000_0000_0000_0000 { 1 } else { 0 };
    let hi: i32 = if a.lanes[1] >= 0x8000_0000_0000_0000 { 2 } else { 0 };
    lo + hi
}

/// Return a zeroed `f64` vector (both lanes `+0.0`). Matches `_mm_setzero_pd`.
pub fn _mm_setzero_pd() -> (r: __m128d)
    ensures
        forall|i: int| 0 <= i < 2 ==> #[trigger] r@[i] == 0,
{
    __m128d { lanes: [0u64; 2] }
}


// --- Conversions from floating-point lanes to integers ---

/// Rounding code, in the sense of [`crate::ieee::round_div`], of the rounding
/// mode that `fpcr` selects: nearest-even, down, up, toward zero.
pub open spec fn round_code(fpcr: u64) -> int {
    let rm = rmode_field(fpcr);
    if rm == 0 {
        0
    } else if rm == 1 {
        2
    } else if rm == 2 {
        1
    } else {
        3
    }
}

pub(crate) fn rounding_code(fpcr: u64) -> (r: u8)
    ensures
        r == round_code(fpcr),
        r < 4,
{
    let rm = (fpcr / FPCR_RMODE_UNIT) % 4;
    if rm == 0 {
        0
    } else if rm == 1 {
        2
    } else if rm == 2 {
        1
    } else {
        3
    }
}

/// Convert four `f32` lanes to `i32` under the rounding mode of `fpcr`, with
/// denormal inputs read as zero when its FZ bit is set. NaN, infinite and
/// out-of-range lanes become `i32::MIN`. Matches `_mm_cvtps_epi32`.
pub fn _mm_cvtps_epi32(a: __m128, fpcr: u64) -> (r: __m128i)
    ensures
        forall|i: int|
            0 <= i < 4 ==> #[trigger] r.i32_at(i) == cvt32_i32(
                flush32(a@[i], fz_set(fpcr)),
                round_code(fpcr),
            ),
{
    let code = rounding_code(fpcr);
    let fz = (fpcr / FPCR_FZ_BIT) % 2 == 1;
    let mut v = [0i32; 4];
    for i in 0..4
        invariant
            code == round_code(fpcr),
            code < 4,
            fz == fz_set(fpcr),
            forall|j: int|
                0 <= j < i ==> v[j] == cvt32_i32(flush32(a@[j], fz_set(fpcr)), round_code(fpcr)),
    {
        v[i] = convert32(flush_lane32(a.lanes[i], fz), code);
    }
    __m128i::from_s32(v)
}

/// Convert four `f32` lanes to `i32`, truncating toward zero. NaN, infinite
/// and out-of-range lanes become `i32::MIN`. Matches `_mm_cvttps_epi32`.
pub fn _mm_cvttps_epi32(a: __m128) -> (r: __m128i)
    ensures
        forall|i: int| 0 <= i < 4 ==> #[trigger] r.i32_at(i) == cvt32_i32(a@[i], 3),
{
    let mut v = [0i32; 4];
    for i in 0..4
        invariant
            forall|j: int| 0 <= j < i ==> v[j] == cvt32_i32(a@[j], 3),
    {
        v[i] = convert32(a.lanes[i], 3);
    }
    __m128i::from_s32(v)
}

/// Convert two `f64` lanes to `i32` in lanes 0 and 1 under the rounding mode of
/// `fpcr`, with denormal inputs read as zero when its FZ bit is set; lanes 2
/// and 3 are zero. NaN, infinite and out-of-range lanes become `i32::MIN`.
/// Matches `_mm_cvtpd_epi32`.
pub fn _mm_cvtpd_epi32(a: __m128d, fpcr: u64) -> (r: __m128i)
    ensures
        r.i32_at(0) == cvt64_i32(flush64(a@[0], fz_set(fpcr)), round_code(fpcr)),
        r.i32_at(1) == cvt64_i32(flush64(a@[1], fz_set(fpcr)), round_code(fpcr)),
        r.i32_at(2) == 0,
        r.i32_at(3) == 0,
{
    let code = rounding_code(fpcr);
    let fz = (fpcr / FPCR_FZ_BIT) % 2 == 1;
    let lo = convert64(flush_lane64(a.lanes[0], fz), code);
    let hi = convert64(flush_lane64(a.lanes[1], fz), code);
    _mm_set_epi32(0, 0, hi, lo)
}

/// Convert two `f64` lanes to `i32` in lanes 0 and 1, truncating toward zero;
/// lanes 2 and 3 are zero. NaN, infinite and out-of-range lanes become
/// `i32::MIN`. Matches `_mm_cvttpd_epi32`.
pub fn _mm_cvttpd_epi32(a: __m128d) -> (r: __m128i)
    ensures
        r.i32_at(0) == cvt64_i32(a@[0], 3),
        r.i32_at(1) == cvt64_i32(a@[1], 3),
        r.i32_at(2) == 0,
        r.i32_at(3) == 0,
{
    let lo = convert64(a.lanes[0], 3);
    let hi = convert64(a.lanes[1], 3);
    _mm_set_epi32(0, 0, hi, lo)
}

/// Convert lane 0 of `a` to `i32` under the rounding mode of `fpcr`, with a
/// denormal read as zero when its FZ bit is set. NaN, infinite and
/// out-of-range values become `i32::MIN`. Matches `_mm_cvtsd_si32`.
pub fn _mm_cvtsd_si32(a: __m128d, fpcr: u64) -> (r: i32)
    ensures
        r == cvt64_i32(flush64(a@[0], fz_set(fpcr)), round_code(fpcr)),
{
    let code = rounding_code(fpcr);
    let fz = (fpcr / FPCR_FZ_BIT) % 2 == 1;
    convert64(flush_lane64(a.lanes[0], fz), code)
}

/// Convert lane 0 of `a` to `i32`, truncating toward zero. NaN, infinite and
/// out-of-range values become `i32::MIN`. Matches `_mm_cvttsd_si32`.
pub fn _mm_cvttsd_si32(a: __m128d) -> (r: i32)
    ensures
        r == cvt64_i32(a@[0], 3),
{
    convert64(a.lanes[0], 3)
}

// --- Minimum and maximum of `f64` lanes ---

/// Packed maximum of two `f64` lanes: a NaN operand propagates (a signalling
/// NaN first, then the NaN of `a`), and `+0.0` is above `-0.0`. Denormal
/// operands read as zero when the FZ bit of `fpcr` is set; NaN results are the
/// default NaN when its DN bit is set. Matches `_mm_max_pd`.
pub fn _mm_max_pd(a: __m128d, b: __m128d, fpcr: u64) -> (r: __m128d)
    ensures
        r@[0] == fmax64(a@[0], b@[0], fz_set(fpcr), dn_set(fpcr)),
        r@[1] == fmax64(a@[1], b@[1], fz_set(fpcr), dn_set(fpcr)),
{
    let fz = (fpcr / FPCR_FZ_BIT) % 2 == 1;
    let dn = (fpcr / FPCR_DN_BIT) % 2 == 1;
    __m128d {
        lanes: [
            minmax_lane64(a.lanes[0], b.lanes[0], true, fz, dn),
            minmax_lane64(a.lanes[1], b.lanes[1], true, fz, dn),
        ],
    }
}

/// Packed minimum of two `f64` lanes: a NaN operand propagates (a signalling
/// NaN first, then the NaN of `a`), and `-0.0` is below `+0.0`. Denormal
/// operands read as zero when the FZ bit of `fpcr` is set; NaN results are the
/// default NaN when its DN bit is set. Matches `_mm_min_pd`.
pub fn _mm_min_pd(a: __m128d, b: __m128d, fpcr: u64) -> (r: __m128d)
    ensures
        r@[0] == fmin64(a@[0], b@[0], fz_set(fpcr), dn_set(fpcr)),
        r@[1] == fmin64(a@[1], b@[1], fz_set(fpcr), dn_set(fpcr)),
{
    let fz = (fpcr / FPCR_FZ_BIT) % 2 == 1;
    let dn = (fpcr / FPCR_DN_BIT) % 2 == 1;
    __m128d {
        lanes: [
            minmax_lane64(a.lanes[0], b.lanes[0], false, fz, dn),
            minmax_lane64(a.lanes[1], b.lanes[1], false, fz, dn),
        ],
    }
}

/// Under the toward-zero rounding mode, the converting forms agree with the
/// truncating ones on every `f32` lane, flushing or not: a denormal converts
/// to zero either way.
pub proof fn law_toward_zero_mode_truncates32(b: u32, fpcr: u64)
    requires
        rmode_field(fpcr) == 3,
    ensures
        cvt32_i32(flush32(b, fz_set(fpcr)), round_code(fpcr)) == cvt32_i32(b, 3),
{
    if fz_set(fpcr) && exp32(b) == 0 {
        lemma_denormal_truncates32(b);
        lemma_denormal_truncates32(flush32(b, true));
    }
}

/// [`law_toward_zero_mode_truncates32`] on `f64` lanes.
pub proof fn law_toward_zero_mode_truncates64(b: u64, fpcr: u64)
    requires
        rmode_field(fpcr) == 3,
    ensures
        cvt64_i32(flush64(b, fz_set(fpcr)), round_code(fpcr)) == cvt64_i32(b, 3),
{
    if fz_set(fpcr) && exp64(b) == 0 {
        lemma_denormal_truncates64(b);
        lemma_denormal_truncates64(flush64(b, true));
    }
}

proof fn lemma_denormal_truncates32(b: u32)
    requires
        exp32(b) == 0,
    ensures
        cvt32_i32(b, 3) == 0,
{
    lemma2_to64();
    lemma_pow2_strictly_increases(23, 149);
    vstd::arithmetic::div_mod::lemma_basic_div(sig32(b), pow2i(149));
}

proof fn lemma_denormal_truncates64(b: u64)
    requires
        exp64(b) == 0,
    ensures
        cvt64_i32(b, 3) == 0,
{
    lemma2_to64();
    lemma2_to64_rest();
    lemma_pow2_strictly_increases(52, 1074);
    vstd::arithmetic::div_mod::lemma_basic_div(sig64(b), pow2i(1074));
}


// --- Arithmetic on `f64` lanes ---

/// Add two `f64` lanes, `a + b`, each rounded under the rounding mode of
/// `fpcr`, with denormals read as zero when its FZ bit is set and NaN results
/// the default NaN when its DN bit is set. Matches `_mm_add_pd`.
pub fn _mm_add_pd(a: __m128d, b: __m128d, fpcr: u64) -> (r: __m128d)
    ensures
        r@[0] == fadd64(a@[0], b@[0], false, round_code(fpcr), fz_set(fpcr), dn_set(fpcr)),
        r@[1] == fadd64(a@[1], b@[1], false, round_code(fpcr), fz_set(fpcr), dn_set(fpcr)),
{
    let code = rounding_code(fpcr);
    let fz = (fpcr / FPCR_FZ_BIT) % 2 == 1;
    let dn = (fpcr / FPCR_DN_BIT) % 2 == 1;
    __m128d {
        lanes: [
            add_lane64(a.lanes[0], b.lanes[0], false, code, fz, dn),
            add_lane64(a.lanes[1], b.lanes[1], false, code, fz, dn),
        ],
    }
}

/// Add lane 0 as [`_mm_add_pd`] does; lane 1 comes from `a`.
/// Matches `_mm_add_sd`.
pub fn _mm_add_sd(a: __m128d, b: __m128d, fpcr: u64) -> (r: __m128d)
    ensures
        r@[0] == fadd64(a@[0], b@[0], false, round_code(fpcr), fz_set(fpcr), dn_set(fpcr)),
        r@[1] == a@[1],
{
    _mm_move_sd(a, _mm_add_pd(a, b, fpcr))
}

/// Subtract two `f64` lanes, `a - b`, each rounded under the rounding mode of
/// `fpcr`, with denormals read as zero when its FZ bit is set and NaN results
/// the default NaN when its DN bit is set. Matches `_mm_sub_pd`.
pub fn _mm_sub_pd(a: __m128d, b: __m128d, fpcr: u64) -> (r: __m128d)
    ensures
        r@[0] == fadd64(a@[0], b@[0], true, round_code(fpcr), fz_set(fpcr), dn_set(fpcr)),
        r@[1] == fadd64(a@[1], b@[1], true, round_code(fpcr), fz_set(fpcr), dn_set(fpcr)),
{
    let code = rounding_code(fpcr);
    let fz = (fpcr / FPCR_FZ_BIT) % 2 == 1;
    let dn = (fpcr / FPCR_DN_BIT) % 2 == 1;
    __m128d {
        lanes: [
            add_lane64(a.lanes[0], b.lanes[0], true, code, fz, dn),
            add_lane64(a.lanes[1], b.lanes[1], true, code, fz, dn),
        ],
    }
}

/// Subtract lane 0 as [`_mm_sub_pd`] does; lane 1 comes from `a`.
/// Matches `_mm_sub_sd`.
pub fn _mm_sub_sd(a: __m128d, b: __m128d, fpcr: u64) -> (r: __m128d)
    ensures
        r@[0] == fadd64(a@[0], b@[0], true, round_code(fpcr), fz_set(fpcr), dn_set(fpcr)),
        r@[1] == a@[1],
{
    _mm_move_sd(a, _mm_sub_pd(a, b, fpcr))
}

/// Multiply two `f64` lanes, `a * b`, each rounded under the rounding mode of
/// `fpcr`, with denormals read as zero when its FZ bit is set and NaN results
/// the default NaN when its DN bit is set. Matches `_mm_mul_pd`.
pub fn _mm_mul_pd(a: __m128d, b: __m128d, fpcr: u64) -> (r: __m128d)
    ensures
        r@[0] == fmul64(a@[0], b@[0], round_code(fpcr), fz_set(fpcr), dn_set(fpcr)),
        r@[1] == fmul64(a@[1], b@[1], round_code(fpcr), fz_set(fpcr), dn_set(fpcr)),
{
    let code = rounding_code(fpcr);
    let fz = (fpcr / FPCR_FZ_BIT) % 2 == 1;
    let dn = (fpcr / FPCR_DN_BIT) % 2 == 1;
    __m128d {
        lanes: [
            mul_lane64(a.lanes[0], b.lanes[0], code, fz, dn),
            mul_lane64(a.lanes[1], b.lanes[1], code, fz, dn),
        ],
    }
}

/// Multiply lane 0 as [`_mm_mul_pd`] does; lane 1 comes from `a`.
/// Matches `_mm_mul_sd`.
pub fn _mm_mul_sd(a: __m128d, b: __m128d, fpcr: u64) -> (r: __m128d)
    ensures
        r@[0] == fmul64(a@[0], b@[0], round_code(fpcr), fz_set(fpcr), dn_set(fpcr)),
        r@[1] == a@[1],
{
    _mm_move_sd(a, _mm_mul_pd(a, b, fpcr))
}

/// Divide two `f64` lanes, `a / b`, each rounded under the rounding mode of
/// `fpcr`, with denormals read as zero when its FZ bit is set and NaN results
/// the default NaN when its DN bit is set. Matches `_mm_div_pd`.
pub fn _mm_div_pd(a: __m128d, b: __m128d, fpcr: u64) -> (r: __m128d)
    ensures
        r@[0] == fdiv64(a@[0], b@[0], round_code(fpcr), fz_set(fpcr), dn_set(fpcr)),
        r@[1] == fdiv64(a@[1], b@[1], round_code(fpcr), fz_set(fpcr), dn_set(fpcr)),
{
    let code = rounding_code(fpcr);
    let fz = (fpcr / FPCR_FZ_BIT) % 2 == 1;
    let dn = (fpcr / FPCR_DN_BIT) % 2 == 1;
    __m128d {
        lanes: [
            div_lane64(a.lanes[0], b.lanes[0], code, fz, dn),
            div_lane64(a.lanes[1], b.lanes[1], code, fz, dn),
        ],
    }
}

/// Divide lane 0 as [`_mm_div_pd`] does; lane 1 comes from `a`.
/// Matches `_mm_div_sd`.
pub fn _mm_div_sd(a: __m128d, b: __m128d, fpcr: u64) -> (r: __m128d)
    ensures
        r@[0] == fdiv64(a@[0], b@[0], round_code(fpcr), fz_set(fpcr), dn_set(fpcr)),
        r@[1] == a@[1],
{
    _mm_move_sd(a, _mm_div_pd(a, b, fpcr))
}

/// Square root of two `f64` lanes, each rounded under the rounding mode of
/// `fpcr`, with denormals read as zero when its FZ bit is set and NaN results
/// the default NaN when its DN bit is set. Matches `_mm_sqrt_pd`.
pub fn _mm_sqrt_pd(a: __m128d, fpcr: u64) -> (r: __m128d)
    ensures
        r@[0] == fsqrt64(a@[0], round_code(fpcr), fz_set(fpcr), dn_set(fpcr)),
        r@[1] == fsqrt64(a@[1], round_code(fpcr), fz_set(fpcr), dn_set(fpcr)),
{
    let code = rounding_code(fpcr);
    let fz = (fpcr / FPCR_FZ_BIT) % 2 == 1;
    let dn = (fpcr / FPCR_DN_BIT) % 2 == 1;
    __m128d { lanes: [sqrt_lane64(a.lanes[0], code, fz, dn), sqrt_lane64(a.lanes[1], code, fz, dn)] }
}

// --- Conversions between integers, `f32` and `f64` ---

/// Convert four `i32` lanes to `f32`, rounded under the rounding mode of
/// `fpcr`. Matches `_mm_cvtepi32_ps`.
pub fn _mm_cvtepi32_ps(a: __m128i, fpcr: u64) -> (r: __m128)
    ensures
        forall|i: int| 0 <= i < 4 ==> #[trigger] r@[i] == int_to32(a.i32_at(i), round_code(fpcr)),
{
    let code = rounding_code(fpcr);
    let s = a.s32();
    let mut v = [0u32; 4];
    for i in 0..4
        invariant
            code == round_code(fpcr),
            code < 4,
            forall|j: int| 0 <= j < 4 ==> s[j] == a.i32_at(j),
            forall|j: int| 0 <= j < i ==> v[j] == int_to32(a.i32_at(j), round_code(fpcr)),
    {
        v[i] = int_lane32(s[i] as i64, code);
    }
    __m128 { lanes: v }
}

/// Convert the two low `i32` lanes to `f64`, which is exact.
/// Matches `_mm_cvtepi32_pd`.
pub fn _mm_cvtepi32_pd(a: __m128i) -> (r: __m128d)
    ensures
        r@[0] == int_to64(a.i32_at(0), 0),
        r@[1] == int_to64(a.i32_at(1), 0),
{
    let s = a.s32();
    __m128d { lanes: [int_lane64(s[0] as i64, 0), int_lane64(s[1] as i64, 0)] }
}

/// Convert two `f64` lanes to `f32` in lanes 0 and 1, rounded under the
/// rounding mode of `fpcr` (see [`narrow`]); lanes 2 and 3 are `+0.0`.
/// Matches `_mm_cvtpd_ps`.
pub fn _mm_cvtpd_ps(a: __m128d, fpcr: u64) -> (r: __m128)
    ensures
        r@[0] == narrow(a@[0], round_code(fpcr), fz_set(fpcr), dn_set(fpcr)),
        r@[1] == narrow(a@[1], round_code(fpcr), fz_set(fpcr), dn_set(fpcr)),
        r@[2] == 0,
        r@[3] == 0,
{
    let code = rounding_code(fpcr);
    let fz = (fpcr / FPCR_FZ_BIT) % 2 == 1;
    let dn = (fpcr / FPCR_DN_BIT) % 2 == 1;
    __m128 {
        lanes: [narrow_lane(a.lanes[0], code, fz, dn), narrow_lane(a.lanes[1], code, fz, dn), 0, 0],
    }
}

/// Convert the two low `f32` lanes to `f64`, which is exact (see [`widen`]),
/// with the FZ and DN bits of `fpcr`. Matches `_mm_cvtps_pd`.
pub fn _mm_cvtps_pd(a: __m128, fpcr: u64) -> (r: __m128d)
    ensures
        r@[0] == widen(a@[0], fz_set(fpcr), dn_set(fpcr)),
        r@[1] == widen(a@[1], fz_set(fpcr), dn_set(fpcr)),
{
    let fz = (fpcr / FPCR_FZ_BIT) % 2 == 1;
    let dn = (fpcr / FPCR_DN_BIT) % 2 == 1;
    __m128d { lanes: [widen_lane(a.lanes[0], fz, dn), widen_lane(a.lanes[1], fz, dn)] }
}

/// Lane 0 of `b` converted to `f32` as [`_mm_cvtpd_ps`] converts it; lanes
/// 1-3 come from `a`. Matches `_mm_cvtsd_ss`.
pub fn _mm_cvtsd_ss(a: __m128, b: __m128d, fpcr: u64) -> (r: __m128)
    ensures
        r@[0] == narrow(b@[0], round_code(fpcr), fz_set(fpcr), dn_set(fpcr)),
        forall|i: int| 1 <= i < 4 ==> #[trigger] r@[i] == a@[i],
{
    let code = rounding_code(fpcr);
    let fz = (fpcr / FPCR_FZ_BIT) % 2 == 1;
    let dn = (fpcr / FPCR_DN_BIT) % 2 == 1;
    __m128 { lanes: [narrow_lane(b.lanes[0], code, fz, dn), a.lanes[1], a.lanes[2], a.lanes[3]] }
}

/// Lane 0 of `b` converted to `f64` as [`_mm_cvtps_pd`] converts it; lane 1
/// comes from `a`. Matches `_mm_cvtss_sd`.
pub fn _mm_cvtss_sd(a: __m128d, b: __m128, fpcr: u64) -> (r: __m128d)
    ensures
        r@[0] == widen(b@[0], fz_set(fpcr), dn_set(fpcr)),
        r@[1] == a@[1],
{
    let fz = (fpcr / FPCR_FZ_BIT) % 2 == 1;
    let dn = (fpcr / FPCR_DN_BIT) % 2 == 1;
    __m128d { lanes: [widen_lane(b.lanes[0], fz, dn), a.lanes[1]] }
}

/// Lane 0 set to `b` converted to `f64`, which is exact; lane 1 comes from
/// `a`. Matches `_mm_cvtsi32_sd`.
pub fn _mm_cvtsi32_sd(a: __m128d, b: i32) -> (r: __m128d)
    ensures
        r@[0] == int_to64(b as int, 0),
        r@[1] == a@[1],
{
    __m128d { lanes: [int_lane64(b as i64, 0), a.lanes[1]] }
}

/// Lane 0 set to `b` converted to `f64`, rounded under the rounding mode of
/// `fpcr`; lane 1 comes from `a`. Matches `_mm_cvtsi64_sd`.
pub fn _mm_cvtsi64_sd(a: __m128d, b: i64, fpcr: u64) -> (r: __m128d)
    ensures
        r@[0] == int_to64(b as int, round_code(fpcr)),
        r@[1] == a@[1],
{
    let code = rounding_code(fpcr);
    __m128d { lanes: [int_lane64(b, code), a.lanes[1]] }
}

/// Each `_MM_ROUND_*` mode, once written into the FPCR, selects the rounding
/// code of its own direction (see [`crate::ieee::round_div`]): nearest-even
/// `0`, down `1`, up `2`, toward zero `3`, whatever the FPCR held before.
pub proof fn law_named_modes_select_directions(fpcr: u64)
    ensures
        round_code(with_rmode(fpcr, rmode_for(_MM_ROUND_NEAREST))) == 0,
        round_code(with_rmode(fpcr, rmode_for(_MM_ROUND_DOWN))) == 1,
        round_code(with_rmode(fpcr, rmode_for(_MM_ROUND_UP))) == 2,
        round_code(with_rmode(fpcr, rmode_for(_MM_ROUND_TOWARD_ZERO))) == 3,
{
}
} // verus!
