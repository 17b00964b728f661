//! SSSE3 intrinsics: absolute value, sign, byte shuffle, align, horizontal ops.
use crate::sse2::_mm_setzero_si128;
use crate::types::{__m128i, clamp, sat_i16, lemma_mul_bound};
use vstd::prelude::*;

verus! {

/// Absolute value of sixteen `i8` lanes. The most negative value maps to
/// itself, read unsigned it is its own magnitude. Matches `_mm_abs_epi8`.
pub fn _mm_abs_epi8(a: __m128i) -> (r: __m128i)
    ensures
        forall|i: int| 0 <= i < 16 ==> #[trigger] r.u8_at(i) == if a.i8_at(i) < 0 {
            -a.i8_at(i)
        } else {
            a.i8_at(i)
        },
{
    let x = a.s8();
    let mut o = [0u8; 16];
    for i in 0..16
        invariant
            forall|j: int| 0 <= j < i ==> o[j] == if x[j] < 0 { -x[j] } else { x[j] as int },
    {
        let v = x[i] as i16;
        o[i] = (if v < 0 { -v } else { v }) as u8;
    }
    __m128i::from_u8(o)
}

/// Absolute value of eight `i16` lanes. The most negative value maps to
/// itself, read unsigned it is its own magnitude. Matches `_mm_abs_epi16`.
pub fn _mm_abs_epi16(a: __m128i) -> (r: __m128i)
    ensures
        forall|i: int| 0 <= i < 8 ==> #[trigger] r.u16_at(i) == if a.i16_at(i) < 0 {
            -a.i16_at(i)
        } else {
            a.i16_at(i)
        },
{
    let x = a.s16();
    let mut o = [0u16; 8];
    for i in 0..8
        invariant
            forall|j: int| 0 <= j < i ==> o[j] == if x[j] < 0 { -x[j] } else { x[j] as int },
    {
        let v = x[i] as i32;
        o[i] = (if v < 0 { -v } else { v }) as u16;
    }
    __m128i::from_u16(o)
}

/// Absolute value of four `i32` lanes. The most negative value maps to
/// itself, read unsigned it is its own magnitude. Matches `_mm_abs_epi32`.
pub fn _mm_abs_epi32(a: __m128i) -> (r: __m128i)
    ensures
        forall|i: int| 0 <= i < 4 ==> #[trigger] r.u32_at(i) == if a.i32_at(i) < 0 {
            -a.i32_at(i)
        } else {
            a.i32_at(i)
        },
{
    let x = a.s32();
    let mut o = [0u32; 4];
    for i in 0..4
        invariant
            forall|j: int| 0 <= j < i ==> o[j] == if x[j] < 0 { -x[j] } else { x[j] as int },
    {
        let v = x[i] as i64;
        o[i] = (if v < 0 { -v } else { v }) as u32;
    }
    __m128i::from_u32(o)
}

/// Shuffle the bytes of `a` by the index bytes of `b`. Output byte `i` is zero
/// when the top bit of `b[i]` is set, otherwise `a[b[i] & 15]`.
/// Matches `_mm_shuffle_epi8`.
pub fn _mm_shuffle_epi8(a: __m128i, b: __m128i) -> (r: __m128i)
    ensures
        forall|i: int|
            0 <= i < 16 ==> #[trigger] r@[i] == if b@[i] >= 0x80 { 0u8 } else { a@[(b@[i] % 16) as int] },
{
    let mut o = [0u8; 16];
    for i in 0..16
        invariant
            forall|j: int| 0 <= j < i ==> o[j] == if b@[j] >= 0x80 { 0u8 } else { a@[(b@[j] % 16) as int] },
    {
        let k = b.bytes[i];
        o[i] = if k >= 0x80 { 0 } else { a.bytes[(k % 16) as usize] };
    }
    __m128i { bytes: o }
}

/// Each `i8` lane of `a` negated where `b` is negative, zeroed where `b` is
/// zero, kept where `b` is positive. Negation wraps. Matches `_mm_sign_epi8`.
pub fn _mm_sign_epi8(a: __m128i, b: __m128i) -> (r: __m128i)
    ensures
        forall|i: int|
            0 <= i < 16 ==> #[trigger] r.u8_at(i) == if b.i8_at(i) < 0 {
                (-a.i8_at(i)) % 0x100
            } else if b.i8_at(i) == 0 {
                0int
            } else {
                a.i8_at(i) % 0x100
            },
{
    let x = a.s8();
    let y = b.s8();
    let mut o = [0u8; 16];
    for i in 0..16
        invariant
            forall|j: int|
                0 <= j < i ==> o[j] == if y[j] < 0 {
                    (-x[j]) % 0x100
                } else if y[j] == 0 {
                    0int
                } else {
                    (x[j] as int) % 0x100
                },
    {
        let v = x[i] as i16;
        let s = if y[i] < 0 { -v } else if y[i] == 0 { 0 } else { v };
        o[i] = ((s + 0x100) % 0x100) as u8;
    }
    __m128i::from_u8(o)
}

/// Each `i16` lane of `a` negated where `b` is negative, zeroed where `b` is
/// zero, kept where `b` is positive. Negation wraps. Matches `_mm_sign_epi16`.
pub fn _mm_sign_epi16(a: __m128i, b: __m128i) -> (r: __m128i)
    ensures
        forall|i: int|
            0 <= i < 8 ==> #[trigger] r.u16_at(i) == if b.i16_at(i) < 0 {
                (-a.i16_at(i)) % 0x1_0000
            } else if b.i16_at(i) == 0 {
                0int
            } else {
                a.i16_at(i) % 0x1_0000
            },
{
    let x = a.s16();
    let y = b.s16();
    let mut o = [0u16; 8];
    for i in 0..8
        invariant
            forall|j: int|
                0 <= j < i ==> o[j] == if y[j] < 0 {
                    (-x[j]) % 0x1_0000
                } else if y[j] == 0 {
                    0int
                } else {
                    (x[j] as int) % 0x1_0000
                },
    {
        let v = x[i] as i32;
        let s = if y[i] < 0 { -v } else if y[i] == 0 { 0 } else { v };
        o[i] = ((s + 0x1_0000) % 0x1_0000) as u16;
    }
    __m128i::from_u16(o)
}

/// Each `i32` lane of `a` negated where `b` is negative, zeroed where `b` is
/// zero, kept where `b` is positive. Negation wraps. Matches `_mm_sign_epi32`.
pub fn _mm_sign_epi32(a: __m128i, b: __m128i) -> (r: __m128i)
    ensures
        forall|i: int|
            0 <= i < 4 ==> #[trigger] r.u32_at(i) == if b.i32_at(i) < 0 {
                (-a.i32_at(i)) % 0x1_0000_0000
            } else if b.i32_at(i) == 0 {
                0int
            } else {
                a.i32_at(i) % 0x1_0000_0000
            },
{
    let x = a.s32();
    let y = b.s32();
    let mut o = [0u32; 4];
    for i in 0..4
        invariant
            forall|j: int|
                0 <= j < i ==> o[j] == if y[j] < 0 {
                    (-x[j]) % 0x1_0000_0000
                } else if y[j] == 0 {
                    0int
                } else {
                    (x[j] as int) % 0x1_0000_0000
                },
    {
        let v = x[i] as i64;
        let s = if y[i] < 0 { -v } else if y[i] == 0 { 0 } else { v };
        o[i] = ((s + 0x1_0000_0000) % 0x1_0000_0000) as u32;
    }
    __m128i::from_u32(o)
}

/// Horizontally add adjacent `i16` pairs of `a`, then of `b`, with
/// wraparound: lane `i` of the low half is `a[2i] + a[2i+1]`.
/// Matches `_mm_hadd_epi16`.
pub fn _mm_hadd_epi16(a: __m128i, b: __m128i) -> (r: __m128i)
    ensures
        forall|i: int|
            0 <= i < 8 ==> #[trigger] r.u16_at(i) == if i < 4 {
                (a.u16_at(2 * i) + a.u16_at(2 * i + 1)) % 0x1_0000
            } else {
                (b.u16_at(2 * i - 8) + b.u16_at(2 * i - 8 + 1)) % 0x1_0000
            },
{
    let x = a.u16();
    let y = b.u16();
    let mut o = [0u16; 8];
    for i in 0..8
        invariant
            forall|j: int|
                0 <= j < i ==> o[j] == if j < 4 {
                    (x[2 * j] + x[2 * j + 1]) % 0x1_0000
                } else {
                    (y[2 * j - 8] + y[2 * j - 8 + 1]) % 0x1_0000
                },
    {
        let (p, q) = if i < 4 {
            (x[2 * i] as u32, x[2 * i + 1] as u32)
        } else {
            (y[2 * i - 8] as u32, y[2 * i - 8 + 1] as u32)
        };
        o[i] = ((p + q) % 0x1_0000) as u16;
    }
    __m128i::from_u16(o)
}

/// Horizontally subtract adjacent `i16` pairs of `a`, then of `b`, with
/// wraparound: lane `i` of the low half is `a[2i] - a[2i+1]`.
/// Matches `_mm_hsub_epi16`.
pub fn _mm_hsub_epi16(a: __m128i, b: __m128i) -> (r: __m128i)
    ensures
        forall|i: int|
            0 <= i < 8 ==> #[trigger] r.u16_at(i) == if i < 4 {
                (a.u16_at(2 * i) - a.u16_at(2 * i + 1)) % 0x1_0000
            } else {
                (b.u16_at(2 * i - 8) - b.u16_at(2 * i - 8 + 1)) % 0x1_0000
            },
{
    let x = a.u16();
    let y = b.u16();
    let mut o = [0u16; 8];
    for i in 0..8
        invariant
            forall|j: int|
                0 <= j < i ==> o[j] == if j < 4 {
                    (x[2 * j] - x[2 * j + 1]) % 0x1_0000
                } else {
                    (y[2 * j - 8] - y[2 * j - 8 + 1]) % 0x1_0000
                },
    {
        let (p, q) = if i < 4 {
            (x[2 * i] as u32, x[2 * i + 1] as u32)
        } else {
            (y[2 * i - 8] as u32, y[2 * i - 8 + 1] as u32)
        };
        o[i] = ((p + 0x1_0000 - q) % 0x1_0000) as u16;
    }
    __m128i::from_u16(o)
}

/// Horizontally add adjacent `i32` pairs of `a`, then of `b`, with
/// wraparound: lane `i` of the low half is `a[2i] + a[2i+1]`.
/// Matches `_mm_hadd_epi32`.
pub fn _mm_hadd_epi32(a: __m128i, b: __m128i) -> (r: __m128i)
    ensures
        forall|i: int|
            0 <= i < 4 ==> #[trigger] r.u32_at(i) == if i < 2 {
                (a.u32_at(2 * i) + a.u32_at(2 * i + 1)) % 0x1_0000_0000
            } else {
                (b.u32_at(2 * i - 4) + b.u32_at(2 * i - 4 + 1)) % 0x1_0000_0000
            },
{
    let x = a.u32();
    let y = b.u32();
    let mut o = [0u32; 4];
    for i in 0..4
        invariant
            forall|j: int|
                0 <= j < i ==> o[j] == if j < 2 {
                    (x[2 * j] + x[2 * j + 1]) % 0x1_0000_0000
                } else {
                    (y[2 * j - 4] + y[2 * j - 4 + 1]) % 0x1_0000_0000
                },
    {
        let (p, q) = if i < 2 {
            (x[2 * i] as u64, x[2 * i + 1] as u64)
        } else {
            (y[2 * i - 4] as u64, y[2 * i - 4 + 1] as u64)
        };
        o[i] = ((p + q) % 0x1_0000_0000) as u32;
    }
    __m128i::from_u32(o)
}

/// Horizontally subtract adjacent `i32` pairs of `a`, then of `b`, with
/// wraparound: lane `i` of the low half is `a[2i] - a[2i+1]`.
/// Matches `_mm_hsub_epi32`.
pub fn _mm_hsub_epi32(a: __m128i, b: __m128i) -> (r: __m128i)
    ensures
        forall|i: int|
            0 <= i < 4 ==> #[trigger] r.u32_at(i) == if i < 2 {
                (a.u32_at(2 * i) - a.u32_at(2 * i + 1)) % 0x1_0000_0000
            } else {
                (b.u32_at(2 * i - 4) - b.u32_at(2 * i - 4 + 1)) % 0x1_0000_0000
            },
{
    let x = a.u32();
    let y = b.u32();
    let mut o = [0u32; 4];
    for i in 0..4
        invariant
            forall|j: int|
                0 <= j < i ==> o[j] == if j < 2 {
                    (x[2 * j] - x[2 * j + 1]) % 0x1_0000_0000
                } else {
                    (y[2 * j - 4] - y[2 * j - 4 + 1]) % 0x1_0000_0000
                },
    {
        let (p, q) = if i < 2 {
            (x[2 * i] as u64, x[2 * i + 1] as u64)
        } else {
            (y[2 * i - 4] as u64, y[2 * i - 4 + 1] as u64)
        };
        o[i] = ((p + 0x1_0000_0000 - q) % 0x1_0000_0000) as u32;
    }
    __m128i::from_u32(o)
}

/// Multiply unsigned bytes of `a` by signed bytes of `b`, add adjacent products
/// into `i16` with signed saturation. Matches `_mm_maddubs_epi16`.
pub fn _mm_maddubs_epi16(a: __m128i, b: __m128i) -> (r: __m128i)
    ensures
        forall|i: int|
            0 <= i < 8 ==> #[trigger] r.i16_at(i) == clamp(
                a.u8_at(2 * i) * b.i8_at(2 * i) + a.u8_at(2 * i + 1) * b.i8_at(2 * i + 1),
                -0x8000,
                0x7fff,
            ),
{
    let x = a.u8();
    let y = b.s8();
    let mut o = [0i16; 8];
    for i in 0..8
        invariant
            forall|j: int|
                0 <= j < i ==> o[j] == clamp(x[2 * j] * y[2 * j] + x[2 * j + 1] * y[2 * j + 1], -0x8000, 0x7fff),
    {
        proof {
            lemma_mul_bound(x[2 * i as int] as int, y[2 * i as int] as int, 0xff);
            lemma_mul_bound(x[2 * i as int + 1] as int, y[2 * i as int + 1] as int, 0xff);
        }
        let s = (x[2 * i] as i32) * (y[2 * i] as i32) + (x[2 * i + 1] as i32) * (y[2 * i + 1] as i32);
        o[i] = sat_i16(s);
    }
    __m128i::from_s16(o)
}

fn mulhrs(x: i16, y: i16) -> (r: u16)
    ensures
        r == ((x * y + 0x4000) / 0x8000) % 0x1_0000,
{
    proof {
        lemma_mul_bound(x as int, y as int, 0x8000);
    }
    let p: i64 = (x as i64) * (y as i64) + 0x4000;
    let q: i64 = (p + 0x4000_0000) / 0x8000 - 0x8000;
    ((q + 0x1_0000) % 0x1_0000) as u16
}

/// Multiply `i16` lanes into 32 bits, round and keep bits 15-30:
/// `(a * b + 0x4000) >> 15`, truncated to 16 bits. Matches `_mm_mulhrs_epi16`.
pub fn _mm_mulhrs_epi16(a: __m128i, b: __m128i) -> (r: __m128i)
    ensures
        forall|i: int|
            0 <= i < 8 ==> #[trigger] r.u16_at(i) == ((a.i16_at(i) * b.i16_at(i) + 0x4000) / 0x8000) % 0x1_0000,
{
    let x = a.s16();
    let y = b.s16();
    let mut o = [0u16; 8];
    for i in 0..8
        invariant
            forall|j: int| 0 <= j < i ==> o[j] == ((x[j] * y[j] + 0x4000) / 0x8000) % 0x1_0000,
    {
        o[i] = mulhrs(x[i], y[i]);
    }
    __m128i::from_u16(o)
}

/// Concatenate `a:b` (`b` in the low sixteen bytes), shift right by `imm` bytes
/// and keep the low sixteen. Matches `_mm_alignr_epi8`.
pub fn _mm_alignr_epi8(a: __m128i, b: __m128i, imm: i32) -> (r: __m128i)
    requires
        0 <= imm < 256,
    ensures
        forall|i: int|
            0 <= i < 16 ==> #[trigger] r@[i] == if i + imm < 16 {
                b@[i + imm]
            } else if i + imm < 32 {
                a@[i + imm - 16]
            } else {
                0u8
            },
{
    if imm >= 32 {
        return _mm_setzero_si128();
    }
    let k = imm as usize;
    let mut o = [0u8; 16];
    for i in 0..16
        invariant
            k == imm,
            k < 32,
            forall|j: int|
                0 <= j < i ==> o[j] == if j + k < 16 {
                    b@[j + k]
                } else if j + k < 32 {
                    a@[j + k - 16]
                } else {
                    0u8
                },
    {
        let src = i + k;
        o[i] = if src < 16 { b.bytes[src] } else if src < 32 { a.bytes[src - 16] } else { 0 };
    }
    __m128i { bytes: o }
}

} // verus!
