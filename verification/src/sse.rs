//! SSE intrinsics on `f32` vectors, each lane held as its bit pattern: bitwise
//! logic, IEEE-754 comparisons, minimum and maximum, correctly rounded
//! arithmetic and square root, moves, shuffles and the sign-bit mask.
//!
//! The floating-point operations take the value of the FPCR: its rounding
//! mode, its FZ bit (denormal operands read as zero, and results below the
//! normal range flush to zero) and its DN bit (NaN results are the default
//! NaN) decide the result as the hardware decides it.
use crate::ieee::{eq32, leq32, lt32, mag32, nan32, pred32, test32, fmax32, fmin32, minmax_lane32, flush32, flush_lane32};
use crate::mxcsr::{fz_set, dn_set, FPCR_FZ_BIT, FPCR_DN_BIT};
use crate::fparith::{fadd32, fmul32, fdiv32, fsqrt32, add_lane32, mul_lane32, div_lane32, sqrt_lane32};
use crate::sse2::{round_code, rounding_code};
use crate::types::{__m128, bit_mask, field2, pow2i};
use vstd::arithmetic::power2::{lemma2_to64, lemma_pow2_unfold};
use vstd::prelude::*;

verus! {

// --- Bitwise ---

/// Bitwise AND of two `f32` vectors. Matches `_mm_and_ps`.
pub fn _mm_and_ps(a: __m128, b: __m128) -> (r: __m128)
    ensures
        forall|i: int| 0 <= i < 4 ==> #[trigger] r@[i] == a@[i] & b@[i],
{
    let x = a.lanes;
    let y = b.lanes;
    __m128 { lanes: [x[0] & y[0], x[1] & y[1], x[2] & y[2], x[3] & y[3]] }
}

/// Bitwise OR of two `f32` vectors. Matches `_mm_or_ps`.
pub fn _mm_or_ps(a: __m128, b: __m128) -> (r: __m128)
    ensures
        forall|i: int| 0 <= i < 4 ==> #[trigger] r@[i] == a@[i] | b@[i],
{
    let x = a.lanes;
    let y = b.lanes;
    __m128 { lanes: [x[0] | y[0], x[1] | y[1], x[2] | y[2], x[3] | y[3]] }
}

/// Bitwise XOR of two `f32` vectors. Matches `_mm_xor_ps`.
pub fn _mm_xor_ps(a: __m128, b: __m128) -> (r: __m128)
    ensures
        forall|i: int| 0 <= i < 4 ==> #[trigger] r@[i] == a@[i] ^ b@[i],
{
    let x = a.lanes;
    let y = b.lanes;
    __m128 { lanes: [x[0] ^ y[0], x[1] ^ y[1], x[2] ^ y[2], x[3] ^ y[3]] }
}

/// Bitwise `(!a) & b`. The NOT applies to `a`. Matches `_mm_andnot_ps`.
pub fn _mm_andnot_ps(a: __m128, b: __m128) -> (r: __m128)
    ensures
        forall|i: int| 0 <= i < 4 ==> #[trigger] r@[i] == !a@[i] & b@[i],
{
    let x = a.lanes;
    let y = b.lanes;
    __m128 { lanes: [!x[0] & y[0], !x[1] & y[1], !x[2] & y[2], !x[3] & y[3]] }
}

// --- Comparisons ---

/// All ones in each lane where [`pred32`] `op` holds of `a` and `b`, else zero.
fn mask_lanes32(a: __m128, b: __m128, op: u8, fz: bool) -> (r: __m128)
    requires
        op < 8,
    ensures
        forall|i: int|
            0 <= i < 4 ==> #[trigger] r@[i] == if pred32(op as int, flush32(a@[i], fz), flush32(b@[i], fz)) {
                0xffff_ffffu32
            } else {
                0u32
            },
{
    let mut o = [0u32; 4];
    for i in 0..4
        invariant
            op < 8,
            forall|j: int|
                0 <= j < i ==> o[j] == if pred32(op as int, flush32(a@[j], fz), flush32(b@[j], fz)) {
                    0xffff_ffffu32
                } else {
                    0u32
                },
    {
        o[i] = if test32(op, flush_lane32(a.lanes[i], fz), flush_lane32(b.lanes[i], fz)) { 0xffff_ffff } else { 0 };
    }
    __m128 { lanes: o }
}

/// Lanes where `a == b` become all ones, else zero. Matches `_mm_cmpeq_ps`.
pub fn _mm_cmpeq_ps(a: __m128, b: __m128, fpcr: u64) -> (r: __m128)
    ensures
        forall|i: int| 0 <= i < 4 ==> #[trigger] r@[i] == if eq32(flush32(a@[i], fz_set(fpcr)), flush32(b@[i], fz_set(fpcr))) { 0xffff_ffffu32 } else { 0u32 },
{
    mask_lanes32(a, b, 0, (fpcr / FPCR_FZ_BIT) % 2 == 1)
}

/// Lanes where `a >= b` become all ones, else zero. Matches `_mm_cmpge_ps`.
pub fn _mm_cmpge_ps(a: __m128, b: __m128, fpcr: u64) -> (r: __m128)
    ensures
        forall|i: int| 0 <= i < 4 ==> #[trigger] r@[i] == if leq32(flush32(b@[i], fz_set(fpcr)), flush32(a@[i], fz_set(fpcr))) { 0xffff_ffffu32 } else { 0u32 },
{
    mask_lanes32(b, a, 2, (fpcr / FPCR_FZ_BIT) % 2 == 1)
}

/// Lanes where `a > b` become all ones, else zero. Matches `_mm_cmpgt_ps`.
pub fn _mm_cmpgt_ps(a: __m128, b: __m128, fpcr: u64) -> (r: __m128)
    ensures
        forall|i: int| 0 <= i < 4 ==> #[trigger] r@[i] == if lt32(flush32(b@[i], fz_set(fpcr)), flush32(a@[i], fz_set(fpcr))) { 0xffff_ffffu32 } else { 0u32 },
{
    mask_lanes32(b, a, 1, (fpcr / FPCR_FZ_BIT) % 2 == 1)
}

/// Lanes where `a <= b` become all ones, else zero. Matches `_mm_cmple_ps`.
pub fn _mm_cmple_ps(a: __m128, b: __m128, fpcr: u64) -> (r: __m128)
    ensures
        forall|i: int| 0 <= i < 4 ==> #[trigger] r@[i] == if leq32(flush32(a@[i], fz_set(fpcr)), flush32(b@[i], fz_set(fpcr))) { 0xffff_ffffu32 } else { 0u32 },
{
    mask_lanes32(a, b, 2, (fpcr / FPCR_FZ_BIT) % 2 == 1)
}

/// Lanes where `a < b` become all ones, else zero. Matches `_mm_cmplt_ps`.
pub fn _mm_cmplt_ps(a: __m128, b: __m128, fpcr: u64) -> (r: __m128)
    ensures
        forall|i: int| 0 <= i < 4 ==> #[trigger] r@[i] == if lt32(flush32(a@[i], fz_set(fpcr)), flush32(b@[i], fz_set(fpcr))) { 0xffff_ffffu32 } else { 0u32 },
{
    mask_lanes32(a, b, 1, (fpcr / FPCR_FZ_BIT) % 2 == 1)
}

/// Lanes where `a != b` (true when either is NaN) become all ones, else zero. Matches `_mm_cmpneq_ps`.
pub fn _mm_cmpneq_ps(a: __m128, b: __m128, fpcr: u64) -> (r: __m128)
    ensures
        forall|i: int| 0 <= i < 4 ==> #[trigger] r@[i] == if !eq32(flush32(a@[i], fz_set(fpcr)), flush32(b@[i], fz_set(fpcr))) { 0xffff_ffffu32 } else { 0u32 },
{
    mask_lanes32(a, b, 4, (fpcr / FPCR_FZ_BIT) % 2 == 1)
}

/// Lanes where `!(a >= b)` (true when either is NaN) become all ones, else zero. Matches `_mm_cmpnge_ps`.
pub fn _mm_cmpnge_ps(a: __m128, b: __m128, fpcr: u64) -> (r: __m128)
    ensures
        forall|i: int| 0 <= i < 4 ==> #[trigger] r@[i] == if !leq32(flush32(b@[i], fz_set(fpcr)), flush32(a@[i], fz_set(fpcr))) { 0xffff_ffffu32 } else { 0u32 },
{
    mask_lanes32(b, a, 6, (fpcr / FPCR_FZ_BIT) % 2 == 1)
}

/// Lanes where `!(a > b)` (true when either is NaN) become all ones, else zero. Matches `_mm_cmpngt_ps`.
pub fn _mm_cmpngt_ps(a: __m128, b: __m128, fpcr: u64) -> (r: __m128)
    ensures
        forall|i: int| 0 <= i < 4 ==> #[trigger] r@[i] == if !lt32(flush32(b@[i], fz_set(fpcr)), flush32(a@[i], fz_set(fpcr))) { 0xffff_ffffu32 } else { 0u32 },
{
    mask_lanes32(b, a, 5, (fpcr / FPCR_FZ_BIT) % 2 == 1)
}

/// Lanes where `!(a <= b)` (true when either is NaN) become all ones, else zero. Matches `_mm_cmpnle_ps`.
pub fn _mm_cmpnle_ps(a: __m128, b: __m128, fpcr: u64) -> (r: __m128)
    ensures
        forall|i: int| 0 <= i < 4 ==> #[trigger] r@[i] == if !leq32(flush32(a@[i], fz_set(fpcr)), flush32(b@[i], fz_set(fpcr))) { 0xffff_ffffu32 } else { 0u32 },
{
    mask_lanes32(a, b, 6, (fpcr / FPCR_FZ_BIT) % 2 == 1)
}

/// Lanes where `!(a < b)` (true when either is NaN) become all ones, else zero. Matches `_mm_cmpnlt_ps`.
pub fn _mm_cmpnlt_ps(a: __m128, b: __m128, fpcr: u64) -> (r: __m128)
    ensures
        forall|i: int| 0 <= i < 4 ==> #[trigger] r@[i] == if !lt32(flush32(a@[i], fz_set(fpcr)), flush32(b@[i], fz_set(fpcr))) { 0xffff_ffffu32 } else { 0u32 },
{
    mask_lanes32(a, b, 5, (fpcr / FPCR_FZ_BIT) % 2 == 1)
}

/// Lanes where neither lane is NaN become all ones, else zero. Matches `_mm_cmpord_ps`.
pub fn _mm_cmpord_ps(a: __m128, b: __m128, fpcr: u64) -> (r: __m128)
    ensures
        forall|i: int| 0 <= i < 4 ==> #[trigger] r@[i] == if !nan32(flush32(a@[i], fz_set(fpcr))) && !nan32(flush32(b@[i], fz_set(fpcr))) { 0xffff_ffffu32 } else { 0u32 },
{
    mask_lanes32(a, b, 7, (fpcr / FPCR_FZ_BIT) % 2 == 1)
}

/// Lanes where either lane is NaN become all ones, else zero. Matches `_mm_cmpunord_ps`.
pub fn _mm_cmpunord_ps(a: __m128, b: __m128, fpcr: u64) -> (r: __m128)
    ensures
        forall|i: int| 0 <= i < 4 ==> #[trigger] r@[i] == if nan32(flush32(a@[i], fz_set(fpcr))) || nan32(flush32(b@[i], fz_set(fpcr))) { 0xffff_ffffu32 } else { 0u32 },
{
    mask_lanes32(a, b, 3, (fpcr / FPCR_FZ_BIT) % 2 == 1)
}

/// Lane 0 becomes all ones where `a == b`, else zero; the other lanes come
/// from `a`. Matches `_mm_cmpeq_ss`.
pub fn _mm_cmpeq_ss(a: __m128, b: __m128, fpcr: u64) -> (r: __m128)
    ensures
        r@[0] == if eq32(flush32(a@[0], fz_set(fpcr)), flush32(b@[0], fz_set(fpcr))) { 0xffff_ffffu32 } else { 0u32 },
        forall|i: int| 1 <= i < 4 ==> #[trigger] r@[i] == a@[i],
{
    _mm_move_ss(a, _mm_cmpeq_ps(a, b, fpcr))
}

/// Lane 0 becomes all ones where `a >= b`, else zero; the other lanes come
/// from `a`. Matches `_mm_cmpge_ss`.
pub fn _mm_cmpge_ss(a: __m128, b: __m128, fpcr: u64) -> (r: __m128)
    ensures
        r@[0] == if leq32(flush32(b@[0], fz_set(fpcr)), flush32(a@[0], fz_set(fpcr))) { 0xffff_ffffu32 } else { 0u32 },
        forall|i: int| 1 <= i < 4 ==> #[trigger] r@[i] == a@[i],
{
    _mm_move_ss(a, _mm_cmpge_ps(a, b, fpcr))
}

/// Lane 0 becomes all ones where `a > b`, else zero; the other lanes come
/// from `a`. Matches `_mm_cmpgt_ss`.
pub fn _mm_cmpgt_ss(a: __m128, b: __m128, fpcr: u64) -> (r: __m128)
    ensures
        r@[0] == if lt32(flush32(b@[0], fz_set(fpcr)), flush32(a@[0], fz_set(fpcr))) { 0xffff_ffffu32 } else { 0u32 },
        forall|i: int| 1 <= i < 4 ==> #[trigger] r@[i] == a@[i],
{
    _mm_move_ss(a, _mm_cmpgt_ps(a, b, fpcr))
}

/// Lane 0 becomes all ones where `a <= b`, else zero; the other lanes come
/// from `a`. Matches `_mm_cmple_ss`.
pub fn _mm_cmple_ss(a: __m128, b: __m128, fpcr: u64) -> (r: __m128)
    ensures
        r@[0] == if leq32(flush32(a@[0], fz_set(fpcr)), flush32(b@[0], fz_set(fpcr))) { 0xffff_ffffu32 } else { 0u32 },
        forall|i: int| 1 <= i < 4 ==> #[trigger] r@[i] == a@[i],
{
    _mm_move_ss(a, _mm_cmple_ps(a, b, fpcr))
}

/// Lane 0 becomes all ones where `a < b`, else zero; the other lanes come
/// from `a`. Matches `_mm_cmplt_ss`.
pub fn _mm_cmplt_ss(a: __m128, b: __m128, fpcr: u64) -> (r: __m128)
    ensures
        r@[0] == if lt32(flush32(a@[0], fz_set(fpcr)), flush32(b@[0], fz_set(fpcr))) { 0xffff_ffffu32 } else { 0u32 },
        forall|i: int| 1 <= i < 4 ==> #[trigger] r@[i] == a@[i],
{
    _mm_move_ss(a, _mm_cmplt_ps(a, b, fpcr))
}

/// Lane 0 becomes all ones where `a != b` (true when either is NaN), else zero; the other lanes come
/// from `a`. Matches `_mm_cmpneq_ss`.
pub fn _mm_cmpneq_ss(a: __m128, b: __m128, fpcr: u64) -> (r: __m128)
    ensures
        r@[0] == if !eq32(flush32(a@[0], fz_set(fpcr)), flush32(b@[0], fz_set(fpcr))) { 0xffff_ffffu32 } else { 0u32 },
        forall|i: int| 1 <= i < 4 ==> #[trigger] r@[i] == a@[i],
{
    _mm_move_ss(a, _mm_cmpneq_ps(a, b, fpcr))
}

/// Lane 0 becomes all ones where `!(a >= b)` (true when either is NaN), else zero; the other lanes come
/// from `a`. Matches `_mm_cmpnge_ss`.
pub fn _mm_cmpnge_ss(a: __m128, b: __m128, fpcr: u64) -> (r: __m128)
    ensures
        r@[0] == if !leq32(flush32(b@[0], fz_set(fpcr)), flush32(a@[0], fz_set(fpcr))) { 0xffff_ffffu32 } else { 0u32 },
        forall|i: int| 1 <= i < 4 ==> #[trigger] r@[i] == a@[i],
{
    _mm_move_ss(a, _mm_cmpnge_ps(a, b, fpcr))
}

/// Lane 0 becomes all ones where `!(a > b)` (true when either is NaN), else zero; the other lanes come
/// from `a`. Matches `_mm_cmpngt_ss`.
pub fn _mm_cmpngt_ss(a: __m128, b: __m128, fpcr: u64) -> (r: __m128)
    ensures
        r@[0] == if !lt32(flush32(b@[0], fz_set(fpcr)), flush32(a@[0], fz_set(fpcr))) { 0xffff_ffffu32 } else { 0u32 },
        forall|i: int| 1 <= i < 4 ==> #[trigger] r@[i] == a@[i],
{
    _mm_move_ss(a, _mm_cmpngt_ps(a, b, fpcr))
}

/// Lane 0 becomes all ones where `!(a <= b)` (true when either is NaN), else zero; the other lanes come
/// from `a`. Matches `_mm_cmpnle_ss`.
pub fn _mm_cmpnle_ss(a: __m128, b: __m128, fpcr: u64) -> (r: __m128)
    ensures
        r@[0] == if !leq32(flush32(a@[0], fz_set(fpcr)), flush32(b@[0], fz_set(fpcr))) { 0xffff_ffffu32 } else { 0u32 },
        forall|i: int| 1 <= i < 4 ==> #[trigger] r@[i] == a@[i],
{
    _mm_move_ss(a, _mm_cmpnle_ps(a, b, fpcr))
}

/// Lane 0 becomes all ones where `!(a < b)` (true when either is NaN), else zero; the other lanes come
/// from `a`. Matches `_mm_cmpnlt_ss`.
pub fn _mm_cmpnlt_ss(a: __m128, b: __m128, fpcr: u64) -> (r: __m128)
    ensures
        r@[0] == if !lt32(flush32(a@[0], fz_set(fpcr)), flush32(b@[0], fz_set(fpcr))) { 0xffff_ffffu32 } else { 0u32 },
        forall|i: int| 1 <= i < 4 ==> #[trigger] r@[i] == a@[i],
{
    _mm_move_ss(a, _mm_cmpnlt_ps(a, b, fpcr))
}

/// Lane 0 becomes all ones where neither lane is NaN, else zero; the other lanes come
/// from `a`. Matches `_mm_cmpord_ss`.
pub fn _mm_cmpord_ss(a: __m128, b: __m128, fpcr: u64) -> (r: __m128)
    ensures
        r@[0] == if !nan32(flush32(a@[0], fz_set(fpcr))) && !nan32(flush32(b@[0], fz_set(fpcr))) { 0xffff_ffffu32 } else { 0u32 },
        forall|i: int| 1 <= i < 4 ==> #[trigger] r@[i] == a@[i],
{
    _mm_move_ss(a, _mm_cmpord_ps(a, b, fpcr))
}

/// Lane 0 becomes all ones where either lane is NaN, else zero; the other lanes come
/// from `a`. Matches `_mm_cmpunord_ss`.
pub fn _mm_cmpunord_ss(a: __m128, b: __m128, fpcr: u64) -> (r: __m128)
    ensures
        r@[0] == if nan32(flush32(a@[0], fz_set(fpcr))) || nan32(flush32(b@[0], fz_set(fpcr))) { 0xffff_ffffu32 } else { 0u32 },
        forall|i: int| 1 <= i < 4 ==> #[trigger] r@[i] == a@[i],
{
    _mm_move_ss(a, _mm_cmpunord_ps(a, b, fpcr))
}

/// Compare lane 0 with `a == b`, returning 1 or 0. NaN gives 0. Matches `_mm_comieq_ss`.
pub fn _mm_comieq_ss(a: __m128, b: __m128, fpcr: u64) -> (r: i32)
    ensures
        r == if eq32(flush32(a@[0], fz_set(fpcr)), flush32(b@[0], fz_set(fpcr))) { 1i32 } else { 0i32 },
{
    let fz = (fpcr / FPCR_FZ_BIT) % 2 == 1;
    if test32(0, flush_lane32(a.lanes[0], fz), flush_lane32(b.lanes[0], fz)) {
        1
    } else {
        0
    }
}

/// Compare lane 0 with `a >= b`, returning 1 or 0. NaN gives 0. Matches `_mm_comige_ss`.
pub fn _mm_comige_ss(a: __m128, b: __m128, fpcr: u64) -> (r: i32)
    ensures
        r == if leq32(flush32(b@[0], fz_set(fpcr)), flush32(a@[0], fz_set(fpcr))) { 1i32 } else { 0i32 },
{
    let fz = (fpcr / FPCR_FZ_BIT) % 2 == 1;
    if test32(2, flush_lane32(b.lanes[0], fz), flush_lane32(a.lanes[0], fz)) {
        1
    } else {
        0
    }
}

/// Compare lane 0 with `a > b`, returning 1 or 0. NaN gives 0. Matches `_mm_comigt_ss`.
pub fn _mm_comigt_ss(a: __m128, b: __m128, fpcr: u64) -> (r: i32)
    ensures
        r == if lt32(flush32(b@[0], fz_set(fpcr)), flush32(a@[0], fz_set(fpcr))) { 1i32 } else { 0i32 },
{
    let fz = (fpcr / FPCR_FZ_BIT) % 2 == 1;
    if test32(1, flush_lane32(b.lanes[0], fz), flush_lane32(a.lanes[0], fz)) {
        1
    } else {
        0
    }
}

/// Compare lane 0 with `a <= b`, returning 1 or 0. NaN gives 0. Matches `_mm_comile_ss`.
pub fn _mm_comile_ss(a: __m128, b: __m128, fpcr: u64) -> (r: i32)
    ensures
        r == if leq32(flush32(a@[0], fz_set(fpcr)), flush32(b@[0], fz_set(fpcr))) { 1i32 } else { 0i32 },
{
    let fz = (fpcr / FPCR_FZ_BIT) % 2 == 1;
    if test32(2, flush_lane32(a.lanes[0], fz), flush_lane32(b.lanes[0], fz)) {
        1
    } else {
        0
    }
}

/// Compare lane 0 with `a < b`, returning 1 or 0. NaN gives 0. Matches `_mm_comilt_ss`.
pub fn _mm_comilt_ss(a: __m128, b: __m128, fpcr: u64) -> (r: i32)
    ensures
        r == if lt32(flush32(a@[0], fz_set(fpcr)), flush32(b@[0], fz_set(fpcr))) { 1i32 } else { 0i32 },
{
    let fz = (fpcr / FPCR_FZ_BIT) % 2 == 1;
    if test32(1, flush_lane32(a.lanes[0], fz), flush_lane32(b.lanes[0], fz)) {
        1
    } else {
        0
    }
}

/// Compare lane 0 with `a != b`, returning 1 or 0. NaN gives 1. Matches `_mm_comineq_ss`.
pub fn _mm_comineq_ss(a: __m128, b: __m128, fpcr: u64) -> (r: i32)
    ensures
        r == if !eq32(flush32(a@[0], fz_set(fpcr)), flush32(b@[0], fz_set(fpcr))) { 1i32 } else { 0i32 },
{
    let fz = (fpcr / FPCR_FZ_BIT) % 2 == 1;
    if test32(4, flush_lane32(a.lanes[0], fz), flush_lane32(b.lanes[0], fz)) {
        1
    } else {
        0
    }
}

/// Same result as [`_mm_comieq_ss`]. Matches `_mm_ucomieq_ss`.
pub fn _mm_ucomieq_ss(a: __m128, b: __m128, fpcr: u64) -> (r: i32)
    ensures
        r == if eq32(flush32(a@[0], fz_set(fpcr)), flush32(b@[0], fz_set(fpcr))) { 1i32 } else { 0i32 },
{
    _mm_comieq_ss(a, b, fpcr)
}

/// Same result as [`_mm_comige_ss`]. Matches `_mm_ucomige_ss`.
pub fn _mm_ucomige_ss(a: __m128, b: __m128, fpcr: u64) -> (r: i32)
    ensures
        r == if leq32(flush32(b@[0], fz_set(fpcr)), flush32(a@[0], fz_set(fpcr))) { 1i32 } else { 0i32 },
{
    _mm_comige_ss(a, b, fpcr)
}

/// Same result as [`_mm_comigt_ss`]. Matches `_mm_ucomigt_ss`.
pub fn _mm_ucomigt_ss(a: __m128, b: __m128, fpcr: u64) -> (r: i32)
    ensures
        r == if lt32(flush32(b@[0], fz_set(fpcr)), flush32(a@[0], fz_set(fpcr))) { 1i32 } else { 0i32 },
{
    _mm_comigt_ss(a, b, fpcr)
}

/// Same result as [`_mm_comile_ss`]. Matches `_mm_ucomile_ss`.
pub fn _mm_ucomile_ss(a: __m128, b: __m128, fpcr: u64) -> (r: i32)
    ensures
        r == if leq32(flush32(a@[0], fz_set(fpcr)), flush32(b@[0], fz_set(fpcr))) { 1i32 } else { 0i32 },
{
    _mm_comile_ss(a, b, fpcr)
}

/// Same result as [`_mm_comilt_ss`]. Matches `_mm_ucomilt_ss`.
pub fn _mm_ucomilt_ss(a: __m128, b: __m128, fpcr: u64) -> (r: i32)
    ensures
        r == if lt32(flush32(a@[0], fz_set(fpcr)), flush32(b@[0], fz_set(fpcr))) { 1i32 } else { 0i32 },
{
    _mm_comilt_ss(a, b, fpcr)
}

/// Same result as [`_mm_comineq_ss`]. Matches `_mm_ucomineq_ss`.
pub fn _mm_ucomineq_ss(a: __m128, b: __m128, fpcr: u64) -> (r: i32)
    ensures
        r == if !eq32(flush32(a@[0], fz_set(fpcr)), flush32(b@[0], fz_set(fpcr))) { 1i32 } else { 0i32 },
{
    _mm_comineq_ss(a, b, fpcr)
}

// --- Move / shuffle / unpack ---

/// Copy lane 0 from `b`, lanes 1-3 from `a`. Matches `_mm_move_ss`.
pub fn _mm_move_ss(a: __m128, b: __m128) -> (r: __m128)
    ensures
        r@[0] == b@[0],
        forall|i: int| 1 <= i < 4 ==> #[trigger] r@[i] == a@[i],
{
    let x = a.lanes;
    __m128 { lanes: [b.lanes[0], x[1], x[2], x[3]] }
}

/// Lanes 0-1 from the high half of `b`, lanes 2-3 from the high half of `a`.
/// Matches `_mm_movehl_ps`.
pub fn _mm_movehl_ps(a: __m128, b: __m128) -> (r: __m128)
    ensures
        r@ == seq![b@[2], b@[3], a@[2], a@[3]],
{
    __m128 { lanes: [b.lanes[2], b.lanes[3], a.lanes[2], a.lanes[3]] }
}

/// Lanes 0-1 from the low half of `a`, lanes 2-3 from the low half of `b`.
/// Matches `_mm_movelh_ps`.
pub fn _mm_movelh_ps(a: __m128, b: __m128) -> (r: __m128)
    ensures
        r@ == seq![a@[0], a@[1], b@[0], b@[1]],
{
    __m128 { lanes: [a.lanes[0], a.lanes[1], b.lanes[0], b.lanes[1]] }
}

/// Interleave the high two lanes of `a` and `b`. Matches `_mm_unpackhi_ps`.
pub fn _mm_unpackhi_ps(a: __m128, b: __m128) -> (r: __m128)
    ensures
        r@ == seq![a@[2], b@[2], a@[3], b@[3]],
{
    __m128 { lanes: [a.lanes[2], b.lanes[2], a.lanes[3], b.lanes[3]] }
}

/// Interleave the low two lanes of `a` and `b`. Matches `_mm_unpacklo_ps`.
pub fn _mm_unpacklo_ps(a: __m128, b: __m128) -> (r: __m128)
    ensures
        r@ == seq![a@[0], b@[0], a@[1], b@[1]],
{
    __m128 { lanes: [a.lanes[0], b.lanes[0], a.lanes[1], b.lanes[1]] }
}

/// Shuffle four lanes: lanes 0-1 come from `a` and lanes 2-3 from `b`, each
/// picked by its 2-bit field of `imm`. Matches `_mm_shuffle_ps`.
pub fn _mm_shuffle_ps(a: __m128, b: __m128, imm: i32) -> (r: __m128)
    requires
        0 <= imm < 256,
    ensures
        r@ == seq![
            a@[field2(imm as int, 0)],
            a@[field2(imm as int, 1)],
            b@[field2(imm as int, 2)],
            b@[field2(imm as int, 3)],
        ],
{
    let s = crate::sse2::selectors(imm);
    __m128 { lanes: [a.lanes[s[0]], a.lanes[s[1]], b.lanes[s[2]], b.lanes[s[3]]] }
}

// --- Movemask ---

/// Gather the sign bit of each lane: bit `i` of the result is the sign of
/// lane `i`. Matches `_mm_movemask_ps`.
pub fn _mm_movemask_ps(a: __m128) -> (r: i32)
    ensures
        r == bit_mask(|i: int| a@[i] >= 0x8000_0000u32, 4),
{
    let mut acc: u32 = 0;
    let mut bit: u32 = 1;
    proof {
        lemma2_to64();
    }
    for i in 0..4
        invariant
            acc == bit_mask(|i: int| a@[i] >= 0x8000_0000u32, i as nat),
            bit == pow2i(i as int),
            acc < bit,
            bit <= 16,
    {
        proof {
            lemma_pow2_unfold((i + 1) as nat);
            lemma2_to64();
        }
        if a.lanes[i] >= 0x8000_0000 {
            acc = acc + bit;
        }
        bit = bit * 2;
    }
    acc as i32
}

// --- Set ---

/// Return a zeroed vector (every lane `+0.0`). Matches `_mm_setzero_ps`.
pub fn _mm_setzero_ps() -> (r: __m128)
    ensures
        forall|i: int| 0 <= i < 4 ==> #[trigger] r@[i] == 0,
{
    __m128 { lanes: [0u32; 4] }
}


// --- Minimum and maximum ---

/// Packed maximum of four `f32` lanes: a NaN operand propagates (a signalling
/// NaN first, then the NaN of `a`), and `+0.0` is above `-0.0`. Denormal
/// operands read as zero when the FZ bit of `fpcr` is set; NaN results are the
/// default NaN when its DN bit is set. Matches `_mm_max_ps`.
pub fn _mm_max_ps(a: __m128, b: __m128, fpcr: u64) -> (r: __m128)
    ensures
        forall|i: int|
            0 <= i < 4 ==> #[trigger] r@[i] == fmax32(a@[i], b@[i], fz_set(fpcr), dn_set(fpcr)),
{
    let fz = (fpcr / FPCR_FZ_BIT) % 2 == 1;
    let dn = (fpcr / FPCR_DN_BIT) % 2 == 1;
    let mut v = [0u32; 4];
    for i in 0..4
        invariant
            fz == fz_set(fpcr),
            dn == dn_set(fpcr),
            forall|j: int| 0 <= j < i ==> v[j] == fmax32(a@[j], b@[j], fz_set(fpcr), dn_set(fpcr)),
    {
        v[i] = minmax_lane32(a.lanes[i], b.lanes[i], true, fz, dn);
    }
    __m128 { lanes: v }
}

/// Packed minimum of four `f32` lanes: a NaN operand propagates (a signalling
/// NaN first, then the NaN of `a`), and `-0.0` is below `+0.0`. Denormal
/// operands read as zero when the FZ bit of `fpcr` is set; NaN results are the
/// default NaN when its DN bit is set. Matches `_mm_min_ps`.
pub fn _mm_min_ps(a: __m128, b: __m128, fpcr: u64) -> (r: __m128)
    ensures
        forall|i: int|
            0 <= i < 4 ==> #[trigger] r@[i] == fmin32(a@[i], b@[i], fz_set(fpcr), dn_set(fpcr)),
{
    let fz = (fpcr / FPCR_FZ_BIT) % 2 == 1;
    let dn = (fpcr / FPCR_DN_BIT) % 2 == 1;
    let mut v = [0u32; 4];
    for i in 0..4
        invariant
            fz == fz_set(fpcr),
            dn == dn_set(fpcr),
            forall|j: int| 0 <= j < i ==> v[j] == fmin32(a@[j], b@[j], fz_set(fpcr), dn_set(fpcr)),
    {
        v[i] = minmax_lane32(a.lanes[i], b.lanes[i], false, fz, dn);
    }
    __m128 { lanes: v }
}

/// Maximum of lane 0 as in [`_mm_max_ps`]; lanes 1-3 come from `a`.
/// Matches `_mm_max_ss`.
pub fn _mm_max_ss(a: __m128, b: __m128, fpcr: u64) -> (r: __m128)
    ensures
        r@[0] == fmax32(a@[0], b@[0], fz_set(fpcr), dn_set(fpcr)),
        forall|i: int| 1 <= i < 4 ==> #[trigger] r@[i] == a@[i],
{
    _mm_move_ss(a, _mm_max_ps(a, b, fpcr))
}

/// Minimum of lane 0 as in [`_mm_min_ps`]; lanes 1-3 come from `a`.
/// Matches `_mm_min_ss`.
pub fn _mm_min_ss(a: __m128, b: __m128, fpcr: u64) -> (r: __m128)
    ensures
        r@[0] == fmin32(a@[0], b@[0], fz_set(fpcr), dn_set(fpcr)),
        forall|i: int| 1 <= i < 4 ==> #[trigger] r@[i] == a@[i],
{
    _mm_move_ss(a, _mm_min_ps(a, b, fpcr))
}


// --- Arithmetic ---

/// Add four `f32` lanes, `a + b`, each rounded under the rounding mode of
/// `fpcr`, with denormals read as zero when its FZ bit is set and NaN results
/// the default NaN when its DN bit is set. Matches `_mm_add_ps`.
pub fn _mm_add_ps(a: __m128, b: __m128, fpcr: u64) -> (r: __m128)
    ensures
        forall|i: int| 0 <= i < 4 ==> #[trigger] r@[i] == fadd32(a@[i], b@[i], false, round_code(fpcr), fz_set(fpcr), dn_set(fpcr)),
{
    let code = rounding_code(fpcr);
    let fz = (fpcr / FPCR_FZ_BIT) % 2 == 1;
    let dn = (fpcr / FPCR_DN_BIT) % 2 == 1;
    let mut v = [0u32; 4];
    for i in 0..4
        invariant
            code == round_code(fpcr),
            code < 4,
            fz == fz_set(fpcr),
            dn == dn_set(fpcr),
            forall|j: int| 0 <= j < i ==> v[j] == fadd32(a@[j], b@[j], false, round_code(fpcr), fz_set(fpcr), dn_set(fpcr)),
    {
        v[i] = add_lane32(a.lanes[i], b.lanes[i], false, code, fz, dn);
    }
    __m128 { lanes: v }
}

/// Add lane 0 as [`_mm_add_ps`] does; lanes 1-3 come from `a`.
/// Matches `_mm_add_ss`.
pub fn _mm_add_ss(a: __m128, b: __m128, fpcr: u64) -> (r: __m128)
    ensures
        r@[0] == fadd32(a@[0], b@[0], false, round_code(fpcr), fz_set(fpcr), dn_set(fpcr)),
        forall|i: int| 1 <= i < 4 ==> #[trigger] r@[i] == a@[i],
{
    _mm_move_ss(a, _mm_add_ps(a, b, fpcr))
}

/// Subtract four `f32` lanes, `a - b`, each rounded under the rounding mode of
/// `fpcr`, with denormals read as zero when its FZ bit is set and NaN results
/// the default NaN when its DN bit is set. Matches `_mm_sub_ps`.
pub fn _mm_sub_ps(a: __m128, b: __m128, fpcr: u64) -> (r: __m128)
    ensures
        forall|i: int| 0 <= i < 4 ==> #[trigger] r@[i] == fadd32(a@[i], b@[i], true, round_code(fpcr), fz_set(fpcr), dn_set(fpcr)),
{
    let code = rounding_code(fpcr);
    let fz = (fpcr / FPCR_FZ_BIT) % 2 == 1;
    let dn = (fpcr / FPCR_DN_BIT) % 2 == 1;
    let mut v = [0u32; 4];
    for i in 0..4
        invariant
            code == round_code(fpcr),
            code < 4,
            fz == fz_set(fpcr),
            dn == dn_set(fpcr),
            forall|j: int| 0 <= j < i ==> v[j] == fadd32(a@[j], b@[j], true, round_code(fpcr), fz_set(fpcr), dn_set(fpcr)),
    {
        v[i] = add_lane32(a.lanes[i], b.lanes[i], true, code, fz, dn);
    }
    __m128 { lanes: v }
}

/// Subtract lane 0 as [`_mm_sub_ps`] does; lanes 1-3 come from `a`.
/// Matches `_mm_sub_ss`.
pub fn _mm_sub_ss(a: __m128, b: __m128, fpcr: u64) -> (r: __m128)
    ensures
        r@[0] == fadd32(a@[0], b@[0], true, round_code(fpcr), fz_set(fpcr), dn_set(fpcr)),
        forall|i: int| 1 <= i < 4 ==> #[trigger] r@[i] == a@[i],
{
    _mm_move_ss(a, _mm_sub_ps(a, b, fpcr))
}

/// Multiply four `f32` lanes, `a * b`, each rounded under the rounding mode of
/// `fpcr`, with denormals read as zero when its FZ bit is set and NaN results
/// the default NaN when its DN bit is set. Matches `_mm_mul_ps`.
pub fn _mm_mul_ps(a: __m128, b: __m128, fpcr: u64) -> (r: __m128)
    ensures
        forall|i: int| 0 <= i < 4 ==> #[trigger] r@[i] == fmul32(a@[i], b@[i], round_code(fpcr), fz_set(fpcr), dn_set(fpcr)),
{
    let code = rounding_code(fpcr);
    let fz = (fpcr / FPCR_FZ_BIT) % 2 == 1;
    let dn = (fpcr / FPCR_DN_BIT) % 2 == 1;
    let mut v = [0u32; 4];
    for i in 0..4
        invariant
            code == round_code(fpcr),
            code < 4,
            fz == fz_set(fpcr),
            dn == dn_set(fpcr),
            forall|j: int| 0 <= j < i ==> v[j] == fmul32(a@[j], b@[j], round_code(fpcr), fz_set(fpcr), dn_set(fpcr)),
    {
        v[i] = mul_lane32(a.lanes[i], b.lanes[i], code, fz, dn);
    }
    __m128 { lanes: v }
}

/// Multiply lane 0 as [`_mm_mul_ps`] does; lanes 1-3 come from `a`.
/// Matches `_mm_mul_ss`.
pub fn _mm_mul_ss(a: __m128, b: __m128, fpcr: u64) -> (r: __m128)
    ensures
        r@[0] == fmul32(a@[0], b@[0], round_code(fpcr), fz_set(fpcr), dn_set(fpcr)),
        forall|i: int| 1 <= i < 4 ==> #[trigger] r@[i] == a@[i],
{
    _mm_move_ss(a, _mm_mul_ps(a, b, fpcr))
}

/// Divide four `f32` lanes, `a / b`, each rounded under the rounding mode of
/// `fpcr`, with denormals read as zero when its FZ bit is set and NaN results
/// the default NaN when its DN bit is set. Matches `_mm_div_ps`.
pub fn _mm_div_ps(a: __m128, b: __m128, fpcr: u64) -> (r: __m128)
    ensures
        forall|i: int| 0 <= i < 4 ==> #[trigger] r@[i] == fdiv32(a@[i], b@[i], round_code(fpcr), fz_set(fpcr), dn_set(fpcr)),
{
    let code = rounding_code(fpcr);
    let fz = (fpcr / FPCR_FZ_BIT) % 2 == 1;
    let dn = (fpcr / FPCR_DN_BIT) % 2 == 1;
    let mut v = [0u32; 4];
    for i in 0..4
        invariant
            code == round_code(fpcr),
            code < 4,
            fz == fz_set(fpcr),
            dn == dn_set(fpcr),
            forall|j: int| 0 <= j < i ==> v[j] == fdiv32(a@[j], b@[j], round_code(fpcr), fz_set(fpcr), dn_set(fpcr)),
    {
        v[i] = div_lane32(a.lanes[i], b.lanes[i], code, fz, dn);
    }
    __m128 { lanes: v }
}

/// Divide lane 0 as [`_mm_div_ps`] does; lanes 1-3 come from `a`.
/// Matches `_mm_div_ss`.
pub fn _mm_div_ss(a: __m128, b: __m128, fpcr: u64) -> (r: __m128)
    ensures
        r@[0] == fdiv32(a@[0], b@[0], round_code(fpcr), fz_set(fpcr), dn_set(fpcr)),
        forall|i: int| 1 <= i < 4 ==> #[trigger] r@[i] == a@[i],
{
    _mm_move_ss(a, _mm_div_ps(a, b, fpcr))
}

/// Square root of four `f32` lanes, each rounded under the rounding mode of
/// `fpcr`, with denormals read as zero when its FZ bit is set and NaN results
/// the default NaN when its DN bit is set. Matches `_mm_sqrt_ps`.
pub fn _mm_sqrt_ps(a: __m128, fpcr: u64) -> (r: __m128)
    ensures
        forall|i: int|
            0 <= i < 4 ==> #[trigger] r@[i] == fsqrt32(a@[i], round_code(fpcr), fz_set(fpcr), dn_set(fpcr)),
{
    let code = rounding_code(fpcr);
    let fz = (fpcr / FPCR_FZ_BIT) % 2 == 1;
    let dn = (fpcr / FPCR_DN_BIT) % 2 == 1;
    let mut v = [0u32; 4];
    for i in 0..4
        invariant
            code == round_code(fpcr),
            code < 4,
            fz == fz_set(fpcr),
            dn == dn_set(fpcr),
            forall|j: int|
                0 <= j < i ==> v[j] == fsqrt32(a@[j], round_code(fpcr), fz_set(fpcr), dn_set(fpcr)),
    {
        v[i] = sqrt_lane32(a.lanes[i], code, fz, dn);
    }
    __m128 { lanes: v }
}

/// Square root of lane 0 as [`_mm_sqrt_ps`] takes it; lanes 1-3 come from `a`.
/// Matches `_mm_sqrt_ss`.
pub fn _mm_sqrt_ss(a: __m128, fpcr: u64) -> (r: __m128)
    ensures
        r@[0] == fsqrt32(a@[0], round_code(fpcr), fz_set(fpcr), dn_set(fpcr)),
        forall|i: int| 1 <= i < 4 ==> #[trigger] r@[i] == a@[i],
{
    _mm_move_ss(a, _mm_sqrt_ps(a, fpcr))
}

/// The reciprocal-square-root estimate `est` of `a`, with each lane where `a`
/// is a zero replaced by the infinity of that zero's sign, as x86 gives for
/// the reciprocal square root of zero; the other lanes of `est` are kept.
pub fn rsqrt_zero_fixup(a: __m128, est: __m128) -> (r: __m128)
    ensures
        forall|i: int|
            0 <= i < 4 ==> #[trigger] r@[i] == if mag32(a@[i]) == 0 {
                if a@[i] >= 0x8000_0000 { 0xff80_0000u32 } else { 0x7f80_0000u32 }
            } else {
                est@[i]
            },
{
    let mut e = est.lanes;
    for i in 0..4
        invariant
            forall|j: int|
                0 <= j < i ==> e[j] == if mag32(a@[j]) == 0 {
                    if a@[j] >= 0x8000_0000 { 0xff80_0000u32 } else { 0x7f80_0000u32 }
                } else {
                    est@[j]
                },
            forall|j: int| i <= j < 4 ==> e[j] == est@[j],
    {
        let x = a.lanes[i];
        if x % 0x8000_0000 == 0 {
            e[i] = if x >= 0x8000_0000 { 0xff80_0000 } else { 0x7f80_0000 };
        }
    }
    __m128 { lanes: e }
}
} // verus!
