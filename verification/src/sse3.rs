//! SSE3 intrinsics: horizontal and alternating add and subtract, and lane
//! duplications.
use crate::fparith::{add_lane64, fadd32, fadd64, fadd_finite32, inf32, units32};
use crate::ieee::{exp32, flush32, mag32, nan32, neg32, scale32, sig32};
use crate::mxcsr::{dn_set, fz_set, FPCR_DN_BIT, FPCR_FZ_BIT};
use crate::sse::{_mm_add_ps, _mm_sub_ps};
use crate::sse2::{_mm_add_pd, _mm_sub_pd, round_code, rounding_code};
use crate::types::{__m128, __m128d};
use vstd::prelude::*;

verus! {

/// Duplicate the low `f64` lane into both lanes. Matches `_mm_movedup_pd`.
pub fn _mm_movedup_pd(a: __m128d) -> (r: __m128d)
    ensures
        r@ == seq![a@[0], a@[0]],
{
    __m128d { lanes: [a.lanes[0], a.lanes[0]] }
}

/// Duplicate the odd `f32` lanes: `a1, a1, a3, a3`. Matches `_mm_movehdup_ps`.
pub fn _mm_movehdup_ps(a: __m128) -> (r: __m128)
    ensures
        r@ == seq![a@[1], a@[1], a@[3], a@[3]],
{
    __m128 { lanes: [a.lanes[1], a.lanes[1], a.lanes[3], a.lanes[3]] }
}

/// Duplicate the even `f32` lanes: `a0, a0, a2, a2`. Matches `_mm_moveldup_ps`.
pub fn _mm_moveldup_ps(a: __m128) -> (r: __m128)
    ensures
        r@ == seq![a@[0], a@[0], a@[2], a@[2]],
{
    __m128 { lanes: [a.lanes[0], a.lanes[0], a.lanes[2], a.lanes[2]] }
}


// --- Horizontal and alternating arithmetic ---

/// Sums of adjacent `f32` pairs, `a0+a1, a2+a3, b0+b1, b2+b3`, each rounded
/// as [`crate::sse::_mm_add_ps`] rounds. Matches `_mm_hadd_ps`.
pub fn _mm_hadd_ps(a: __m128, b: __m128, fpcr: u64) -> (r: __m128)
    ensures
        r@[0] == fadd32(a@[0], a@[1], false, round_code(fpcr), fz_set(fpcr), dn_set(fpcr)),
        r@[1] == fadd32(a@[2], a@[3], false, round_code(fpcr), fz_set(fpcr), dn_set(fpcr)),
        r@[2] == fadd32(b@[0], b@[1], false, round_code(fpcr), fz_set(fpcr), dn_set(fpcr)),
        r@[3] == fadd32(b@[2], b@[3], false, round_code(fpcr), fz_set(fpcr), dn_set(fpcr)),
{
    let even = __m128 { lanes: [a.lanes[0], a.lanes[2], b.lanes[0], b.lanes[2]] };
    let odd = __m128 { lanes: [a.lanes[1], a.lanes[3], b.lanes[1], b.lanes[3]] };
    _mm_add_ps(even, odd, fpcr)
}

/// Differences of adjacent `f32` pairs, `a0-a1, a2-a3, b0-b1, b2-b3`, each
/// rounded as [`crate::sse::_mm_sub_ps`] rounds. Matches `_mm_hsub_ps`.
pub fn _mm_hsub_ps(a: __m128, b: __m128, fpcr: u64) -> (r: __m128)
    ensures
        r@[0] == fadd32(a@[0], a@[1], true, round_code(fpcr), fz_set(fpcr), dn_set(fpcr)),
        r@[1] == fadd32(a@[2], a@[3], true, round_code(fpcr), fz_set(fpcr), dn_set(fpcr)),
        r@[2] == fadd32(b@[0], b@[1], true, round_code(fpcr), fz_set(fpcr), dn_set(fpcr)),
        r@[3] == fadd32(b@[2], b@[3], true, round_code(fpcr), fz_set(fpcr), dn_set(fpcr)),
{
    let even = __m128 { lanes: [a.lanes[0], a.lanes[2], b.lanes[0], b.lanes[2]] };
    let odd = __m128 { lanes: [a.lanes[1], a.lanes[3], b.lanes[1], b.lanes[3]] };
    _mm_sub_ps(even, odd, fpcr)
}

/// The `f32` lane `b` with its sign bit flipped.
pub open spec fn negate32(b: u32) -> u32 {
    if b >= 0x8000_0000 { (b - 0x8000_0000) as u32 } else { (b + 0x8000_0000) as u32 }
}

fn negate_lane32(b: u32) -> (r: u32)
    ensures
        r == negate32(b),
{
    if b >= 0x8000_0000 { b - 0x8000_0000 } else { b + 0x8000_0000 }
}

/// `a0-b0, a1+b1, a2-b2, a3+b3`: the sign bits of the even lanes of `b` are
/// flipped and the lanes added as [`crate::sse::_mm_add_ps`] adds, which for
/// an even lane of `b` that is not a NaN is its difference as
/// [`crate::sse::_mm_sub_ps`] computes it.
/// Matches `_mm_addsub_ps`.
pub fn _mm_addsub_ps(a: __m128, b: __m128, fpcr: u64) -> (r: __m128)
    ensures
        r@[0] == fadd32(a@[0], negate32(b@[0]), false, round_code(fpcr), fz_set(fpcr), dn_set(fpcr)),
        r@[1] == fadd32(a@[1], b@[1], false, round_code(fpcr), fz_set(fpcr), dn_set(fpcr)),
        r@[2] == fadd32(a@[2], negate32(b@[2]), false, round_code(fpcr), fz_set(fpcr), dn_set(fpcr)),
        r@[3] == fadd32(a@[3], b@[3], false, round_code(fpcr), fz_set(fpcr), dn_set(fpcr)),
        !nan32(b@[0]) ==> r@[0] == fadd32(a@[0], b@[0], true, round_code(fpcr), fz_set(fpcr), dn_set(fpcr)),
        !nan32(b@[2]) ==> r@[2] == fadd32(a@[2], b@[2], true, round_code(fpcr), fz_set(fpcr), dn_set(fpcr)),
{
    let flipped = __m128 {
        lanes: [negate_lane32(b.lanes[0]), b.lanes[1], negate_lane32(b.lanes[2]), b.lanes[3]],
    };
    proof {
        if !nan32(b@[0]) {
            law_add_negated_is_sub32(a@[0], b@[0], round_code(fpcr), fz_set(fpcr), dn_set(fpcr));
        }
        if !nan32(b@[2]) {
            law_add_negated_is_sub32(a@[2], b@[2], round_code(fpcr), fz_set(fpcr), dn_set(fpcr));
        }
    }
    _mm_add_ps(a, flipped, fpcr)
}

/// `a0+a1, b0+b1`, each rounded as [`crate::sse2::_mm_add_pd`] rounds.
/// Matches `_mm_hadd_pd`.
pub fn _mm_hadd_pd(a: __m128d, b: __m128d, fpcr: u64) -> (r: __m128d)
    ensures
        r@[0] == fadd64(a@[0], a@[1], false, round_code(fpcr), fz_set(fpcr), dn_set(fpcr)),
        r@[1] == fadd64(b@[0], b@[1], false, round_code(fpcr), fz_set(fpcr), dn_set(fpcr)),
{
    let even = __m128d { lanes: [a.lanes[0], b.lanes[0]] };
    let odd = __m128d { lanes: [a.lanes[1], b.lanes[1]] };
    _mm_add_pd(even, odd, fpcr)
}

/// `a0-a1, b0-b1`, each rounded as [`crate::sse2::_mm_sub_pd`] rounds.
/// Matches `_mm_hsub_pd`.
pub fn _mm_hsub_pd(a: __m128d, b: __m128d, fpcr: u64) -> (r: __m128d)
    ensures
        r@[0] == fadd64(a@[0], a@[1], true, round_code(fpcr), fz_set(fpcr), dn_set(fpcr)),
        r@[1] == fadd64(b@[0], b@[1], true, round_code(fpcr), fz_set(fpcr), dn_set(fpcr)),
{
    let even = __m128d { lanes: [a.lanes[0], b.lanes[0]] };
    let odd = __m128d { lanes: [a.lanes[1], b.lanes[1]] };
    _mm_sub_pd(even, odd, fpcr)
}

/// `a0-b0, a1+b1`, each rounded as [`crate::sse2::_mm_add_pd`] rounds.
/// Matches `_mm_addsub_pd`.
pub fn _mm_addsub_pd(a: __m128d, b: __m128d, fpcr: u64) -> (r: __m128d)
    ensures
        r@[0] == fadd64(a@[0], b@[0], true, round_code(fpcr), fz_set(fpcr), dn_set(fpcr)),
        r@[1] == fadd64(a@[1], b@[1], false, round_code(fpcr), fz_set(fpcr), dn_set(fpcr)),
{
    let code = rounding_code(fpcr);
    let fz = (fpcr / FPCR_FZ_BIT) % 2 == 1;
    let dn = (fpcr / FPCR_DN_BIT) % 2 == 1;
    __m128d {
        lanes: [
            add_lane64(a.lanes[0], b.lanes[0], true, code, fz, dn),
            add_lane64(a.lanes[1], b.lanes[1], false, code, fz, dn),
        ],
    }
}

// --- Laws of the sign flip ---

proof fn lemma_negate32_fields(b: u32)
    ensures
        exp32(negate32(b)) == exp32(b),
        negate32(b) as int % 0x80_0000 == b as int % 0x80_0000,
        mag32(negate32(b)) == mag32(b),
        neg32(negate32(b)) == !neg32(b),
{
    let n = negate32(b) as int;
    let q = b as int / 0x80_0000;
    let r = b as int % 0x80_0000;
    vstd::arithmetic::div_mod::lemma_fundamental_div_mod(b as int, 0x80_0000);
    if b >= 0x8000_0000 {
        assert(n == b - 0x8000_0000);
        vstd::arithmetic::div_mod::lemma_fundamental_div_mod_converse(n, 0x80_0000, q - 0x100, r);
        vstd::arithmetic::div_mod::lemma_fundamental_div_mod_converse(q, 0x100, 1, q - 0x100);
        vstd::arithmetic::div_mod::lemma_fundamental_div_mod_converse(q - 0x100, 0x100, 0, q - 0x100);
        vstd::arithmetic::div_mod::lemma_fundamental_div_mod_converse(b as int, 0x8000_0000, 1, n);
        vstd::arithmetic::div_mod::lemma_fundamental_div_mod_converse(n, 0x8000_0000, 0, n);
    } else {
        assert(n == b + 0x8000_0000);
        vstd::arithmetic::div_mod::lemma_fundamental_div_mod_converse(n, 0x80_0000, q + 0x100, r);
        vstd::arithmetic::div_mod::lemma_fundamental_div_mod_converse(q + 0x100, 0x100, 1, q);
        vstd::arithmetic::div_mod::lemma_fundamental_div_mod_converse(q, 0x100, 0, q);
        vstd::arithmetic::div_mod::lemma_fundamental_div_mod_converse(n, 0x8000_0000, 1, b as int);
        vstd::arithmetic::div_mod::lemma_fundamental_div_mod_converse(b as int, 0x8000_0000, 0, b as int);
    }
}

/// Flipping the sign bit of an `f32` lane changes its sign and keeps its
/// magnitude bits, NaN payloads included; flipping it twice gives the lane
/// back.
pub proof fn law_negate32_flips_sign(x: u32)
    ensures
        neg32(negate32(x)) == !neg32(x),
        mag32(negate32(x)) == mag32(x),
        negate32(negate32(x)) == x,
{
    lemma_negate32_fields(x);
}

/// Adding the sign-flipped lane is subtracting the lane: for every `b` that is
/// not a NaN, negative ones included, `a + (-b)` gives exactly `a - b` under
/// every rounding mode, flushing and default-NaN setting. This is what the
/// even lanes of [`_mm_addsub_ps`] compute.
pub proof fn law_add_negated_is_sub32(a: u32, b: u32, mode: int, fz: bool, dn: bool)
    requires
        !nan32(b),
    ensures
        fadd32(a, negate32(b), false, mode, fz, dn) == fadd32(a, b, true, mode, fz, dn),
{
    lemma_negate32_fields(b);
    let y = flush32(b, fz);
    let y2 = flush32(negate32(b), fz);
    if fz && exp32(b) == 0 {
        assert(y2 == negate32(y));
    } else {
        assert(y2 == negate32(y));
    }
    lemma_negate32_fields(y);
    assert(sig32(y2) == sig32(y));
    assert(scale32(y2) == scale32(y));
    assert(inf32(y2) == inf32(y));
    assert(nan32(y2) == nan32(y));
    let x = flush32(a, fz);
    let sx = neg32(x);
    let sy = !neg32(y);
    assert(neg32(y2) != false == sy);
    let m = if scale32(x) < scale32(y) { scale32(x) } else { scale32(y) };
    assert(units32(y2, sy, m) == units32(y, sy, m));
    assert(fadd_finite32(x, y2, sx, sy, mode, fz) == fadd_finite32(x, y, sx, sy, mode, fz));
}
} // verus!
