//! IEEE-754 comparison, minimum and maximum, NaN results, conversion to
//! integers and rounding to integral values of `f32` and `f64` lanes held as
//! bit patterns.
//!
//! A lane is NaN when its exponent bits are all ones and its fraction is not
//! zero. Every other lane sits on the number line at its magnitude bits, read
//! as an integer and negated when the sign bit is set: IEEE-754 orders finite
//! values and infinities exactly as these integers, and places `+0.0` and
//! `-0.0` at the same point. A comparison that involves a NaN is false.
use crate::sse2::shl64;
use crate::types::{lemma_mul_bound, pow2i};
use vstd::arithmetic::power2::{pow2, lemma2_to64, lemma2_to64_rest, lemma_pow2_adds, lemma_pow2_pos, lemma_pow2_strictly_increases};
use vstd::prelude::*;

verus! {

/// Magnitude bits of an `f32` lane: everything but the sign bit.
pub open spec fn mag32(b: u32) -> int {
    (b as int) % 0x8000_0000
}

/// The `f32` lane is a NaN.
pub open spec fn nan32(b: u32) -> bool {
    mag32(b) > 0x7f80_0000
}

/// Position of a non-NaN `f32` lane on the number line.
pub open spec fn key32(b: u32) -> int {
    if b >= 0x8000_0000 {
        -mag32(b)
    } else {
        mag32(b)
    }
}

/// IEEE-754 `a == b` on `f32` lanes.
pub open spec fn eq32(a: u32, b: u32) -> bool {
    !nan32(a) && !nan32(b) && key32(a) == key32(b)
}

/// IEEE-754 `a < b` on `f32` lanes.
pub open spec fn lt32(a: u32, b: u32) -> bool {
    !nan32(a) && !nan32(b) && key32(a) < key32(b)
}

/// IEEE-754 `a <= b` on `f32` lanes.
pub open spec fn leq32(a: u32, b: u32) -> bool {
    !nan32(a) && !nan32(b) && key32(a) <= key32(b)
}

/// Magnitude bits of an `f64` lane: everything but the sign bit.
pub open spec fn mag64(b: u64) -> int {
    (b as int) % 0x8000_0000_0000_0000
}

/// The `f64` lane is a NaN.
pub open spec fn nan64(b: u64) -> bool {
    mag64(b) > 0x7ff0_0000_0000_0000
}

/// Position of a non-NaN `f64` lane on the number line.
pub open spec fn key64(b: u64) -> int {
    if b >= 0x8000_0000_0000_0000 {
        -mag64(b)
    } else {
        mag64(b)
    }
}

/// IEEE-754 `a == b` on `f64` lanes.
pub open spec fn eq64(a: u64, b: u64) -> bool {
    !nan64(a) && !nan64(b) && key64(a) == key64(b)
}

/// IEEE-754 `a < b` on `f64` lanes.
pub open spec fn lt64(a: u64, b: u64) -> bool {
    !nan64(a) && !nan64(b) && key64(a) < key64(b)
}

/// IEEE-754 `a <= b` on `f64` lanes.
pub open spec fn leq64(a: u64, b: u64) -> bool {
    !nan64(a) && !nan64(b) && key64(a) <= key64(b)
}

/// The predicates behind the packed compares, by code: 0 `==`, 1 `<`, 2 `<=`,
/// 3 unordered, 4 `!=`, 5 not `<`, 6 not `<=`, 7 ordered.
pub open spec fn pred32(op: int, a: u32, b: u32) -> bool {
    if op == 0 {
        eq32(a, b)
    } else if op == 1 {
        lt32(a, b)
    } else if op == 2 {
        leq32(a, b)
    } else if op == 3 {
        nan32(a) || nan32(b)
    } else if op == 4 {
        !eq32(a, b)
    } else if op == 5 {
        !lt32(a, b)
    } else if op == 6 {
        !leq32(a, b)
    } else {
        !nan32(a) && !nan32(b)
    }
}

/// [`pred32`] on `f64` lanes.
pub open spec fn pred64(op: int, a: u64, b: u64) -> bool {
    if op == 0 {
        eq64(a, b)
    } else if op == 1 {
        lt64(a, b)
    } else if op == 2 {
        leq64(a, b)
    } else if op == 3 {
        nan64(a) || nan64(b)
    } else if op == 4 {
        !eq64(a, b)
    } else if op == 5 {
        !lt64(a, b)
    } else if op == 6 {
        !leq64(a, b)
    } else {
        !nan64(a) && !nan64(b)
    }
}

pub(crate) fn is_nan32(b: u32) -> (r: bool)
    ensures
        r == nan32(b),
{
    b % 0x8000_0000 > 0x7f80_0000
}

pub(crate) fn pos32(b: u32) -> (r: i64)
    ensures
        r == key32(b),
{
    let m = (b % 0x8000_0000) as i64;
    if b >= 0x8000_0000 {
        -m
    } else {
        m
    }
}

pub(crate) fn is_nan64(b: u64) -> (r: bool)
    ensures
        r == nan64(b),
{
    b % 0x8000_0000_0000_0000 > 0x7ff0_0000_0000_0000
}

pub(crate) fn pos64(b: u64) -> (r: i64)
    ensures
        r == key64(b),
{
    let m = (b % 0x8000_0000_0000_0000) as i64;
    if b >= 0x8000_0000_0000_0000 {
        -m
    } else {
        m
    }
}

/// Evaluate [`pred32`].
pub(crate) fn test32(op: u8, a: u32, b: u32) -> (r: bool)
    requires
        op < 8,
    ensures
        r == pred32(op as int, a, b),
{
    let unordered = is_nan32(a) || is_nan32(b);
    let x = pos32(a);
    let y = pos32(b);
    let holds = if op % 4 == 0 {
        !unordered && x == y
    } else if op % 4 == 1 {
        !unordered && x < y
    } else if op % 4 == 2 {
        !unordered && x <= y
    } else {
        unordered
    };
    if op < 4 {
        holds
    } else {
        !holds
    }
}

/// Evaluate [`pred64`].
pub(crate) fn test64(op: u8, a: u64, b: u64) -> (r: bool)
    requires
        op < 8,
    ensures
        r == pred64(op as int, a, b),
{
    let unordered = is_nan64(a) || is_nan64(b);
    let x = pos64(a);
    let y = pos64(b);
    let holds = if op % 4 == 0 {
        !unordered && x == y
    } else if op % 4 == 1 {
        !unordered && x < y
    } else if op % 4 == 2 {
        !unordered && x <= y
    } else {
        unordered
    };
    if op < 4 {
        holds
    } else {
        !holds
    }
}

// ---------------------------------------------------------------------------
// Values of finite lanes, and rounding them to integers
// ---------------------------------------------------------------------------

/// `(-1)^neg * m / d` rounded to an integer by rounding code `mode`:
/// 0 to nearest with ties to even, 1 toward negative infinity, 2 toward
/// positive infinity, 3 toward zero.
pub open spec fn round_div(neg: bool, m: int, d: int, mode: int) -> int {
    let q = m / d;
    let r = m % d;
    let up = if mode == 0 {
        2 * r > d || (2 * r == d && q % 2 == 1)
    } else if mode == 1 {
        neg && r > 0
    } else if mode == 2 {
        !neg && r > 0
    } else {
        false
    };
    let n = q + if up { 1int } else { 0int };
    if neg { -n } else { n }
}

/// `(-1)^neg * m * 2^e` rounded to an integer by rounding code `mode`.
pub open spec fn round_scaled(neg: bool, m: int, e: int, mode: int) -> int {
    if e >= 0 {
        if neg { -(m * pow2i(e)) } else { m * pow2i(e) }
    } else {
        round_div(neg, m, pow2i(-e), mode)
    }
}

/// `n` when it fits `i32`, else the x86 "integer indefinite" value `i32::MIN`.
pub open spec fn i32_or_indefinite(n: int) -> int {
    if -0x8000_0000 <= n < 0x8000_0000 { n } else { -0x8000_0000 }
}

/// Biased exponent field of an `f32` lane.
pub open spec fn exp32(b: u32) -> int {
    (b as int / 0x80_0000) % 0x100
}

/// Significand of a finite `f32` lane, with the hidden bit of a normal number.
pub open spec fn sig32(b: u32) -> int {
    if exp32(b) == 0 { b as int % 0x80_0000 } else { b as int % 0x80_0000 + 0x80_0000 }
}

/// Power of two that scales [`sig32`] to the magnitude of a finite `f32` lane.
pub open spec fn scale32(b: u32) -> int {
    (if exp32(b) == 0 { 1 } else { exp32(b) }) - 150
}

/// The `f32` lane is negative (its sign bit is set).
pub open spec fn neg32(b: u32) -> bool {
    b >= 0x8000_0000
}

/// Biased exponent field of an `f64` lane.
pub open spec fn exp64(b: u64) -> int {
    (b as int / 0x10_0000_0000_0000) % 0x800
}

/// Significand of a finite `f64` lane, with the hidden bit of a normal number.
pub open spec fn sig64(b: u64) -> int {
    if exp64(b) == 0 {
        b as int % 0x10_0000_0000_0000
    } else {
        b as int % 0x10_0000_0000_0000 + 0x10_0000_0000_0000
    }
}

/// Power of two that scales [`sig64`] to the magnitude of a finite `f64` lane.
pub open spec fn scale64(b: u64) -> int {
    (if exp64(b) == 0 { 1 } else { exp64(b) }) - 1075
}

/// The `f64` lane is negative (its sign bit is set).
pub open spec fn neg64(b: u64) -> bool {
    b >= 0x8000_0000_0000_0000
}

/// Conversion of an `f32` lane to `i32` under rounding code `mode`, with the x86
/// rule: NaN, infinities and values out of range give `i32::MIN`.
pub open spec fn cvt32_i32(b: u32, mode: int) -> int {
    if exp32(b) == 0xff {
        -0x8000_0000
    } else {
        i32_or_indefinite(round_scaled(neg32(b), sig32(b), scale32(b), mode))
    }
}

/// Conversion of an `f64` lane to `i32` under rounding code `mode`, with the x86
/// rule: NaN, infinities and values out of range give `i32::MIN`.
pub open spec fn cvt64_i32(b: u64, mode: int) -> int {
    if exp64(b) == 0x7ff {
        -0x8000_0000
    } else {
        i32_or_indefinite(round_scaled(neg64(b), sig64(b), scale64(b), mode))
    }
}

/// Round `(-1)^neg * m / 2^k` to an integer by rounding code `mode`.
fn round_shift(neg: bool, m: u64, k: u64, mode: u8) -> (r: i64)
    requires
        m < 0x20_0000_0000_0000,
        1 <= k,
        mode < 4,
    ensures
        r == round_div(neg, m as int, pow2i(k as int), mode as int),
        -(m as int / pow2i(k as int)) - 1 <= r <= m as int / pow2i(k as int) + 1,
{
    proof {
        lemma2_to64();
        lemma_pow2_pos(k as nat);
    }
    let n: u64;
    if k >= 60 {
        proof {
            if k > 60 {
                lemma_pow2_strictly_increases(60, k as nat);
            }
            assert(pow2(60) == 0x1000_0000_0000_0000) by {
                lemma2_to64_rest();
            }
            vstd::arithmetic::div_mod::lemma_basic_div(m as int, pow2i(k as int));
            vstd::arithmetic::div_mod::lemma_small_mod(m as nat, pow2(k as nat));
        }
        let up = (mode == 1 && neg && m > 0) || (mode == 2 && !neg && m > 0);
        n = if up { 1 } else { 0 };
    } else {
        proof {
            lemma_pow2_strictly_increases(k as nat, 64);
            lemma2_to64_rest();
            vstd::arithmetic::div_mod::lemma_small_mod(pow2(k as nat), pow2(64));
        }
        let d: u64 = shl64(1, k);
        assert(d == pow2i(k as int));
        let q = m / d;
        let rem = m % d;
        proof {
            vstd::arithmetic::div_mod::lemma_div_is_ordered_by_denominator(m as int, 1, d as int);
            vstd::arithmetic::div_mod::lemma_mod_bound(m as int, d as int);
        }
        let up = if mode == 0 {
            2 * rem > d || (2 * rem == d && q % 2 == 1)
        } else if mode == 1 {
            neg && rem > 0
        } else if mode == 2 {
            !neg && rem > 0
        } else {
            false
        };
        n = q + if up { 1 } else { 0 };
    }
    if neg {
        -(n as i64)
    } else {
        n as i64
    }
}

/// [`cvt64_i32`], evaluated.
pub(crate) fn convert64(b: u64, mode: u8) -> (r: i32)
    requires
        mode < 4,
    ensures
        r == cvt64_i32(b, mode as int),
{
    let e = (b / 0x10_0000_0000_0000) % 0x800;
    let f = b % 0x10_0000_0000_0000;
    let neg = b >= 0x8000_0000_0000_0000;
    if e == 0x7ff {
        return i32::MIN;
    }
    let m = if e == 0 { f } else { f + 0x10_0000_0000_0000 };
    if e >= 1075 {
        proof {
            lemma_pow2_pos((e - 1075) as nat);
            lemma_mul_grows(m as int, pow2i(e - 1075));
        }
        return i32::MIN;
    }
    let k: u64 = if e == 0 { 1074 } else { 1075 - e };
    let n = round_shift(neg, m, k, mode);
    if -0x8000_0000 <= n && n < 0x8000_0000 {
        n as i32
    } else {
        i32::MIN
    }
}

/// [`cvt32_i32`], evaluated.
pub(crate) fn convert32(b: u32, mode: u8) -> (r: i32)
    requires
        mode < 4,
    ensures
        r == cvt32_i32(b, mode as int),
{
    let e = (b / 0x80_0000) % 0x100;
    let f = b % 0x80_0000;
    let neg = b >= 0x8000_0000;
    if e == 0xff {
        return i32::MIN;
    }
    let m = if e == 0 { f } else { f + 0x80_0000 };
    if e >= 150 {
        proof {
            lemma2_to64();
            lemma_pow2_pos((e - 150) as nat);
        }
        if e >= 158 {
            proof {
                lemma_pow2_adds(8, (e - 158) as nat);
                lemma_pow2_pos((e - 158) as nat);
                lemma_mul_at_least(m as int, 0x80_0000, pow2i(e - 150), 0x100);
            }
            return i32::MIN;
        }
        // The value is an integer of at most 31 significant bits here.
        proof {
            if e < 157 {
                lemma_pow2_strictly_increases((e - 150) as nat, 7);
            }
            lemma_mul_below(m as int, 0x100_0000, pow2i(e - 150), 0x80);
            vstd::arithmetic::div_mod::lemma_small_mod((m as int * pow2i(e - 150)) as nat, 0x1_0000_0000_0000_0000);
        }
        let n: u64 = shl64(m as u64, (e - 150) as u64);
        assert(n < 0x8000_0000);
        let v: i64 = if neg { -(n as i64) } else { n as i64 };
        return if -0x8000_0000 <= v && v < 0x8000_0000 { v as i32 } else { i32::MIN };
    }
    let k: u64 = if e == 0 { 149 } else { (150 - e) as u64 };
    let n = round_shift(neg, m as u64, k, mode);
    if -0x8000_0000 <= n && n < 0x8000_0000 {
        n as i32
    } else {
        i32::MIN
    }
}

proof fn lemma_mul_at_least(m: int, lo: int, p: int, plo: int)
    by (nonlinear_arith)
    requires
        0 <= lo <= m,
        0 <= plo <= p,
    ensures
        lo * plo <= m * p,
{
}

proof fn lemma_mul_below(m: int, hi: int, p: int, phi: int)
    by (nonlinear_arith)
    requires
        0 <= m < hi,
        0 <= p <= phi,
    ensures
        m * p < hi * phi || p == 0,
        0 <= m * p,
{
}

proof fn lemma_mul_grows(m: int, p: int)
    by (nonlinear_arith)
    requires
        0 <= m,
        1 <= p,
    ensures
        m <= m * p,
{
}


// ---------------------------------------------------------------------------
// Flushing, NaN results, minimum and maximum
// ---------------------------------------------------------------------------

/// An `f32` lane as an operation reads it: a denormal becomes a zero of the
/// same sign when flushing is on.
pub open spec fn flush32(b: u32, fz: bool) -> u32 {
    if fz && exp32(b) == 0 {
        if b >= 0x8000_0000 { 0x8000_0000u32 } else { 0u32 }
    } else {
        b
    }
}

/// An `f64` lane as an operation reads it: a denormal becomes a zero of the
/// same sign when flushing is on.
pub open spec fn flush64(b: u64, fz: bool) -> u64 {
    if fz && exp64(b) == 0 {
        if b >= 0x8000_0000_0000_0000 { 0x8000_0000_0000_0000u64 } else { 0u64 }
    } else {
        b
    }
}

/// The quiet bit (the top fraction bit) of an `f32` lane is set.
pub open spec fn quiet_bit32(b: u32) -> bool {
    (b as int / 0x40_0000) % 2 == 1
}

/// The quiet bit (the top fraction bit) of an `f64` lane is set.
pub open spec fn quiet_bit64(b: u64) -> bool {
    (b as int / 0x8_0000_0000_0000) % 2 == 1
}

/// The NaN an operation returns for the NaN operand `b`: the default NaN when
/// `dn` is set, else `b` with its quiet bit set.
pub open spec fn nan1_32(b: u32, dn: bool) -> u32 {
    if dn {
        0x7fc0_0000u32
    } else if quiet_bit32(b) {
        b
    } else {
        (b + 0x40_0000) as u32
    }
}

/// The NaN an operation returns for the NaN operand `b`: the default NaN when
/// `dn` is set, else `b` with its quiet bit set.
pub open spec fn nan1_64(b: u64, dn: bool) -> u64 {
    if dn {
        0x7ff8_0000_0000_0000u64
    } else if quiet_bit64(b) {
        b
    } else {
        (b + 0x8_0000_0000_0000) as u64
    }
}

/// The NaN a two-operand operation returns when `a` or `b` is a NaN: a
/// signalling NaN wins over a quiet one, and the first operand over the second.
pub open spec fn nan2_32(a: u32, b: u32, dn: bool) -> u32 {
    if nan32(a) && !quiet_bit32(a) {
        nan1_32(a, dn)
    } else if nan32(b) && !quiet_bit32(b) {
        nan1_32(b, dn)
    } else if nan32(a) {
        nan1_32(a, dn)
    } else {
        nan1_32(b, dn)
    }
}

/// [`nan2_32`] on `f64` lanes.
pub open spec fn nan2_64(a: u64, b: u64, dn: bool) -> u64 {
    if nan64(a) && !quiet_bit64(a) {
        nan1_64(a, dn)
    } else if nan64(b) && !quiet_bit64(b) {
        nan1_64(b, dn)
    } else if nan64(a) {
        nan1_64(a, dn)
    } else {
        nan1_64(b, dn)
    }
}

/// Maximum of two `f32` lanes: a NaN operand propagates, and `+0.0` is above
/// `-0.0`.
pub open spec fn fmax32(a: u32, b: u32, fz: bool, dn: bool) -> u32 {
    let x = flush32(a, fz);
    let y = flush32(b, fz);
    if nan32(x) || nan32(y) {
        nan2_32(x, y, dn)
    } else if key32(x) < key32(y) {
        y
    } else if key32(y) < key32(x) {
        x
    } else if x >= 0x8000_0000 {
        y
    } else {
        x
    }
}

/// Minimum of two `f32` lanes: a NaN operand propagates, and `-0.0` is below
/// `+0.0`.
pub open spec fn fmin32(a: u32, b: u32, fz: bool, dn: bool) -> u32 {
    let x = flush32(a, fz);
    let y = flush32(b, fz);
    if nan32(x) || nan32(y) {
        nan2_32(x, y, dn)
    } else if key32(x) < key32(y) {
        x
    } else if key32(y) < key32(x) {
        y
    } else if x >= 0x8000_0000 {
        x
    } else {
        y
    }
}

/// Maximum of two `f64` lanes: a NaN operand propagates, and `+0.0` is above
/// `-0.0`.
pub open spec fn fmax64(a: u64, b: u64, fz: bool, dn: bool) -> u64 {
    let x = flush64(a, fz);
    let y = flush64(b, fz);
    if nan64(x) || nan64(y) {
        nan2_64(x, y, dn)
    } else if key64(x) < key64(y) {
        y
    } else if key64(y) < key64(x) {
        x
    } else if x >= 0x8000_0000_0000_0000 {
        y
    } else {
        x
    }
}

/// Minimum of two `f64` lanes: a NaN operand propagates, and `-0.0` is below
/// `+0.0`.
pub open spec fn fmin64(a: u64, b: u64, fz: bool, dn: bool) -> u64 {
    let x = flush64(a, fz);
    let y = flush64(b, fz);
    if nan64(x) || nan64(y) {
        nan2_64(x, y, dn)
    } else if key64(x) < key64(y) {
        x
    } else if key64(y) < key64(x) {
        y
    } else if x >= 0x8000_0000_0000_0000 {
        x
    } else {
        y
    }
}

pub(crate) fn flush_lane32(b: u32, fz: bool) -> (r: u32)
    ensures
        r == flush32(b, fz),
{
    if fz && (b / 0x80_0000) % 0x100 == 0 {
        if b >= 0x8000_0000 { 0x8000_0000 } else { 0 }
    } else {
        b
    }
}

pub(crate) fn flush_lane64(b: u64, fz: bool) -> (r: u64)
    ensures
        r == flush64(b, fz),
{
    if fz && (b / 0x10_0000_0000_0000) % 0x800 == 0 {
        if b >= 0x8000_0000_0000_0000 { 0x8000_0000_0000_0000 } else { 0 }
    } else {
        b
    }
}

pub(crate) fn nan_lane32(b: u32, dn: bool) -> (r: u32)
    ensures
        r == nan1_32(b, dn),
{
    if dn {
        0x7fc0_0000
    } else if (b / 0x40_0000) % 2 == 1 {
        b
    } else {
        b + 0x40_0000
    }
}

pub(crate) fn nan_lane64(b: u64, dn: bool) -> (r: u64)
    ensures
        r == nan1_64(b, dn),
{
    if dn {
        0x7ff8_0000_0000_0000
    } else if (b / 0x8_0000_0000_0000) % 2 == 1 {
        b
    } else {
        b + 0x8_0000_0000_0000
    }
}

pub(crate) fn nan_pair32(a: u32, b: u32, dn: bool) -> (r: u32)
    ensures
        r == nan2_32(a, b, dn),
{
    if is_nan32(a) && (a / 0x40_0000) % 2 == 0 {
        nan_lane32(a, dn)
    } else if is_nan32(b) && (b / 0x40_0000) % 2 == 0 {
        nan_lane32(b, dn)
    } else if is_nan32(a) {
        nan_lane32(a, dn)
    } else {
        nan_lane32(b, dn)
    }
}

pub(crate) fn nan_pair64(a: u64, b: u64, dn: bool) -> (r: u64)
    ensures
        r == nan2_64(a, b, dn),
{
    if is_nan64(a) && (a / 0x8_0000_0000_0000) % 2 == 0 {
        nan_lane64(a, dn)
    } else if is_nan64(b) && (b / 0x8_0000_0000_0000) % 2 == 0 {
        nan_lane64(b, dn)
    } else if is_nan64(a) {
        nan_lane64(a, dn)
    } else {
        nan_lane64(b, dn)
    }
}

/// Evaluate [`fmax32`] (`is_max`) or [`fmin32`].
pub(crate) fn minmax_lane32(a: u32, b: u32, is_max: bool, fz: bool, dn: bool) -> (r: u32)
    ensures
        r == if is_max { fmax32(a, b, fz, dn) } else { fmin32(a, b, fz, dn) },
{
    let x = flush_lane32(a, fz);
    let y = flush_lane32(b, fz);
    if is_nan32(x) || is_nan32(y) {
        return nan_pair32(x, y, dn);
    }
    let kx = pos32(x);
    let ky = pos32(y);
    let x_first = if kx < ky {
        !is_max
    } else if ky < kx {
        is_max
    } else {
        (x >= 0x8000_0000) != is_max
    };
    if x_first { x } else { y }
}

/// Evaluate [`fmax64`] (`is_max`) or [`fmin64`].
pub(crate) fn minmax_lane64(a: u64, b: u64, is_max: bool, fz: bool, dn: bool) -> (r: u64)
    ensures
        r == if is_max { fmax64(a, b, fz, dn) } else { fmin64(a, b, fz, dn) },
{
    let x = flush_lane64(a, fz);
    let y = flush_lane64(b, fz);
    if is_nan64(x) || is_nan64(y) {
        return nan_pair64(x, y, dn);
    }
    let kx = pos64(x);
    let ky = pos64(y);
    let x_first = if kx < ky {
        !is_max
    } else if ky < kx {
        is_max
    } else {
        (x >= 0x8000_0000_0000_0000) != is_max
    };
    if x_first { x } else { y }
}

// ---------------------------------------------------------------------------
// Rounding to an integral value
// ---------------------------------------------------------------------------

/// The `f32` lane `b` is finite and its magnitude is the integer `n`.
pub open spec fn is_int32(b: u32, n: int) -> bool {
    &&& exp32(b) != 0xff
    &&& if scale32(b) >= 0 {
        sig32(b) * pow2i(scale32(b)) == n
    } else {
        sig32(b) == n * pow2i(-scale32(b))
    }
}

/// The `f64` lane `b` is finite and its magnitude is the integer `n`.
pub open spec fn is_int64(b: u64, n: int) -> bool {
    &&& exp64(b) != 0x7ff
    &&& if scale64(b) >= 0 {
        sig64(b) * pow2i(scale64(b)) == n
    } else {
        sig64(b) == n * pow2i(-scale64(b))
    }
}

/// Absolute value.
pub open spec fn abs(n: int) -> int {
    if n < 0 { -n } else { n }
}

/// `r` is the `f32` lane `b` rounded to an integral value by rounding code
/// `mode`, reading denormals as zero when `fz` is set and returning the default
/// NaN for a NaN when `dn` is set. Infinities and values that are already
/// integers come back unchanged; every other result keeps the sign of `b`, so
/// that a negative value that rounds to zero gives `-0.0`.
pub open spec fn rounds_to_int32(b: u32, r: u32, mode: int, fz: bool, dn: bool) -> bool {
    let x = flush32(b, fz);
    if nan32(x) {
        r == nan1_32(x, dn)
    } else if exp32(x) == 0xff || scale32(x) >= 0 {
        r == x
    } else {
        &&& neg32(r) == neg32(x)
        &&& is_int32(r, abs(round_scaled(neg32(x), sig32(x), scale32(x), mode)))
    }
}

/// [`rounds_to_int32`] on `f64` lanes.
pub open spec fn rounds_to_int64(b: u64, r: u64, mode: int, fz: bool, dn: bool) -> bool {
    let x = flush64(b, fz);
    if nan64(x) {
        r == nan1_64(x, dn)
    } else if exp64(x) == 0x7ff || scale64(x) >= 0 {
        r == x
    } else {
        &&& neg64(r) == neg64(x)
        &&& is_int64(r, abs(round_scaled(neg64(x), sig64(x), scale64(x), mode)))
    }
}

pub(crate) proof fn lemma_fields32(s: int, e: int, f: int)
    requires
        0 <= s <= 1,
        0 <= e < 0x100,
        0 <= f < 0x80_0000,
    ensures
        (s * 0x8000_0000 + e * 0x80_0000 + f) / 0x80_0000 % 0x100 == e,
        (s * 0x8000_0000 + e * 0x80_0000 + f) % 0x80_0000 == f,
        (s * 0x8000_0000 + e * 0x80_0000 + f >= 0x8000_0000) == (s == 1),
{
    let b = s * 0x8000_0000 + e * 0x80_0000 + f;
    vstd::arithmetic::div_mod::lemma_fundamental_div_mod_converse(b, 0x80_0000, s * 0x100 + e, f);
    vstd::arithmetic::div_mod::lemma_fundamental_div_mod_converse(s * 0x100 + e, 0x100, s, e);
}

pub(crate) proof fn lemma_fields64(s: int, e: int, f: int)
    requires
        0 <= s <= 1,
        0 <= e < 0x800,
        0 <= f < 0x10_0000_0000_0000,
    ensures
        (s * 0x8000_0000_0000_0000 + e * 0x10_0000_0000_0000 + f) / 0x10_0000_0000_0000 % 0x800 == e,
        (s * 0x8000_0000_0000_0000 + e * 0x10_0000_0000_0000 + f) % 0x10_0000_0000_0000 == f,
        (s * 0x8000_0000_0000_0000 + e * 0x10_0000_0000_0000 + f >= 0x8000_0000_0000_0000) == (s
            == 1),
{
    let b = s * 0x8000_0000_0000_0000 + e * 0x10_0000_0000_0000 + f;
    vstd::arithmetic::div_mod::lemma_fundamental_div_mod_converse(
        b,
        0x10_0000_0000_0000,
        s * 0x800 + e,
        f,
    );
    vstd::arithmetic::div_mod::lemma_fundamental_div_mod_converse(s * 0x800 + e, 0x800, s, e);
}

proof fn lemma_scaled_range(n: int, w: int, t: int, top: int)
    by (nonlinear_arith)
    requires
        1 <= w <= n < 2 * w,
        w * t == top,
        0 < t,
    ensures
        top <= n * t < 2 * top,
{
}

/// The `f32` lane with sign `neg` whose magnitude is the integer `n`.
fn int_bits32(neg: bool, n: u32) -> (r: u32)
    requires
        n <= 0x80_0000,
    ensures
        neg32(r) == neg,
        is_int32(r, n as int),
{
    let s: u32 = if neg { 0x8000_0000 } else { 0 };
    if n == 0 {
        proof {
            lemma_fields32(if neg { 1 } else { 0 }, 0, 0);
        }
        return s;
    }
    proof {
        lemma2_to64();
    }
    // Find the leading bit: w == 2^p <= n < 2^(p+1).
    let mut w: u32 = 1;
    let mut p: u32 = 0;
    while p < 23 && n >= 2 * w
        invariant
            w == pow2(p as nat),
            1 <= w <= n <= 0x80_0000,
            p <= 23,
            p == 23 ==> w == 0x80_0000,
        decreases 23 - p,
    {
        proof {
            lemma2_to64();
            vstd::arithmetic::power2::lemma_pow2_unfold((p + 1) as nat);
            if p + 1 < 23 {
                lemma_pow2_strictly_increases((p + 1) as nat, 23);
            }
        }
        w = 2 * w;
        p = p + 1;
    }
    proof {
        lemma_pow2_adds(p as nat, (23 - p) as nat);
        lemma_pow2_pos((23 - p) as nat);
        vstd::arithmetic::div_mod::lemma_fundamental_div_mod_converse(
            0x80_0000,
            w as int,
            pow2((23 - p) as nat) as int,
            0,
        );
    }
    let t: u32 = 0x80_0000 / w;
    proof {
        lemma_scaled_range(n as int, w as int, t as int, 0x80_0000);
    }
    let sig: u32 = n * t;
    proof {
        lemma_fields32(if neg { 1 } else { 0 }, (127 + p) as int, sig - 0x80_0000);
        if p == 23 {
            assert(pow2i(0) == 1) by {
                lemma2_to64();
            }
        }
    }
    s + (127 + p) * 0x80_0000 + (sig - 0x80_0000)
}

/// The `f64` lane with sign `neg` whose magnitude is the integer `n`.
fn int_bits64(neg: bool, n: u64) -> (r: u64)
    requires
        n <= 0x10_0000_0000_0000,
    ensures
        neg64(r) == neg,
        is_int64(r, n as int),
{
    let s: u64 = if neg { 0x8000_0000_0000_0000 } else { 0 };
    if n == 0 {
        proof {
            lemma_fields64(if neg { 1 } else { 0 }, 0, 0);
        }
        return s;
    }
    proof {
        lemma2_to64();
            lemma2_to64_rest();
    }
    let mut w: u64 = 1;
    let mut p: u64 = 0;
    while p < 52 && n >= 2 * w
        invariant
            w == pow2(p as nat),
            1 <= w <= n <= 0x10_0000_0000_0000,
            p <= 52,
            p == 52 ==> w == 0x10_0000_0000_0000,
        decreases 52 - p,
    {
        proof {
            lemma2_to64();
            lemma2_to64_rest();
            vstd::arithmetic::power2::lemma_pow2_unfold((p + 1) as nat);
            if p + 1 < 52 {
                lemma_pow2_strictly_increases((p + 1) as nat, 52);
            }
        }
        w = 2 * w;
        p = p + 1;
    }
    proof {
        lemma2_to64();
        lemma2_to64_rest();
        lemma_pow2_adds(p as nat, (52 - p) as nat);
        lemma_pow2_pos((52 - p) as nat);
        vstd::arithmetic::mul::lemma_mul_is_commutative(w as int, pow2((52 - p) as nat) as int);
        vstd::arithmetic::div_mod::lemma_fundamental_div_mod_converse(
            0x10_0000_0000_0000,
            w as int,
            pow2((52 - p) as nat) as int,
            0,
        );
    }
    let t: u64 = 0x10_0000_0000_0000 / w;
    proof {
        lemma_scaled_range(n as int, w as int, t as int, 0x10_0000_0000_0000);
    }
    let sig: u64 = n * t;
    proof {
        lemma_fields64(if neg { 1 } else { 0 }, (1023 + p) as int, sig - 0x10_0000_0000_0000);
        if p == 52 {
            assert(pow2i(0) == 1) by {
                lemma2_to64();
            }
        }
    }
    s + (1023 + p) * 0x10_0000_0000_0000 + (sig - 0x10_0000_0000_0000)
}

/// Round the `f32` lane `b` to an integral value: see [`rounds_to_int32`].
pub(crate) fn round_lane32(b: u32, mode: u8, fz: bool, dn: bool) -> (r: u32)
    requires
        mode < 4,
    ensures
        rounds_to_int32(b, r, mode as int, fz, dn),
{
    let x = flush_lane32(b, fz);
    if is_nan32(x) {
        return nan_lane32(x, dn);
    }
    let e = (x / 0x80_0000) % 0x100;
    if e == 0xff || e >= 150 {
        return x;
    }
    let f = x % 0x80_0000;
    let neg = x >= 0x8000_0000;
    let m = if e == 0 { f } else { f + 0x80_0000 };
    let k: u64 = if e == 0 { 149 } else { (150 - e) as u64 };
    let n = round_shift(neg, m as u64, k, mode);
    proof {
        lemma2_to64();
        lemma_pow2_pos(k as nat);
        if k > 1 {
            lemma_pow2_strictly_increases(1, k as nat);
        }
        vstd::arithmetic::div_mod::lemma_div_is_ordered_by_denominator(m as int, 2, pow2i(k as int));
    }
    let mag: u32 = if n < 0 { (-n) as u32 } else { n as u32 };
    int_bits32(neg, mag)
}

/// Round the `f64` lane `b` to an integral value: see [`rounds_to_int64`].
pub(crate) fn round_lane64(b: u64, mode: u8, fz: bool, dn: bool) -> (r: u64)
    requires
        mode < 4,
    ensures
        rounds_to_int64(b, r, mode as int, fz, dn),
{
    let x = flush_lane64(b, fz);
    if is_nan64(x) {
        return nan_lane64(x, dn);
    }
    let e = (x / 0x10_0000_0000_0000) % 0x800;
    if e == 0x7ff || e >= 1075 {
        return x;
    }
    let f = x % 0x10_0000_0000_0000;
    let neg = x >= 0x8000_0000_0000_0000;
    let m = if e == 0 { f } else { f + 0x10_0000_0000_0000 };
    let k: u64 = if e == 0 { 1074 } else { 1075 - e };
    let n = round_shift(neg, m, k, mode);
    proof {
        lemma2_to64();
        lemma_pow2_pos(k as nat);
        if k > 1 {
            lemma_pow2_strictly_increases(1, k as nat);
        }
        vstd::arithmetic::div_mod::lemma_div_is_ordered_by_denominator(m as int, 2, pow2i(k as int));
    }
    let mag: u64 = if n < 0 { (-n) as u64 } else { n as u64 };
    int_bits64(neg, mag)
}

// ---------------------------------------------------------------------------
// Laws of the comparisons, of minimum and maximum, and of NaN results
// ---------------------------------------------------------------------------

/// A comparison that involves a NaN is unordered: `==`, `<`, `<=` and
/// "ordered" are false, and their negations and "unordered" are true.
pub proof fn law_nan_compares32(op: int, a: u32, b: u32)
    requires
        0 <= op < 8,
        nan32(a) || nan32(b),
    ensures
        pred32(op, a, b) == (3 <= op <= 6),
{
}

/// [`law_nan_compares32`] on `f64` lanes.
pub proof fn law_nan_compares64(op: int, a: u64, b: u64)
    requires
        0 <= op < 8,
        nan64(a) || nan64(b),
    ensures
        pred64(op, a, b) == (3 <= op <= 6),
{
}

/// The negated comparisons (`!=`, not `<`, not `<=`, ordered) are exactly the
/// complements of `==`, `<`, `<=` and unordered, NaN operands included.
pub proof fn law_negated_compares32(op: int, a: u32, b: u32)
    requires
        0 <= op < 4,
    ensures
        pred32(op + 4, a, b) == !pred32(op, a, b),
{
}

/// [`law_negated_compares32`] on `f64` lanes.
pub proof fn law_negated_compares64(op: int, a: u64, b: u64)
    requires
        0 <= op < 4,
    ensures
        pred64(op + 4, a, b) == !pred64(op, a, b),
{
}

/// `+0.0` and `-0.0` compare equal, and every non-NaN lane equals itself.
pub proof fn law_equal_values32(a: u32)
    requires
        !nan32(a),
    ensures
        eq32(a, a),
        mag32(a) == 0 ==> eq32(a, 0) && eq32(a, 0x8000_0000),
{
}

/// The NaN an operation returns for a NaN operand is itself a NaN.
pub proof fn law_nan_result_is_nan32(b: u32, dn: bool)
    requires
        nan32(b),
    ensures
        nan32(nan1_32(b, dn)),
        quiet_bit32(nan1_32(b, dn)),
{
    assert(((b % 0x8000_0000) > 0x7f80_0000 && (b / 0x40_0000) % 2 == 0) ==> ((b + 0x40_0000)
        < 0x1_0000_0000 && ((b + 0x40_0000) as u32) % 0x8000_0000 > 0x7f80_0000 && ((b
        + 0x40_0000) as u32 / 0x40_0000) % 2 == 1)) by (bit_vector);
}

/// The NaN an operation returns for a NaN operand is itself a NaN.
pub proof fn law_nan_result_is_nan64(b: u64, dn: bool)
    requires
        nan64(b),
    ensures
        nan64(nan1_64(b, dn)),
        quiet_bit64(nan1_64(b, dn)),
{
    assert(((b % 0x8000_0000_0000_0000) > 0x7ff0_0000_0000_0000 && (b / 0x8_0000_0000_0000) % 2
        == 0) ==> ((b + 0x8_0000_0000_0000) < 0x1_0000_0000_0000_0000 && ((b
        + 0x8_0000_0000_0000) as u64) % 0x8000_0000_0000_0000 > 0x7ff0_0000_0000_0000 && ((b
        + 0x8_0000_0000_0000) as u64 / 0x8_0000_0000_0000) % 2 == 1)) by (bit_vector);
}

/// Minimum and maximum of two non-NaN lanes never invent a value: each returns
/// one of its (flushed) operands, the maximum is at or above both and the
/// minimum at or below both, and neither depends on the order of the operands.
pub proof fn law_minmax_of_numbers32(a: u32, b: u32, fz: bool, dn: bool)
    requires
        !nan32(flush32(a, fz)),
        !nan32(flush32(b, fz)),
    ensures
        fmax32(a, b, fz, dn) == flush32(a, fz) || fmax32(a, b, fz, dn) == flush32(b, fz),
        fmin32(a, b, fz, dn) == flush32(a, fz) || fmin32(a, b, fz, dn) == flush32(b, fz),
        leq32(flush32(a, fz), fmax32(a, b, fz, dn)),
        leq32(flush32(b, fz), fmax32(a, b, fz, dn)),
        leq32(fmin32(a, b, fz, dn), flush32(a, fz)),
        leq32(fmin32(a, b, fz, dn), flush32(b, fz)),
        fmax32(a, b, fz, dn) == fmax32(b, a, fz, dn),
        fmin32(a, b, fz, dn) == fmin32(b, a, fz, dn),
{
    let x = flush32(a, fz);
    let y = flush32(b, fz);
    if key32(x) == key32(y) && mag32(x) != 0 {
        assert(x == y);
    }
}

/// [`law_minmax_of_numbers32`] on `f64` lanes.
pub proof fn law_minmax_of_numbers64(a: u64, b: u64, fz: bool, dn: bool)
    requires
        !nan64(flush64(a, fz)),
        !nan64(flush64(b, fz)),
    ensures
        fmax64(a, b, fz, dn) == flush64(a, fz) || fmax64(a, b, fz, dn) == flush64(b, fz),
        fmin64(a, b, fz, dn) == flush64(a, fz) || fmin64(a, b, fz, dn) == flush64(b, fz),
        leq64(flush64(a, fz), fmax64(a, b, fz, dn)),
        leq64(flush64(b, fz), fmax64(a, b, fz, dn)),
        leq64(fmin64(a, b, fz, dn), flush64(a, fz)),
        leq64(fmin64(a, b, fz, dn), flush64(b, fz)),
        fmax64(a, b, fz, dn) == fmax64(b, a, fz, dn),
        fmin64(a, b, fz, dn) == fmin64(b, a, fz, dn),
{
    let x = flush64(a, fz);
    let y = flush64(b, fz);
    if key64(x) == key64(y) && mag64(x) != 0 {
        assert(x == y);
    }
}

/// Minimum and maximum propagate a NaN operand: the result is a NaN.
pub proof fn law_minmax_propagate_nan32(a: u32, b: u32, fz: bool, dn: bool)
    requires
        nan32(flush32(a, fz)) || nan32(flush32(b, fz)),
    ensures
        nan32(fmax32(a, b, fz, dn)),
        nan32(fmin32(a, b, fz, dn)),
{
    if nan32(flush32(a, fz)) {
        law_nan_result_is_nan32(flush32(a, fz), dn);
    }
    if nan32(flush32(b, fz)) {
        law_nan_result_is_nan32(flush32(b, fz), dn);
    }
}

/// [`law_minmax_propagate_nan32`] on `f64` lanes.
pub proof fn law_minmax_propagate_nan64(a: u64, b: u64, fz: bool, dn: bool)
    requires
        nan64(flush64(a, fz)) || nan64(flush64(b, fz)),
    ensures
        nan64(fmax64(a, b, fz, dn)),
        nan64(fmin64(a, b, fz, dn)),
{
    if nan64(flush64(a, fz)) {
        law_nan_result_is_nan64(flush64(a, fz), dn);
    }
    if nan64(flush64(b, fz)) {
        law_nan_result_is_nan64(flush64(b, fz), dn);
    }
}

/// Rounding to an integral value keeps a NaN a NaN, and keeps infinities and
/// the sign of every non-NaN lane.
pub proof fn law_round_keeps_class32(b: u32, r: u32, mode: int, fz: bool, dn: bool)
    requires
        rounds_to_int32(b, r, mode, fz, dn),
    ensures
        nan32(flush32(b, fz)) ==> nan32(r),
        !nan32(flush32(b, fz)) ==> !nan32(r) && neg32(r) == neg32(flush32(b, fz)),
        exp32(flush32(b, fz)) == 0xff && !nan32(flush32(b, fz)) ==> r == flush32(b, fz),
{
    let x = flush32(b, fz);
    if nan32(x) {
        law_nan_result_is_nan32(x, dn);
    }
    if !nan32(x) && !(exp32(x) == 0xff || scale32(x) >= 0) {
        assert(mag32(r) == r as int % 0x8000_0000);
        assert(exp32(r) != 0xff);
        assert(r as int / 0x80_0000 % 0x100 != 0xff);
        assert(mag32(r) < 0x7f80_0000) by {
            vstd::arithmetic::div_mod::lemma_fundamental_div_mod(r as int, 0x80_0000);
            vstd::arithmetic::div_mod::lemma_fundamental_div_mod(r as int / 0x80_0000, 0x100);
        }
    }
}

/// [`law_round_keeps_class32`] on `f64` lanes.
pub proof fn law_round_keeps_class64(b: u64, r: u64, mode: int, fz: bool, dn: bool)
    requires
        rounds_to_int64(b, r, mode, fz, dn),
    ensures
        nan64(flush64(b, fz)) ==> nan64(r),
        !nan64(flush64(b, fz)) ==> !nan64(r) && neg64(r) == neg64(flush64(b, fz)),
        exp64(flush64(b, fz)) == 0x7ff && !nan64(flush64(b, fz)) ==> r == flush64(b, fz),
{
    let x = flush64(b, fz);
    if nan64(x) {
        law_nan_result_is_nan64(x, dn);
    }
    if !nan64(x) && !(exp64(x) == 0x7ff || scale64(x) >= 0) {
        assert(exp64(r) != 0x7ff);
        assert(mag64(r) < 0x7ff0_0000_0000_0000) by {
            vstd::arithmetic::div_mod::lemma_fundamental_div_mod(r as int, 0x10_0000_0000_0000);
            vstd::arithmetic::div_mod::lemma_fundamental_div_mod(
                r as int / 0x10_0000_0000_0000,
                0x800,
            );
        }
    }
}

/// The four rounding codes round the quotient of `v = (-1)^neg * m` by `d` as
/// their names say: code `1` to the greatest integer at most `v / d`, code `2`
/// to the least integer at least `v / d`, code `3` to the integer of largest
/// magnitude at most `|v / d|` with the sign of `v`, and code `0` to an
/// integer within half of `v / d`, the even one on a tie.
pub proof fn law_round_div_directions(neg: bool, m: int, d: int)
    requires
        0 <= m,
        0 < d,
    ensures
        ({
            let v = if neg { -m } else { m };
            let lo = round_div(neg, m, d, 1);
            let hi = round_div(neg, m, d, 2);
            let tz = round_div(neg, m, d, 3);
            let ne = round_div(neg, m, d, 0);
            &&& lo * d <= v < lo * d + d
            &&& hi * d - d < v <= hi * d
            &&& (if neg { -tz } else { tz }) * d <= m < (if neg { -tz } else { tz }) * d + d
            &&& (neg ==> tz <= 0) && (!neg ==> tz >= 0)
            &&& -d <= 2 * (v - ne * d) <= d
            &&& (2 * (v - ne * d) == d || 2 * (v - ne * d) == -d) ==> ne % 2 == 0
        }),
{
    let q = m / d;
    let r = m % d;
    vstd::arithmetic::div_mod::lemma_fundamental_div_mod(m, d);
    assert((q + 1) * d == q * d + d) by (nonlinear_arith);
    assert((-q) * d == -(q * d)) by (nonlinear_arith);
    assert((-(q + 1)) * d == -(q * d) - d) by (nonlinear_arith);
    assert(d * q == q * d) by (nonlinear_arith);
    if q % 2 == 1 {
        assert((-(q + 1)) % 2 == 0);
        assert((q + 1) % 2 == 0);
    }
}
} // verus!
