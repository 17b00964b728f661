//! Correctly rounded `f32` and `f64` arithmetic on bit patterns.
//!
//! An operation first computes its exact result, or enough of it: an integer
//! `x` and a scale `e` such that the exact value lies in `[x, x + 1) * 2^e`,
//! with a sticky flag that tells whether it lies strictly above `x * 2^e`.
//! Rounding then picks the significand and exponent of the result by the
//! rounding code of [`crate::ieee::round_div`], and the result is encoded with
//! the IEEE-754 overflow rules. The specifications state the rounding of the
//! exact value directly.
use crate::ieee::{nan_lane32, nan_lane64, nan1_32, nan1_64, abs, round_div, round_scaled, flush32, flush64, flush_lane32, flush_lane64, nan32, nan64, nan2_32, nan2_64, nan_pair32, nan_pair64, is_nan32, is_nan64, mag32, mag64, neg32, neg64, sig32, sig64, scale32, scale64, exp32, exp64};
use crate::types::pow2i;
use vstd::arithmetic::power2::{
    pow2, lemma2_to64, lemma2_to64_rest, lemma_pow2_adds, lemma_pow2_pos, lemma_pow2_unfold,
    lemma_pow2_strictly_increases,
};
use vstd::arithmetic::div_mod::{
    lemma_fundamental_div_mod, lemma_fundamental_div_mod_converse, lemma_mod_bound,
};
use vstd::prelude::*;

verus! {

// ---------------------------------------------------------------------------
// Binary logarithm
// ---------------------------------------------------------------------------

/// `floor(log2(n))` for `n >= 1`, and 0 below.
pub open spec fn lg2(n: int) -> int
    decreases n,
{
    if n < 2 {
        0
    } else {
        1 + lg2(n / 2)
    }
}

/// `2^lg2(n) <= n < 2^(lg2(n) + 1)`.
pub proof fn lemma_lg2_bounds(n: int)
    requires
        n >= 1,
    ensures
        lg2(n) >= 0,
        pow2i(lg2(n)) <= n < pow2i(lg2(n) + 1),
    decreases n,
{
    lemma2_to64();
    if n >= 2 {
        lemma_lg2_bounds(n / 2);
        lemma_pow2_unfold((lg2(n / 2) + 1) as nat);
        lemma_pow2_unfold((lg2(n / 2) + 2) as nat);
    }
}

/// The binary logarithm is the unique `k` with `2^k <= n < 2^(k+1)`.
pub proof fn lemma_lg2_unique(n: int, k: int)
    requires
        k >= 0,
        pow2i(k) <= n < pow2i(k + 1),
    ensures
        lg2(n) == k,
    decreases k,
{
    lemma2_to64();
    lemma_pow2_pos(k as nat);
    if k == 0 {
        assert(n < 2);
    } else {
        lemma_pow2_unfold(k as nat);
        lemma_pow2_unfold((k + 1) as nat);
        lemma_lg2_unique(n / 2, k - 1);
    }
}

/// Shifting right by `t` bits lowers the logarithm by `t` while the quotient
/// is at least one.
pub proof fn lemma_lg2_shift(n: int, t: nat)
    requires
        n / pow2i(t as int) >= 1,
        n >= 0,
    ensures
        lg2(n) == lg2(n / pow2i(t as int)) + t,
{
    let x = n / pow2i(t as int);
    lemma_pow2_pos(t);
    lemma_lg2_bounds(x);
    let l = lg2(x);
    lemma_fundamental_div_mod(n, pow2i(t as int));
    lemma_mod_bound(n, pow2i(t as int));
    lemma_pow2_adds(l as nat, t);
    lemma_pow2_adds((l + 1) as nat, t);
    vstd::arithmetic::mul::lemma_mul_inequality(pow2i(l), x, pow2i(t as int));
    vstd::arithmetic::mul::lemma_mul_inequality(x + 1, pow2i(l + 1), pow2i(t as int));
    vstd::arithmetic::mul::lemma_mul_is_distributive_add_other_way(pow2i(t as int), x, 1);
    lemma_lg2_unique(n, l + t);
}

// ---------------------------------------------------------------------------
// Rounding with a sticky bit
// ---------------------------------------------------------------------------

proof fn lemma_split(n: int, tt: int, jj: int)
    by (nonlinear_arith)
    requires
        n >= 0,
        tt >= 1,
        jj >= 1,
    ensures
        n / (jj * tt) == (n / tt) / jj,
        n % (jj * tt) == ((n / tt) % jj) * tt + n % tt,
{
    vstd::arithmetic::div_mod::lemma_div_denominator(n, tt, jj);
    vstd::arithmetic::div_mod::lemma_breakdown(n, tt, jj);
}

proof fn lemma_half_compare(a: int, b: int, s: int, tt: int, jj: int)
    by (nonlinear_arith)
    requires
        tt >= 1,
        jj >= 2,
        jj % 2 == 0,
        0 <= a < jj,
        0 <= b < tt,
        s == (if b > 0 { 1int } else { 0int }),
    ensures
        (2 * (a * tt + b) > jj * tt) == (2 * a + s > jj),
        (2 * (a * tt + b) == jj * tt) == (2 * a + s == jj),
        (a * tt + b > 0) == (2 * a + s > 0),
{
    if 2 * a > jj {
        assert(2 * a >= jj + 2);
        assert(2 * a * tt >= jj * tt + 2 * tt);
    } else if 2 * a == jj {
    } else {
        assert(2 * a <= jj - 2);
        assert(2 * a * tt <= jj * tt - 2 * tt);
    }
}

/// Rounding `n / (2^j * tt)` only needs the quotient `n / tt` and a sticky bit
/// that records whether that division left a remainder, as long as at least
/// one bit is kept below the rounding point (`j >= 1`).
pub proof fn lemma_sticky_round_div(neg: bool, n: int, tt: int, j: nat, mode: int)
    requires
        n >= 0,
        tt >= 1,
        j >= 1,
    ensures
        round_div(neg, n, pow2i(j as int) * tt, mode) == round_div(
            neg,
            2 * (n / tt) + (if n % tt != 0 { 1int } else { 0int }),
            pow2i((j + 1) as int),
            mode,
        ),
{
    let jj = pow2i(j as int);
    lemma_pow2_pos(j);
    lemma_pow2_unfold(j + 1);
    lemma_pow2_unfold(j);
    assert(jj % 2 == 0) by {
        lemma_fundamental_div_mod_converse(jj, 2, pow2i(j - 1), 0);
    }
    assert(jj >= 2) by {
        lemma_pow2_pos((j - 1) as nat);
    }
    let x = n / tt;
    let b = n % tt;
    let s: int = if b != 0 { 1 } else { 0 };
    lemma_mod_bound(n, tt);
    assert(n / tt >= 0) by {
        vstd::arithmetic::div_mod::lemma_div_pos_is_pos(n, tt);
    }
    lemma_split(n, tt, jj);
    let q = x / jj;
    let a = x % jj;
    lemma_mod_bound(x, jj);
    lemma_fundamental_div_mod(x, jj);
    // The second form: m = 2x + s over 2jj.
    let m = 2 * x + s;
    assert(q * (2 * jj) == 2 * (jj * q)) by (nonlinear_arith);
    lemma_fundamental_div_mod_converse(m, 2 * jj, q, 2 * a + s);
    lemma_half_compare(a, b, s, tt, jj);
    vstd::arithmetic::mul::lemma_mul_is_commutative(2 * jj, 1);
}

/// [`lemma_sticky_round_div`] for a power-of-two divisor `2^t`: rounding
/// `n / 2^(j+t)` only needs `n` shifted right by `t` bits and a sticky bit.
pub proof fn lemma_sticky_round(neg: bool, n: int, t: nat, j: nat, mode: int)
    requires
        n >= 0,
        j >= 1,
    ensures
        round_div(neg, n, pow2i((j + t) as int), mode) == round_div(
            neg,
            2 * (n / pow2i(t as int)) + (if n % pow2i(t as int) != 0 { 1int } else { 0int }),
            pow2i((j + 1) as int),
            mode,
        ),
{
    lemma_pow2_pos(t);
    lemma_pow2_adds(j, t);
    lemma_sticky_round_div(neg, n, pow2i(t as int), j, mode);
}

/// Scaling the numerator and the divisor alike does not change a rounding.
pub proof fn lemma_round_div_scale(neg: bool, m: int, d: int, c: int, mode: int)
    requires
        m >= 0,
        d >= 1,
        c >= 1,
    ensures
        round_div(neg, m * c, d * c, mode) == round_div(neg, m, d, mode),
{
    let q = m / d;
    let r = m % d;
    lemma_fundamental_div_mod(m, d);
    lemma_mod_bound(m, d);
    assert(m * c == (d * c) * q + r * c && 0 <= r * c < d * c) by (nonlinear_arith)
        requires
            m == d * q + r,
            0 <= r < d,
            c >= 1,
    ;
    lemma_fundamental_div_mod_converse(m * c, d * c, q, r * c);
    assert((2 * (r * c) > d * c) == (2 * r > d)) by (nonlinear_arith)
        requires
            c >= 1,
    ;
    assert((2 * (r * c) == d * c) == (2 * r == d)) by (nonlinear_arith)
        requires
            c >= 1,
    ;
    assert((r * c > 0) == (r > 0)) by (nonlinear_arith)
        requires
            c >= 1,
            r >= 0,
    ;
}

// ---------------------------------------------------------------------------
// Rounding to a precision
// ---------------------------------------------------------------------------

/// Exponent of the unit in the last place when the exact value `n * 2^e`
/// (`n >= 1`) is held with `p` significant bits, never below `qmin`, the
/// exponent of the unit of the denormals.
pub open spec fn ulp_exp(n: int, e: int, p: int, qmin: int) -> int {
    let u = lg2(n) + e - (p - 1);
    if u < qmin {
        qmin
    } else {
        u
    }
}

/// Significand, in units of `2^ulp_exp(n, e, p, qmin)`, of `(-1)^neg * n * 2^e`
/// rounded by rounding code `mode`.
pub open spec fn rounded_sig(neg: bool, n: int, e: int, mode: int, p: int, qmin: int) -> int {
    abs(round_scaled(neg, n, e - ulp_exp(n, e, p, qmin), mode))
}

fn pow2_u128(k: u32) -> (r: u128)
    requires
        k < 128,
    ensures
        r == pow2(k as nat),
{
    let mut r: u128 = 1;
    let mut i: u32 = 0;
    proof {
        lemma2_to64();
    }
    while i < k
        invariant
            i <= k < 128,
            r == pow2(i as nat),
        decreases k - i,
    {
        proof {
            lemma_pow2_unfold((i + 1) as nat);
            lemma_pow2_strictly_increases((i + 1) as nat, 128);
            lemma_pow2_128();
        }
        r = 2 * r;
        i = i + 1;
    }
    r
}

proof fn lemma_pow2_128()
    ensures
        pow2(128) == 0x1_0000_0000_0000_0000_0000_0000_0000_0000,
        pow2(127) == 0x8000_0000_0000_0000_0000_0000_0000_0000,
{
    lemma2_to64_rest();
    lemma_pow2_adds(64, 64);
    lemma_pow2_adds(63, 64);
}

/// `(-1)^neg * m / 2^k` rounded by rounding code `mode`, as a magnitude.
fn round_shift128(neg: bool, m: u128, k: u64, mode: u8) -> (r: u128)
    requires
        1 <= k,
        mode < 4,
    ensures
        r == abs(round_div(neg, m as int, pow2i(k as int), mode as int)),
        m as int / pow2i(k as int) <= r <= m as int / pow2i(k as int) + 1,
{
    proof {
        lemma_pow2_pos(k as nat);
    }
    if k >= 128 {
        proof {
            lemma_pow2_128();
            if k > 128 {
                lemma_pow2_strictly_increases(128, k as nat);
            }
            vstd::arithmetic::div_mod::lemma_basic_div(m as int, pow2i(k as int));
            vstd::arithmetic::div_mod::lemma_small_mod(m as nat, pow2(k as nat));
            if k > 128 {
                lemma_pow2_unfold(k as nat);
            }
            if k > 129 {
                lemma_pow2_strictly_increases(128, (k - 1) as nat);
            }
        }
        let up = if mode == 0 {
            k == 128 && m > 0x8000_0000_0000_0000_0000_0000_0000_0000
        } else if mode == 1 {
            neg && m > 0
        } else if mode == 2 {
            !neg && m > 0
        } else {
            false
        };
        if up { 1 } else { 0 }
    } else {
        let d = pow2_u128(k as u32);
        let q = m / d;
        let rem = m % d;
        proof {
            lemma_mod_bound(m as int, d as int);
            lemma_pow2_strictly_increases(0, k as nat);
            lemma2_to64();
            vstd::arithmetic::div_mod::lemma_div_is_ordered_by_denominator(m as int, 2, d as int);
        }
        let up = if mode == 0 {
            rem > d - rem || (rem == d - rem && q % 2 == 1)
        } else if mode == 1 {
            neg && rem > 0
        } else if mode == 2 {
            !neg && rem > 0
        } else {
            false
        };
        if up { q + 1 } else { q }
    }
}

/// Bit length minus one: [`lg2`], evaluated.
fn floor_log2(x: u128) -> (l: u32)
    requires
        x >= 1,
    ensures
        l == lg2(x as int),
        l < 128,
{
    let mut w: u128 = 1;
    let mut l: u32 = 0;
    proof {
        lemma2_to64();
    }
    while l < 127 && x / 2 >= w
        invariant
            l <= 127,
            w == pow2(l as nat),
            1 <= w <= x,
        decreases 127 - l,
    {
        proof {
            lemma_pow2_unfold((l + 1) as nat);
        }
        w = 2 * w;
        l = l + 1;
    }
    proof {
        lemma_pow2_unfold((l + 1) as nat);
        if l == 127 {
            lemma_pow2_128();
        }
        lemma_lg2_unique(x as int, l as int);
    }
    l
}

proof fn lemma_div_between(x: int, d: int, a: int)
    requires
        x >= 0,
        d >= 1,
        a >= 0,
    ensures
        x < a * d ==> x / d < a,
        a * d <= x ==> a <= x / d,
{
    lemma_fundamental_div_mod(x, d);
    lemma_mod_bound(x, d);
    let q = x / d;
    assert(x < a * d ==> q < a) by (nonlinear_arith)
        requires
            x == d * q + x % d,
            0 <= x % d < d,
            d >= 1,
    ;
    assert(a * d <= x ==> a <= q) by (nonlinear_arith)
        requires
            x == d * q + x % d,
            0 <= x % d < d,
            d >= 1,
    ;
}

/// Bounds of `x / 2^j` from the bit length of `x`.
proof fn lemma_shift_bounds(x: int, l: int, j: int)
    requires
        l >= 0,
        j >= 0,
        pow2i(l) <= x < pow2i(l + 1),
    ensures
        j <= l + 1 ==> x / pow2i(j) < pow2i(l + 1 - j),
        j <= l ==> pow2i(l - j) <= x / pow2i(j),
        j > l ==> x / pow2i(j) == 0,
{
    lemma_pow2_pos(j as nat);
    if j <= l + 1 {
        lemma_pow2_adds((l + 1 - j) as nat, j as nat);
        lemma_div_between(x, pow2i(j), pow2i(l + 1 - j));
    }
    if j <= l {
        lemma_pow2_adds((l - j) as nat, j as nat);
        lemma_div_between(x, pow2i(j), pow2i(l - j));
    }
    if j > l {
        if j > l + 1 {
            lemma_pow2_strictly_increases((l + 1) as nat, j as nat);
        }
        vstd::arithmetic::div_mod::lemma_basic_div(x, pow2i(j));
    }
}

proof fn lemma_half_floor(x: int, s: int, jj: int)
    requires
        x >= 0,
        0 <= s <= 1,
        jj >= 1,
    ensures
        (2 * x + s) / (2 * jj) == x / jj,
{
    lemma_fundamental_div_mod(x, jj);
    lemma_mod_bound(x, jj);
    assert((x / jj) * (2 * jj) == 2 * (jj * (x / jj))) by (nonlinear_arith);
    lemma_fundamental_div_mod_converse(2 * x + s, 2 * jj, x / jj, 2 * (x % jj) + s);
}

/// Round the value `x * 2^e`, with `sticky` set when the exact value lies
/// strictly above it, to `p` significant bits with unit exponent at least
/// `qmin`. The exact value is `n * 2^(e - t)`, of which `x` keeps all but the
/// low `t` bits; when bits were dropped, `x` keeps at least `p + 2` bits.
/// Returns the significand and the exponent of its unit.
fn round_core(
    neg: bool,
    x: u128,
    e: i64,
    sticky: bool,
    mode: u8,
    p: u32,
    qmin: i64,
    Ghost(n): Ghost<int>,
    Ghost(t): Ghost<nat>,
) -> (r: (u128, i64))
    requires
        1 <= x < 0x8000_0000_0000_0000_0000_0000_0000_0000,
        2 <= p <= 64,
        mode < 4,
        -100_000 <= e <= 100_000,
        -100_000 <= qmin <= 0,
        n >= 0,
        x == n / pow2i(t as int),
        sticky == (n % pow2i(t as int) != 0),
        t > 0 ==> lg2(x as int) >= p + 1,
    ensures
        r.1 == ulp_exp(n, e - t, p as int, qmin as int),
        r.0 == rounded_sig(neg, n, e - t, mode as int, p as int, qmin as int),
        r.0 <= pow2i(p as int),
        r.1 > qmin ==> r.0 >= pow2i(p - 1),
        r.0 >= 1 || r.1 == qmin,
{
    let l = floor_log2(x);
    proof {
        lemma_lg2_bounds(x as int);
        lemma_pow2_pos(t);
        lemma_pow2_pos((p - 1) as nat);
        if t > 0 {
            lemma_lg2_shift(n, t);
        } else {
            assert(pow2i(0) == 1) by {
                lemma2_to64();
            }
        }
    }
    let u0: i64 = l as i64 + e - (p as i64 - 1);
    let u: i64 = if u0 < qmin { qmin } else { u0 };
    if u <= e {
        let sh: u32 = (e - u) as u32;
        proof {
            lemma_pow2_adds((l + 1) as nat, sh as nat);
            lemma_pow2_adds(l as nat, sh as nat);
            lemma_pow2_pos(sh as nat);
            vstd::arithmetic::mul::lemma_mul_strict_inequality(
                x as int,
                pow2i(l as int + 1),
                pow2i(sh as int),
            );
            vstd::arithmetic::mul::lemma_mul_inequality(pow2i(l as int), x as int, pow2i(sh as int));
            if (l + 1 + sh) < p {
                lemma_pow2_strictly_increases((l + 1 + sh) as nat, p as nat);
            }
            lemma_pow2_strictly_increases(p as nat, 128);
            lemma_pow2_128();
            lemma_pow2_strictly_increases(sh as nat, 128);
            assert(x as int * pow2i(sh as int) >= 1) by (nonlinear_arith)
                requires
                    x >= 1,
                    pow2i(sh as int) >= 1,
            ;
        }
        let w = pow2_u128(sh);
        let s = x * w;
        (s, u)
    } else {
        let j: u64 = (u - e) as u64;
        let m: u128 = 2 * x + if sticky { 1 } else { 0 };
        let s = round_shift128(neg, m, j + 1, mode);
        proof {
            lemma_sticky_round(neg, n, t, j as nat, mode as int);
            lemma_pow2_adds(j as nat, t);
            lemma_pow2_unfold((j + 1) as nat);
            lemma_pow2_pos(j as nat);
            lemma_half_floor(x as int, if sticky { 1 } else { 0 }, pow2i(j as int));
            lemma_shift_bounds(x as int, l as int, j as int);
            if j <= l + 1 {
                if (l + 1 - j) < p {
                    lemma_pow2_strictly_increases((l + 1 - j) as nat, p as nat);
                }
            } else {
                lemma_pow2_pos(p as nat);
            }
            if u > qmin {
                assert(j == l - p + 1);
            }
        }
        (s, u)
    }
}

// ---------------------------------------------------------------------------
// Encoding rounded results
// ---------------------------------------------------------------------------

/// The `f32` result of a rounding that overflowed: infinity, or the largest
/// finite value when the rounding direction points toward zero.
pub open spec fn overflow32(neg: bool, mode: int) -> u32 {
    let to_inf = mode == 0 || (mode == 1 && neg) || (mode == 2 && !neg);
    if to_inf {
        if neg { 0xff80_0000u32 } else { 0x7f80_0000u32 }
    } else {
        if neg { 0xff7f_ffffu32 } else { 0x7f7f_ffffu32 }
    }
}

/// The `f64` result of a rounding that overflowed: infinity, or the largest
/// finite value when the rounding direction points toward zero.
pub open spec fn overflow64(neg: bool, mode: int) -> u64 {
    let to_inf = mode == 0 || (mode == 1 && neg) || (mode == 2 && !neg);
    if to_inf {
        if neg { 0xfff0_0000_0000_0000u64 } else { 0x7ff0_0000_0000_0000u64 }
    } else {
        if neg { 0xffef_ffff_ffff_ffffu64 } else { 0x7fef_ffff_ffff_ffffu64 }
    }
}

/// Magnitude bits of the `f32` lane of value `s * 2^u`, for a significand
/// `s <= 2^24` that is normalised (at least `2^23`) unless `u` is the denormal
/// unit exponent.
pub open spec fn pack_mag32(s: int, u: int) -> int {
    if s >= 0x100_0000 {
        (u + 151) * 0x80_0000
    } else if s >= 0x80_0000 {
        (u + 150) * 0x80_0000 + (s - 0x80_0000)
    } else {
        s
    }
}

/// Magnitude bits of the `f64` lane of value `s * 2^u`, for a significand
/// `s <= 2^53` that is normalised (at least `2^52`) unless `u` is the denormal
/// unit exponent.
pub open spec fn pack_mag64(s: int, u: int) -> int {
    if s >= 0x20_0000_0000_0000 {
        (u + 1076) * 0x10_0000_0000_0000
    } else if s >= 0x10_0000_0000_0000 {
        (u + 1075) * 0x10_0000_0000_0000 + (s - 0x10_0000_0000_0000)
    } else {
        s
    }
}

/// The `f32` lane nearest, by rounding code `mode`, to the exact value
/// `(-1)^neg * n * 2^e` (`n >= 0`): a zero of sign `neg` when `n` is zero or
/// when `fz` is set and the exact value lies below the normal range, the
/// overflow result when the rounded value reaches `2^128`, and otherwise the
/// rounded value itself, a denormal if it is small.
pub open spec fn round32(neg: bool, n: int, e: int, mode: int, fz: bool) -> u32 {
    let sgn: int = if neg { 0x8000_0000 } else { 0 };
    if n == 0 || (fz && lg2(n) + e < -126) {
        sgn as u32
    } else {
        let u = ulp_exp(n, e, 24, -149);
        let s = rounded_sig(neg, n, e, mode, 24, -149);
        if s == 0 {
            sgn as u32
        } else if u + lg2(s) >= 128 {
            overflow32(neg, mode)
        } else {
            (sgn + pack_mag32(s, u)) as u32
        }
    }
}

/// The `f64` lane nearest, by rounding code `mode`, to the exact value
/// `(-1)^neg * n * 2^e` (`n >= 0`): a zero of sign `neg` when `n` is zero or
/// when `fz` is set and the exact value lies below the normal range, the
/// overflow result when the rounded value reaches `2^1024`, and otherwise the
/// rounded value itself, a denormal if it is small.
pub open spec fn round64(neg: bool, n: int, e: int, mode: int, fz: bool) -> u64 {
    let sgn: int = if neg { 0x8000_0000_0000_0000 } else { 0 };
    if n == 0 || (fz && lg2(n) + e < -1022) {
        sgn as u64
    } else {
        let u = ulp_exp(n, e, 53, -1074);
        let s = rounded_sig(neg, n, e, mode, 53, -1074);
        if s == 0 {
            sgn as u64
        } else if u + lg2(s) >= 1024 {
            overflow64(neg, mode)
        } else {
            (sgn + pack_mag64(s, u)) as u64
        }
    }
}

fn overflow_bits32(neg: bool, mode: u8) -> (r: u32)
    ensures
        r == overflow32(neg, mode as int),
{
    let to_inf = mode == 0 || (mode == 1 && neg) || (mode == 2 && !neg);
    if to_inf {
        if neg { 0xff80_0000 } else { 0x7f80_0000 }
    } else {
        if neg { 0xff7f_ffff } else { 0x7f7f_ffff }
    }
}

fn overflow_bits64(neg: bool, mode: u8) -> (r: u64)
    ensures
        r == overflow64(neg, mode as int),
{
    let to_inf = mode == 0 || (mode == 1 && neg) || (mode == 2 && !neg);
    if to_inf {
        if neg { 0xfff0_0000_0000_0000 } else { 0x7ff0_0000_0000_0000 }
    } else {
        if neg { 0xffef_ffff_ffff_ffff } else { 0x7fef_ffff_ffff_ffff }
    }
}

/// [`round32`] of the value `x * 2^e`, with `sticky` set when the exact value
/// `n * 2^(e - t)` lies strictly above it; see [`round_core`].
pub(crate) fn round_bits32(
    neg: bool,
    x: u128,
    e: i64,
    sticky: bool,
    mode: u8,
    fz: bool,
    Ghost(n): Ghost<int>,
    Ghost(t): Ghost<nat>,
) -> (r: u32)
    requires
        x < 0x8000_0000_0000_0000_0000_0000_0000_0000,
        mode < 4,
        -100_000 <= e <= 100_000,
        n >= 0,
        x == n / pow2i(t as int),
        sticky == (n % pow2i(t as int) != 0),
        t > 0 ==> lg2(x as int) >= 25,
    ensures
        r == round32(neg, n, e - t, mode as int, fz),
{
    let sgn: u32 = if neg { 0x8000_0000 } else { 0 };
    proof {
        lemma_pow2_pos(t);
    }
    if x == 0 {
        proof {
            if t > 0 {
                assert(lg2(0) == 0);
            }
            assert(pow2i(0) == 1) by {
                lemma2_to64();
            }
        }
        return sgn;
    }
    let l = floor_log2(x);
    proof {
        if t > 0 {
            lemma_lg2_shift(n, t);
        } else {
            assert(pow2i(0) == 1) by {
                lemma2_to64();
            }
        }
    }
    if fz && (l as i64) + e < -126 {
        return sgn;
    }
    let (s, u) = round_core(neg, x, e, sticky, mode, 24, -149, Ghost(n), Ghost(t));
    proof {
        lemma2_to64();
    }
    if s == 0 {
        return sgn;
    }
    proof {
        lemma_lg2_bounds(s as int);
        if s >= 0x100_0000 {
            lemma_lg2_unique(s as int, 24);
        } else if s >= 0x80_0000 {
            lemma_lg2_unique(s as int, 23);
        } else {
            if lg2(s as int) >= 23 {
                lemma_pow2_strictly_increases(23, lg2(s as int) as nat);
            }
        }
    }
    if s >= 0x100_0000 {
        if u + 151 >= 255 {
            return overflow_bits32(neg, mode);
        }
        proof {
            crate::ieee::lemma_fields32(if neg { 1 } else { 0 }, (u + 151) as int, 0);
        }
        sgn + ((u + 151) as u32) * 0x80_0000
    } else if s >= 0x80_0000 {
        if u + 150 >= 255 {
            return overflow_bits32(neg, mode);
        }
        sgn + ((u + 150) as u32) * 0x80_0000 + ((s - 0x80_0000) as u32)
    } else {
        sgn + (s as u32)
    }
}

/// [`round64`] of the value `x * 2^e`, with `sticky` set when the exact value
/// `n * 2^(e - t)` lies strictly above it; see [`round_core`].
pub(crate) fn round_bits64(
    neg: bool,
    x: u128,
    e: i64,
    sticky: bool,
    mode: u8,
    fz: bool,
    Ghost(n): Ghost<int>,
    Ghost(t): Ghost<nat>,
) -> (r: u64)
    requires
        x < 0x8000_0000_0000_0000_0000_0000_0000_0000,
        mode < 4,
        -100_000 <= e <= 100_000,
        n >= 0,
        x == n / pow2i(t as int),
        sticky == (n % pow2i(t as int) != 0),
        t > 0 ==> lg2(x as int) >= 54,
    ensures
        r == round64(neg, n, e - t, mode as int, fz),
{
    let sgn: u64 = if neg { 0x8000_0000_0000_0000 } else { 0 };
    proof {
        lemma_pow2_pos(t);
    }
    if x == 0 {
        proof {
            if t > 0 {
                assert(lg2(0) == 0);
            }
            assert(pow2i(0) == 1) by {
                lemma2_to64();
            }
        }
        return sgn;
    }
    let l = floor_log2(x);
    proof {
        if t > 0 {
            lemma_lg2_shift(n, t);
        } else {
            assert(pow2i(0) == 1) by {
                lemma2_to64();
            }
        }
    }
    if fz && (l as i64) + e < -1022 {
        return sgn;
    }
    let (s, u) = round_core(neg, x, e, sticky, mode, 53, -1074, Ghost(n), Ghost(t));
    proof {
        lemma2_to64();
        lemma2_to64_rest();
    }
    if s == 0 {
        return sgn;
    }
    proof {
        lemma_lg2_bounds(s as int);
        if s >= 0x20_0000_0000_0000 {
            lemma_lg2_unique(s as int, 53);
        } else if s >= 0x10_0000_0000_0000 {
            lemma_lg2_unique(s as int, 52);
        } else {
            if lg2(s as int) >= 52 {
                lemma_pow2_strictly_increases(52, lg2(s as int) as nat);
            }
        }
    }
    if s >= 0x20_0000_0000_0000 {
        if u + 1076 >= 2047 {
            return overflow_bits64(neg, mode);
        }
        sgn + ((u + 1076) as u64) * 0x10_0000_0000_0000
    } else if s >= 0x10_0000_0000_0000 {
        if u + 1075 >= 2047 {
            return overflow_bits64(neg, mode);
        }
        sgn + ((u + 1075) as u64) * 0x10_0000_0000_0000 + ((s - 0x10_0000_0000_0000) as u64)
    } else {
        sgn + (s as u64)
    }
}

// ---------------------------------------------------------------------------
// Multiplication
// ---------------------------------------------------------------------------

/// The `f32` lane is an infinity.
pub open spec fn inf32(b: u32) -> bool {
    mag32(b) == 0x7f80_0000
}

/// The `f64` lane is an infinity.
pub open spec fn inf64(b: u64) -> bool {
    mag64(b) == 0x7ff0_0000_0000_0000
}

/// Product of two `f32` lanes, rounded by rounding code `mode`. Denormal
/// operands read as zero when `fz` is set; a NaN operand propagates (see
/// [`nan2_32`]); infinity times zero is the default NaN; otherwise the sign is
/// the exclusive or of the operand signs.
pub open spec fn fmul32(a: u32, b: u32, mode: int, fz: bool, dn: bool) -> u32 {
    let x = flush32(a, fz);
    let y = flush32(b, fz);
    let neg = neg32(x) != neg32(y);
    if nan32(x) || nan32(y) {
        nan2_32(x, y, dn)
    } else if (inf32(x) && mag32(y) == 0) || (mag32(x) == 0 && inf32(y)) {
        0x7fc0_0000u32
    } else if inf32(x) || inf32(y) {
        if neg { 0xff80_0000u32 } else { 0x7f80_0000u32 }
    } else {
        round32(neg, sig32(x) * sig32(y), scale32(x) + scale32(y), mode, fz)
    }
}

/// Product of two `f64` lanes: [`fmul32`] at double precision.
pub open spec fn fmul64(a: u64, b: u64, mode: int, fz: bool, dn: bool) -> u64 {
    let x = flush64(a, fz);
    let y = flush64(b, fz);
    let neg = neg64(x) != neg64(y);
    if nan64(x) || nan64(y) {
        nan2_64(x, y, dn)
    } else if (inf64(x) && mag64(y) == 0) || (mag64(x) == 0 && inf64(y)) {
        0x7ff8_0000_0000_0000u64
    } else if inf64(x) || inf64(y) {
        if neg { 0xfff0_0000_0000_0000u64 } else { 0x7ff0_0000_0000_0000u64 }
    } else {
        round64(neg, sig64(x) * sig64(y), scale64(x) + scale64(y), mode, fz)
    }
}

proof fn lemma_exact(n: int)
    requires
        n >= 0,
    ensures
        n / pow2i(0) == n,
        n % pow2i(0) == 0,
{
    lemma2_to64();
    assert(pow2i(0) == 1);
    lemma_fundamental_div_mod_converse(n, 1, n, 0);
}

/// Evaluate [`fmul32`].
pub(crate) fn mul_lane32(a: u32, b: u32, mode: u8, fz: bool, dn: bool) -> (r: u32)
    requires
        mode < 4,
    ensures
        r == fmul32(a, b, mode as int, fz, dn),
{
    let x = flush_lane32(a, fz);
    let y = flush_lane32(b, fz);
    if is_nan32(x) || is_nan32(y) {
        return nan_pair32(x, y, dn);
    }
    let neg = (x >= 0x8000_0000) != (y >= 0x8000_0000);
    let mx = x % 0x8000_0000;
    let my = y % 0x8000_0000;
    if (mx == 0x7f80_0000 && my == 0) || (mx == 0 && my == 0x7f80_0000) {
        return 0x7fc0_0000;
    }
    if mx == 0x7f80_0000 || my == 0x7f80_0000 {
        return if neg { 0xff80_0000 } else { 0x7f80_0000 };
    }
    let ex = (x / 0x80_0000) % 0x100;
    let ey = (y / 0x80_0000) % 0x100;
    proof {
        assert(ex != 0xff && ey != 0xff) by {
            lemma_fundamental_div_mod(x as int, 0x80_0000);
            lemma_fundamental_div_mod(y as int, 0x80_0000);
            lemma_fundamental_div_mod(x as int / 0x80_0000, 0x100);
            lemma_fundamental_div_mod(y as int / 0x80_0000, 0x100);
        }
    }
    let fx = x % 0x80_0000;
    let fy = y % 0x80_0000;
    let sx: u64 = if ex == 0 { fx as u64 } else { (fx + 0x80_0000) as u64 };
    let sy: u64 = if ey == 0 { fy as u64 } else { (fy + 0x80_0000) as u64 };
    let kx: i64 = if ex == 0 { -149 } else { ex as i64 - 150 };
    let ky: i64 = if ey == 0 { -149 } else { ey as i64 - 150 };
    proof {
        assert(sx * sy < 0x1_0000_0000_0000) by (nonlinear_arith)
            requires
                sx < 0x100_0000,
                sy < 0x100_0000,
        ;
    }
    let m: u128 = (sx * sy) as u128;
    proof {
        lemma_exact(m as int);
    }
    round_bits32(neg, m, kx + ky, false, mode, fz, Ghost(m as int), Ghost(0))
}

/// Evaluate [`fmul64`].
pub(crate) fn mul_lane64(a: u64, b: u64, mode: u8, fz: bool, dn: bool) -> (r: u64)
    requires
        mode < 4,
    ensures
        r == fmul64(a, b, mode as int, fz, dn),
{
    let x = flush_lane64(a, fz);
    let y = flush_lane64(b, fz);
    if is_nan64(x) || is_nan64(y) {
        return nan_pair64(x, y, dn);
    }
    let neg = (x >= 0x8000_0000_0000_0000) != (y >= 0x8000_0000_0000_0000);
    let mx = x % 0x8000_0000_0000_0000;
    let my = y % 0x8000_0000_0000_0000;
    if (mx == 0x7ff0_0000_0000_0000 && my == 0) || (mx == 0 && my == 0x7ff0_0000_0000_0000) {
        return 0x7ff8_0000_0000_0000;
    }
    if mx == 0x7ff0_0000_0000_0000 || my == 0x7ff0_0000_0000_0000 {
        return if neg { 0xfff0_0000_0000_0000 } else { 0x7ff0_0000_0000_0000 };
    }
    let ex = (x / 0x10_0000_0000_0000) % 0x800;
    let ey = (y / 0x10_0000_0000_0000) % 0x800;
    proof {
        assert(ex != 0x7ff && ey != 0x7ff) by {
            lemma_fundamental_div_mod(x as int, 0x10_0000_0000_0000);
            lemma_fundamental_div_mod(y as int, 0x10_0000_0000_0000);
            lemma_fundamental_div_mod(x as int / 0x10_0000_0000_0000, 0x800);
            lemma_fundamental_div_mod(y as int / 0x10_0000_0000_0000, 0x800);
        }
    }
    let fx = x % 0x10_0000_0000_0000;
    let fy = y % 0x10_0000_0000_0000;
    let sx: u128 = if ex == 0 { fx as u128 } else { (fx + 0x10_0000_0000_0000) as u128 };
    let sy: u128 = if ey == 0 { fy as u128 } else { (fy + 0x10_0000_0000_0000) as u128 };
    let kx: i64 = if ex == 0 { -1074 } else { ex as i64 - 1075 };
    let ky: i64 = if ey == 0 { -1074 } else { ey as i64 - 1075 };
    proof {
        assert(sx * sy < 0x40_0000_0000_0000_0000_0000_0000_0000) by (nonlinear_arith)
            requires
                sx < 0x20_0000_0000_0000,
                sy < 0x20_0000_0000_0000,
        ;
    }
    let m: u128 = sx * sy;
    proof {
        lemma_exact(m as int);
    }
    round_bits64(neg, m, kx + ky, false, mode, fz, Ghost(m as int), Ghost(0))
}

// ---------------------------------------------------------------------------
// Addition and subtraction
// ---------------------------------------------------------------------------

/// Signed value of the finite `f32` lane `b` in units of `2^m`, for `m` at most
/// its scale.
pub open spec fn units32(b: u32, sign: bool, m: int) -> int {
    let v = sig32(b) * pow2i(scale32(b) - m);
    if sign { -v } else { v }
}

/// Signed value of the finite `f64` lane `b` in units of `2^m`, for `m` at most
/// its scale.
pub open spec fn units64(b: u64, sign: bool, m: int) -> int {
    let v = sig64(b) * pow2i(scale64(b) - m);
    if sign { -v } else { v }
}

/// Sum (`sub` false) or difference (`sub` true) of two `f32` lanes, rounded by
/// rounding code `mode`. Denormal operands read as zero when `fz` is set; a NaN
/// operand propagates (see [`nan2_32`]); infinities of opposite effective sign
/// give the default NaN, and an infinity otherwise wins. An exact zero sum of
/// operands of opposite effective sign is `+0.0`, or `-0.0` when rounding down.
pub open spec fn fadd32(a: u32, b: u32, sub: bool, mode: int, fz: bool, dn: bool) -> u32 {
    let x = flush32(a, fz);
    let y = flush32(b, fz);
    let sx = neg32(x);
    let sy = neg32(y) != sub;
    if nan32(x) || nan32(y) {
        nan2_32(x, y, dn)
    } else if inf32(x) && inf32(y) && sx != sy {
        0x7fc0_0000u32
    } else if inf32(x) {
        x
    } else if inf32(y) {
        if sy { 0xff80_0000u32 } else { 0x7f80_0000u32 }
    } else {
        fadd_finite32(x, y, sx, sy, mode, fz)
    }
}

/// The sum of two finite `f32` lanes of effective signs `sx` and `sy`:
/// the exact sum rounded, with the sign rule for an exact zero.
pub open spec fn fadd_finite32(x: u32, y: u32, sx: bool, sy: bool, mode: int, fz: bool) -> u32 {
    let m = if scale32(x) < scale32(y) { scale32(x) } else { scale32(y) };
    let v = units32(x, sx, m) + units32(y, sy, m);
    if v == 0 {
        if (sx && sy) || (sx != sy && mode == 1) { 0x8000_0000u32 } else { 0u32 }
    } else {
        round32(v < 0, abs(v), m, mode, fz)
    }
}

/// [`fadd32`] at double precision.
pub open spec fn fadd64(a: u64, b: u64, sub: bool, mode: int, fz: bool, dn: bool) -> u64 {
    let x = flush64(a, fz);
    let y = flush64(b, fz);
    let sx = neg64(x);
    let sy = neg64(y) != sub;
    if nan64(x) || nan64(y) {
        nan2_64(x, y, dn)
    } else if inf64(x) && inf64(y) && sx != sy {
        0x7ff8_0000_0000_0000u64
    } else if inf64(x) {
        x
    } else if inf64(y) {
        if sy { 0xfff0_0000_0000_0000u64 } else { 0x7ff0_0000_0000_0000u64 }
    } else {
        fadd_finite64(x, y, sx, sy, mode, fz)
    }
}

/// [`fadd_finite32`] at double precision.
pub open spec fn fadd_finite64(x: u64, y: u64, sx: bool, sy: bool, mode: int, fz: bool) -> u64 {
    let m = if scale64(x) < scale64(y) { scale64(x) } else { scale64(y) };
    let v = units64(x, sx, m) + units64(y, sy, m);
    if v == 0 {
        if (sx && sy) || (sx != sy && mode == 1) { 0x8000_0000_0000_0000u64 } else { 0u64 }
    } else {
        round64(v < 0, abs(v), m, mode, fz)
    }
}

/// The exact sum `(-1)^sa * ma * 2^d + (-1)^sb * mb` of a larger operand `a`
/// and a smaller one `b`, rounded to `f32` at unit `2^kb`; `d` is the
/// difference of their scales.
fn add_aligned32(
    sa: bool,
    ma: u64,
    sb: bool,
    mb: u64,
    d: u64,
    kb: i64,
    mode: u8,
    fz: bool,
) -> (r: u32)
    requires
        ma < 0x100_0000,
        mb < 0x100_0000,
        d <= 300,
        d > 100 ==> ma >= 0x80_0000,
        -200 <= kb <= 200,
        mode < 4,
        (if sa { -(ma * pow2i(d as int)) } else { ma * pow2i(d as int) }) + (if sb { -mb } else {
            mb as int
        }) != 0,
    ensures
        ({
            let v = (if sa { -(ma * pow2i(d as int)) } else { ma * pow2i(d as int) }) + (if sb {
                -mb
            } else {
                mb as int
            });
            r == round32(v < 0, abs(v), kb as int, mode as int, fz)
        }),
{
    let ghost ta = ma * pow2i(d as int);
    let ghost v = (if sa { -ta } else { ta }) + (if sb { -mb } else { mb as int });
    proof {
        lemma2_to64();
        lemma_pow2_pos(d as nat);
    }
    if d <= 100 {
        proof {
            lemma_pow2_128();
            if d < 100 {
                lemma_pow2_strictly_increases(d as nat, 100);
            }
            lemma_pow2_adds(100, 24);
            lemma_pow2_strictly_increases(124, 127);
            assert(ma * pow2i(d as int) <= 0xff_ffff * pow2i(100)) by (nonlinear_arith)
                requires
                    ma <= 0xff_ffff,
                    pow2i(d as int) <= pow2i(100),
                    pow2i(d as int) >= 1,
            ;
        }
        let w = pow2_u128(d as u32);
        let va: u128 = (ma as u128) * w;
        let vb: u128 = mb as u128;
        let (neg, n) = if sa == sb {
            (sa, va + vb)
        } else if va >= vb {
            (sa, va - vb)
        } else {
            (sb, vb - va)
        };
        proof {
            lemma_exact(n as int);
        }
        round_bits32(neg, n, kb, false, mode, fz, Ghost(n as int), Ghost(0))
    } else {
        let t: u64 = d - 3;
        proof {
            lemma_pow2_adds(3, t as nat);
            lemma_pow2_pos(t as nat);
            lemma_pow2_strictly_increases(24, t as nat);
            assert(ma * pow2i(d as int) == 8 * ma * pow2i(t as int)) by (nonlinear_arith)
                requires
                    pow2i(d as int) == 8 * pow2i(t as int),
            ;
            assert(8 * ma * pow2i(t as int) >= pow2i(t as int)) by (nonlinear_arith)
                requires
                    ma >= 1,
                    pow2i(t as int) >= 1,
            ;
        }
        let ghost n = abs(v);
        let (x, sticky) = if sa == sb || mb == 0 {
            proof {
                lemma_fundamental_div_mod_converse(n, pow2i(t as int), 8 * ma, mb as int);
            }
            (8 * (ma as u128), mb != 0)
        } else {
            proof {
                assert(n == (8 * ma - 1) * pow2i(t as int) + (pow2i(t as int) - mb)) by (
                nonlinear_arith)
                    requires
                        n == 8 * ma * pow2i(t as int) - mb,
                ;
                lemma_fundamental_div_mod_converse(
                    n,
                    pow2i(t as int),
                    8 * ma - 1,
                    pow2i(t as int) - mb,
                );
            }
            (8 * (ma as u128) - 1, true)
        };
        proof {
            lemma_lg2_unique(x as int, if x >= 0x400_0000 { 26int } else { 25int });
            assert(x >= 0x200_0000);
        }
        round_bits32(sa, x, kb + t as i64, sticky, mode, fz, Ghost(n), Ghost(t as nat))
    }
}

proof fn lemma_units_pair32(x: u32, y: u32, sx: bool, sy: bool)
    requires
        scale32(x) >= scale32(y),
    ensures
        ({
            let m = if scale32(x) < scale32(y) { scale32(x) } else { scale32(y) };
            let d = scale32(x) - scale32(y);
            units32(x, sx, m) + units32(y, sy, m) == (if sx {
                -(sig32(x) * pow2i(d))
            } else {
                sig32(x) * pow2i(d)
            }) + (if sy { -sig32(y) } else { sig32(y) })
        }),
{
    lemma2_to64();
    assert(pow2i(0) == 1);
    let m = if scale32(x) < scale32(y) { scale32(x) } else { scale32(y) };
    assert(m == scale32(y));
    let k = pow2i(scale32(y) - m);
    assert(k == 1);
    assert(sig32(y) * k == sig32(y)) by (nonlinear_arith)
        requires
            k == 1,
    ;
}

proof fn lemma_larger_is_normal32(x: u32, y: u32)
    requires
        exp32(x) != 0xff,
        scale32(x) > scale32(y),
    ensures
        sig32(x) >= 0x80_0000,
        sig32(x) * pow2i(scale32(x) - scale32(y)) >= 2 * sig32(x),
        sig32(y) < 0x100_0000,
{
    lemma2_to64();
    let d = scale32(x) - scale32(y);
    lemma_pow2_strictly_increases(0, d as nat);
    lemma_pow2_unfold(d as nat);
    lemma_pow2_pos((d - 1) as nat);
    assert(sig32(x) * pow2i(d) >= 2 * sig32(x)) by (nonlinear_arith)
        requires
            pow2i(d) >= 2,
            sig32(x) >= 0,
    ;
}

/// Significand, and scale counted in units above the smallest (`2^-149`), of
/// a finite `f32` lane.
fn decode32(x: u32) -> (r: (u64, u64))
    requires
        exp32(x) != 0xff,
    ensures
        r.0 == sig32(x),
        r.1 as int - 149 == scale32(x),
        r.1 <= 253,
        r.0 < 0x100_0000,
{
    let ex = (x / 0x80_0000) % 0x100;
    let f = (x % 0x80_0000) as u64;
    if ex == 0 {
        (f, 0)
    } else {
        (f + 0x80_0000, (ex - 1) as u64)
    }
}

fn add_finite32(x: u32, y: u32, sx: bool, sy: bool, mode: u8, fz: bool) -> (r: u32)
    requires
        exp32(x) != 0xff,
        exp32(y) != 0xff,
        mode < 4,
    ensures
        r == fadd_finite32(x, y, sx, sy, mode as int, fz),
{
    let (mx, kx) = decode32(x);
    let (my, ky) = decode32(y);
    proof {
        lemma2_to64();
    }
    if kx >= ky {
        let d = kx - ky;
        proof {
            lemma_units_pair32(x, y, sx, sy);
            if d >= 1 {
                lemma_larger_is_normal32(x, y);
            } else {
                let k = pow2i(d as int);
                assert(k == 1);
                assert(mx * k == mx) by (nonlinear_arith)
                    requires
                        k == 1,
                ;
            }
        }
        if d == 0 && mx == my && (sx != sy || mx == 0) {
            return if (sx && sy) || (sx != sy && mode == 1) { 0x8000_0000 } else { 0 };
        }
        add_aligned32(sx, mx, sy, my, d, ky as i64 - 149, mode, fz)
    } else {
        let d = ky - kx;
        proof {
            lemma_units_pair32(y, x, sy, sx);
            lemma_larger_is_normal32(y, x);
        }
        add_aligned32(sy, my, sx, mx, d, kx as i64 - 149, mode, fz)
    }
}

/// Evaluate [`fadd32`].
pub(crate) fn add_lane32(a: u32, b: u32, sub: bool, mode: u8, fz: bool, dn: bool) -> (r: u32)
    requires
        mode < 4,
    ensures
        r == fadd32(a, b, sub, mode as int, fz, dn),
{
    let x = flush_lane32(a, fz);
    let y = flush_lane32(b, fz);
    if is_nan32(x) || is_nan32(y) {
        return nan_pair32(x, y, dn);
    }
    let sx = x >= 0x8000_0000;
    let sy = (y >= 0x8000_0000) != sub;
    let ix = x % 0x8000_0000 == 0x7f80_0000;
    let iy = y % 0x8000_0000 == 0x7f80_0000;
    if ix && iy && sx != sy {
        return 0x7fc0_0000;
    }
    if ix {
        return x;
    }
    if iy {
        return if sy { 0xff80_0000 } else { 0x7f80_0000 };
    }
    proof {
        lemma_finite32(x);
        lemma_finite32(y);
    }
    add_finite32(x, y, sx, sy, mode, fz)
}

proof fn lemma_finite32(x: u32)
    requires
        !nan32(x),
        mag32(x) != 0x7f80_0000,
    ensures
        exp32(x) != 0xff,
{
    lemma_fundamental_div_mod(x as int, 0x80_0000);
    lemma_fundamental_div_mod(x as int / 0x80_0000, 0x100);
}

/// The exact sum `(-1)^sa * ma * 2^d + (-1)^sb * mb` of a larger operand `a`
/// and a smaller one `b`, rounded to `f64` at unit `2^kb`; `d` is the
/// difference of their scales.
fn add_aligned64(
    sa: bool,
    ma: u64,
    sb: bool,
    mb: u64,
    d: u64,
    kb: i64,
    mode: u8,
    fz: bool,
) -> (r: u64)
    requires
        ma < 0x20_0000_0000_0000,
        mb < 0x20_0000_0000_0000,
        d <= 2100,
        d > 72 ==> ma >= 0x10_0000_0000_0000,
        -1100 <= kb <= 1000,
        mode < 4,
        (if sa { -(ma * pow2i(d as int)) } else { ma * pow2i(d as int) }) + (if sb { -mb } else {
            mb as int
        }) != 0,
    ensures
        ({
            let v = (if sa { -(ma * pow2i(d as int)) } else { ma * pow2i(d as int) }) + (if sb {
                -mb
            } else {
                mb as int
            });
            r == round64(v < 0, abs(v), kb as int, mode as int, fz)
        }),
{
    let ghost ta = ma * pow2i(d as int);
    let ghost v = (if sa { -ta } else { ta }) + (if sb { -mb } else { mb as int });
    proof {
        lemma2_to64();
        lemma_pow2_pos(d as nat);
    }
    if d <= 72 {
        proof {
            lemma_pow2_128();
            lemma2_to64_rest();
            if d < 72 {
                lemma_pow2_strictly_increases(d as nat, 72);
            }
            lemma_pow2_adds(72, 53);
            lemma_pow2_strictly_increases(125, 127);
            assert(ma * pow2i(d as int) <= 0x1f_ffff_ffff_ffff * pow2i(72)) by (nonlinear_arith)
                requires
                    ma <= 0x1f_ffff_ffff_ffff,
                    pow2i(d as int) <= pow2i(72),
                    pow2i(d as int) >= 1,
            ;
        }
        let w = pow2_u128(d as u32);
        let va: u128 = (ma as u128) * w;
        let vb: u128 = mb as u128;
        let (neg, n) = if sa == sb {
            (sa, va + vb)
        } else if va >= vb {
            (sa, va - vb)
        } else {
            (sb, vb - va)
        };
        proof {
            lemma_exact(n as int);
        }
        round_bits64(neg, n, kb, false, mode, fz, Ghost(n as int), Ghost(0))
    } else {
        let t: u64 = d - 3;
        proof {
            lemma_pow2_adds(3, t as nat);
            lemma_pow2_pos(t as nat);
            lemma2_to64_rest();
            lemma_pow2_strictly_increases(53, t as nat);
            assert(ma * pow2i(d as int) == 8 * ma * pow2i(t as int)) by (nonlinear_arith)
                requires
                    pow2i(d as int) == 8 * pow2i(t as int),
            ;
            assert(8 * ma * pow2i(t as int) >= pow2i(t as int)) by (nonlinear_arith)
                requires
                    ma >= 1,
                    pow2i(t as int) >= 1,
            ;
        }
        let ghost n = abs(v);
        let (x, sticky) = if sa == sb || mb == 0 {
            proof {
                lemma_fundamental_div_mod_converse(n, pow2i(t as int), 8 * ma, mb as int);
            }
            (8 * (ma as u128), mb != 0)
        } else {
            proof {
                assert(n == (8 * ma - 1) * pow2i(t as int) + (pow2i(t as int) - mb)) by (
                nonlinear_arith)
                    requires
                        n == 8 * ma * pow2i(t as int) - mb,
                ;
                lemma_fundamental_div_mod_converse(
                    n,
                    pow2i(t as int),
                    8 * ma - 1,
                    pow2i(t as int) - mb,
                );
            }
            (8 * (ma as u128) - 1, true)
        };
        proof {
            lemma_lg2_unique(x as int, if x >= 0x80_0000_0000_0000 { 55int } else { 54int });
            assert(x >= 0x40_0000_0000_0000);
        }
        round_bits64(sa, x, kb + t as i64, sticky, mode, fz, Ghost(n), Ghost(t as nat))
    }
}

proof fn lemma_units_pair64(x: u64, y: u64, sx: bool, sy: bool)
    requires
        scale64(x) >= scale64(y),
    ensures
        ({
            let m = if scale64(x) < scale64(y) { scale64(x) } else { scale64(y) };
            let d = scale64(x) - scale64(y);
            units64(x, sx, m) + units64(y, sy, m) == (if sx {
                -(sig64(x) * pow2i(d))
            } else {
                sig64(x) * pow2i(d)
            }) + (if sy { -sig64(y) } else { sig64(y) })
        }),
{
    lemma2_to64();
    assert(pow2i(0) == 1);
    let m = if scale64(x) < scale64(y) { scale64(x) } else { scale64(y) };
    assert(m == scale64(y));
    let k = pow2i(scale64(y) - m);
    assert(k == 1);
    assert(sig64(y) * k == sig64(y)) by (nonlinear_arith)
        requires
            k == 1,
    ;
}

proof fn lemma_larger_is_normal64(x: u64, y: u64)
    requires
        exp64(x) != 0x7ff,
        scale64(x) > scale64(y),
    ensures
        sig64(x) >= 0x10_0000_0000_0000,
        sig64(x) * pow2i(scale64(x) - scale64(y)) >= 2 * sig64(x),
        sig64(y) < 0x20_0000_0000_0000,
{
    lemma2_to64();
    let d = scale64(x) - scale64(y);
    lemma_pow2_strictly_increases(0, d as nat);
    lemma_pow2_unfold(d as nat);
    lemma_pow2_pos((d - 1) as nat);
    assert(sig64(x) * pow2i(d) >= 2 * sig64(x)) by (nonlinear_arith)
        requires
            pow2i(d) >= 2,
            sig64(x) >= 0,
    ;
}

/// Significand, and scale counted in units above the smallest (`2^-1074`), of
/// a finite `f64` lane.
fn decode64(x: u64) -> (r: (u64, u64))
    requires
        exp64(x) != 0x7ff,
    ensures
        r.0 == sig64(x),
        r.1 as int - 1074 == scale64(x),
        r.1 <= 2045,
        r.0 < 0x20_0000_0000_0000,
{
    let ex = (x / 0x10_0000_0000_0000) % 0x800;
    let f = x % 0x10_0000_0000_0000;
    if ex == 0 {
        (f, 0)
    } else {
        (f + 0x10_0000_0000_0000, ex - 1)
    }
}

fn add_finite64(x: u64, y: u64, sx: bool, sy: bool, mode: u8, fz: bool) -> (r: u64)
    requires
        exp64(x) != 0x7ff,
        exp64(y) != 0x7ff,
        mode < 4,
    ensures
        r == fadd_finite64(x, y, sx, sy, mode as int, fz),
{
    let (mx, kx) = decode64(x);
    let (my, ky) = decode64(y);
    proof {
        lemma2_to64();
    }
    if kx >= ky {
        let d = kx - ky;
        proof {
            lemma_units_pair64(x, y, sx, sy);
            if d >= 1 {
                lemma_larger_is_normal64(x, y);
            } else {
                let k = pow2i(d as int);
                assert(k == 1);
                assert(mx * k == mx) by (nonlinear_arith)
                    requires
                        k == 1,
                ;
            }
        }
        if d == 0 && mx == my && (sx != sy || mx == 0) {
            return if (sx && sy) || (sx != sy && mode == 1) { 0x8000_0000_0000_0000 } else { 0 };
        }
        add_aligned64(sx, mx, sy, my, d, ky as i64 - 1074, mode, fz)
    } else {
        let d = ky - kx;
        proof {
            lemma_units_pair64(y, x, sy, sx);
            lemma_larger_is_normal64(y, x);
        }
        add_aligned64(sy, my, sx, mx, d, kx as i64 - 1074, mode, fz)
    }
}

/// Evaluate [`fadd64`].
pub(crate) fn add_lane64(a: u64, b: u64, sub: bool, mode: u8, fz: bool, dn: bool) -> (r: u64)
    requires
        mode < 4,
    ensures
        r == fadd64(a, b, sub, mode as int, fz, dn),
{
    let x = flush_lane64(a, fz);
    let y = flush_lane64(b, fz);
    if is_nan64(x) || is_nan64(y) {
        return nan_pair64(x, y, dn);
    }
    let sx = x >= 0x8000_0000_0000_0000;
    let sy = (y >= 0x8000_0000_0000_0000) != sub;
    let ix = x % 0x8000_0000_0000_0000 == 0x7ff0_0000_0000_0000;
    let iy = y % 0x8000_0000_0000_0000 == 0x7ff0_0000_0000_0000;
    if ix && iy && sx != sy {
        return 0x7ff8_0000_0000_0000;
    }
    if ix {
        return x;
    }
    if iy {
        return if sy { 0xfff0_0000_0000_0000 } else { 0x7ff0_0000_0000_0000 };
    }
    proof {
        lemma_finite64(x);
        lemma_finite64(y);
    }
    add_finite64(x, y, sx, sy, mode, fz)
}

proof fn lemma_finite64(x: u64)
    requires
        !nan64(x),
        mag64(x) != 0x7ff0_0000_0000_0000,
    ensures
        exp64(x) != 0x7ff,
{
    lemma_fundamental_div_mod(x as int, 0x10_0000_0000_0000);
    lemma_fundamental_div_mod(x as int / 0x10_0000_0000_0000, 0x800);
}


// ---------------------------------------------------------------------------
// Ratios
// ---------------------------------------------------------------------------

/// `floor(log2(num / den))` for `num, den >= 1`.
pub open spec fn lgq(num: int, den: int) -> int {
    let a = lg2(num);
    let b = lg2(den);
    if num * pow2i(b) >= den * pow2i(a) {
        a - b
    } else {
        a - b - 1
    }
}

/// `(-1)^neg * num / den * 2^k` rounded to an integer by rounding code `mode`.
pub open spec fn round_ratio(neg: bool, num: int, den: int, k: int, mode: int) -> int {
    if k >= 0 {
        round_div(neg, num * pow2i(k), den, mode)
    } else {
        round_div(neg, num, den * pow2i(-k), mode)
    }
}

/// [`ulp_exp`] of the exact value `num / den * 2^e`.
pub open spec fn ulp_exp_q(num: int, den: int, e: int, p: int, qmin: int) -> int {
    let u = lgq(num, den) + e - (p - 1);
    if u < qmin {
        qmin
    } else {
        u
    }
}

/// [`rounded_sig`] of the exact value `(-1)^neg * num / den * 2^e`.
pub open spec fn rounded_sig_q(neg: bool, num: int, den: int, e: int, mode: int, p: int, qmin: int) -> int {
    abs(round_ratio(neg, num, den, e - ulp_exp_q(num, den, e, p, qmin), mode))
}

proof fn lemma_pow2_below(x: int, y: int)
    requires
        x >= 0,
        y >= 0,
        pow2i(x) < pow2i(y),
    ensures
        x < y,
{
    if x >= y {
        if x > y {
            lemma_pow2_strictly_increases(y as nat, x as nat);
        }
    }
}

proof fn lemma_pow2_mul(x: int, y: int)
    requires
        x >= 0,
        y >= 0,
    ensures
        pow2i(x) * pow2i(y) == pow2i(x + y),
        pow2i(x) >= 1,
{
    lemma_pow2_adds(x as nat, y as nat);
    lemma_pow2_pos(x as nat);
}

/// The logarithm of a ratio is the unique `l` with
/// `den * 2^l <= num < den * 2^(l+1)`, here scaled by `2^k` to keep the powers
/// whole.
pub proof fn lemma_lgq_unique(num: int, den: int, l: int, k: int)
    requires
        num >= 1,
        den >= 1,
        k >= 0,
        l + k >= 0,
        den * pow2i(l + k) <= num * pow2i(k),
        num * pow2i(k) < den * pow2i(l + k + 1),
    ensures
        lgq(num, den) == l,
{
    let a = lg2(num);
    let b = lg2(den);
    lemma_lg2_bounds(num);
    lemma_lg2_bounds(den);
    let pk = pow2i(k);
    lemma_pow2_mul(l + k, 0);
    lemma_pow2_mul(k, 0);
    lemma_pow2_mul(b, l + k);
    lemma_pow2_mul(a + 1, k);
    lemma_pow2_mul(a, k);
    lemma_pow2_mul(b + 1, l + k + 1);
    lemma_pow2_pos((l + k + 1) as nat);
    // Upper bound on l.
    vstd::arithmetic::mul::lemma_mul_inequality(pow2i(b), den, pow2i(l + k));
    vstd::arithmetic::mul::lemma_mul_strict_inequality(num, pow2i(a + 1), pk);
    vstd::arithmetic::mul::lemma_mul_is_commutative(pow2i(b), pow2i(l + k));
    vstd::arithmetic::mul::lemma_mul_is_commutative(pow2i(a + 1), pk);
    lemma_pow2_below(b + l + k, a + 1 + k);
    // Lower bound on l.
    vstd::arithmetic::mul::lemma_mul_inequality(pow2i(a), num, pk);
    vstd::arithmetic::mul::lemma_mul_strict_inequality(den, pow2i(b + 1), pow2i(l + k + 1));
    lemma_pow2_below(a + k, b + 1 + l + k + 1);
    // Which of the two the test picks.
    let pb = pow2i(b);
    lemma_pow2_mul(b, 0);
    if l == a - b {
        assert(den * pow2i(a) <= num * pb) by {
            lemma_pow2_mul(a, k);
            lemma_pow2_mul(b, k);
            assert(den * pow2i(l + k) * pb <= num * pk * pb) by {
                vstd::arithmetic::mul::lemma_mul_inequality(den * pow2i(l + k), num * pk, pb);
            }
            assert(den * pow2i(l + k) * pb == den * pow2i(a) * pk) by {
                lemma_pow2_mul(l + k, b);
                vstd::arithmetic::mul::lemma_mul_is_associative(den, pow2i(l + k), pb);
                vstd::arithmetic::mul::lemma_mul_is_associative(den, pow2i(a), pk);
            }
            assert(num * pk * pb == num * pb * pk) by {
                vstd::arithmetic::mul::lemma_mul_is_associative(num, pk, pb);
                vstd::arithmetic::mul::lemma_mul_is_associative(num, pb, pk);
                vstd::arithmetic::mul::lemma_mul_is_commutative(pk, pb);
            }
            vstd::arithmetic::mul::lemma_mul_inequality_converse(den * pow2i(a), num * pb, pk);
        }
    } else {
        assert(l == a - b - 1);
        assert(num * pb < den * pow2i(a)) by {
            assert(num * pk * pb < den * pow2i(l + k + 1) * pb) by {
                vstd::arithmetic::mul::lemma_mul_strict_inequality(num * pk, den * pow2i(l + k + 1), pb);
            }
            assert(den * pow2i(l + k + 1) * pb == den * pow2i(a) * pk) by {
                lemma_pow2_mul(l + k + 1, b);
                lemma_pow2_mul(a, k);
                vstd::arithmetic::mul::lemma_mul_is_associative(den, pow2i(l + k + 1), pb);
                vstd::arithmetic::mul::lemma_mul_is_associative(den, pow2i(a), pk);
            }
            assert(num * pk * pb == num * pb * pk) by {
                vstd::arithmetic::mul::lemma_mul_is_associative(num, pk, pb);
                vstd::arithmetic::mul::lemma_mul_is_associative(num, pb, pk);
                vstd::arithmetic::mul::lemma_mul_is_commutative(pk, pb);
            }
            vstd::arithmetic::mul::lemma_mul_strict_inequality_converse(num * pb, den * pow2i(a), pk);
        }
    }
}

/// [`round_core`] for an exact value that is a ratio: `x` is the quotient
/// `num * 2^k / den`, rounded down, `sticky` records a remainder, and the
/// exact value is `num / den * 2^(e + k)`; `x` keeps at least `p + 2` bits.
fn round_core_q(
    neg: bool,
    x: u128,
    e: i64,
    sticky: bool,
    mode: u8,
    p: u32,
    qmin: i64,
    Ghost(num): Ghost<int>,
    Ghost(den): Ghost<int>,
    Ghost(k): Ghost<nat>,
) -> (r: (u128, i64))
    requires
        1 <= x < 0x8000_0000_0000_0000_0000_0000_0000_0000,
        2 <= p <= 64,
        mode < 4,
        -100_000 <= e <= 100_000,
        -100_000 <= qmin <= 0,
        num >= 1,
        den >= 1,
        x == (num * pow2i(k as int)) / den,
        sticky == ((num * pow2i(k as int)) % den != 0),
        lg2(x as int) >= p + 1,
    ensures
        lgq(num, den) == lg2(x as int) - k,
        r.1 == ulp_exp_q(num, den, e + k, p as int, qmin as int),
        r.0 == rounded_sig_q(neg, num, den, e + k, mode as int, p as int, qmin as int),
        r.0 <= pow2i(p as int),
        r.1 > qmin ==> r.0 >= pow2i(p - 1),
        r.0 >= 1 || r.1 == qmin,
{
    let l = floor_log2(x);
    let ghost big = num * pow2i(k as int);
    proof {
        lemma_lg2_bounds(x as int);
        lemma_pow2_pos(k);
        lemma_pow2_pos((p - 1) as nat);
        lemma_fundamental_div_mod(big, den);
        lemma_mod_bound(big, den);
        vstd::arithmetic::mul::lemma_mul_inequality(pow2i(l as int), x as int, den);
        vstd::arithmetic::mul::lemma_mul_inequality(x as int + 1, pow2i(l as int + 1), den);
        vstd::arithmetic::mul::lemma_mul_is_commutative(den, x as int);
        vstd::arithmetic::mul::lemma_mul_is_distributive_add_other_way(den, x as int, 1);
        vstd::arithmetic::mul::lemma_mul_is_commutative(den, pow2i(l as int));
        vstd::arithmetic::mul::lemma_mul_is_commutative(den, pow2i(l as int + 1));
        assert(pow2i(l - k + k) == pow2i(l as int));
        lemma_lgq_unique(num, den, l - k, k as int);
    }
    let u0: i64 = l as i64 + e - (p as i64 - 1);
    let u: i64 = if u0 < qmin { qmin } else { u0 };
    let j: u64 = (u - e) as u64;
    let m: u128 = 2 * x + if sticky { 1 } else { 0 };
    let s = round_shift128(neg, m, j + 1, mode);
    proof {
        lemma_pow2_pos(j as nat);
        lemma_sticky_round_div(neg, big, den, j as nat, mode as int);
        if k >= j {
            let c = pow2i(j as int);
            lemma_round_div_scale(neg, num * pow2i(k - j), den, c, mode as int);
            lemma_pow2_mul(k - j, j as int);
            vstd::arithmetic::mul::lemma_mul_is_associative(num, pow2i(k - j), c);
            vstd::arithmetic::mul::lemma_mul_is_commutative(den, c);
        } else {
            let c = pow2i(k as int);
            lemma_pow2_pos((j - k) as nat);
            assert(den * pow2i(j - k) >= 1) by (nonlinear_arith)
                requires
                    den >= 1,
                    pow2i(j - k) >= 1,
            ;
            lemma_round_div_scale(neg, num, den * pow2i(j - k), c, mode as int);
            lemma_pow2_mul(j - k, k as int);
            vstd::arithmetic::mul::lemma_mul_is_associative(den, pow2i(j - k), c);
            vstd::arithmetic::mul::lemma_mul_is_commutative(den, pow2i(j as int));
        }
        lemma_pow2_unfold((j + 1) as nat);
        lemma_half_floor(x as int, if sticky { 1 } else { 0 }, pow2i(j as int));
        lemma_shift_bounds(x as int, l as int, j as int);
        if j <= l + 1 {
            if (l + 1 - j) < p {
                lemma_pow2_strictly_increases((l + 1 - j) as nat, p as nat);
            }
        } else {
            lemma_pow2_pos(p as nat);
        }
        if u > qmin {
            assert(j == l - p + 1);
        }
    }
    (s, u)
}

/// [`round32`] of the exact value `(-1)^neg * num / den * 2^e` (`num >= 0`,
/// `den >= 1`).
pub open spec fn round32q(neg: bool, num: int, den: int, e: int, mode: int, fz: bool) -> u32 {
    let sgn: int = if neg { 0x8000_0000 } else { 0 };
    if num == 0 || (fz && lgq(num, den) + e < -126) {
        sgn as u32
    } else {
        let u = ulp_exp_q(num, den, e, 24, -149);
        let s = rounded_sig_q(neg, num, den, e, mode, 24, -149);
        if s == 0 {
            sgn as u32
        } else if u + lg2(s) >= 128 {
            overflow32(neg, mode)
        } else {
            (sgn + pack_mag32(s, u)) as u32
        }
    }
}

/// [`round64`] of the exact value `(-1)^neg * num / den * 2^e` (`num >= 0`,
/// `den >= 1`).
pub open spec fn round64q(neg: bool, num: int, den: int, e: int, mode: int, fz: bool) -> u64 {
    let sgn: int = if neg { 0x8000_0000_0000_0000 } else { 0 };
    if num == 0 || (fz && lgq(num, den) + e < -1022) {
        sgn as u64
    } else {
        let u = ulp_exp_q(num, den, e, 53, -1074);
        let s = rounded_sig_q(neg, num, den, e, mode, 53, -1074);
        if s == 0 {
            sgn as u64
        } else if u + lg2(s) >= 1024 {
            overflow64(neg, mode)
        } else {
            (sgn + pack_mag64(s, u)) as u64
        }
    }
}

/// [`round32q`] of the quotient `x = num * 2^k / den`, rounded down, with
/// `sticky` set when the division left a remainder; see [`round_core_q`].
fn round_bits32q(
    neg: bool,
    x: u128,
    e: i64,
    sticky: bool,
    mode: u8,
    fz: bool,
    Ghost(num): Ghost<int>,
    Ghost(den): Ghost<int>,
    Ghost(k): Ghost<nat>,
) -> (r: u32)
    requires
        x < 0x8000_0000_0000_0000_0000_0000_0000_0000,
        mode < 4,
        -100_000 <= e <= 100_000,
        num >= 1,
        den >= 1,
        x == (num * pow2i(k as int)) / den,
        sticky == ((num * pow2i(k as int)) % den != 0),
        lg2(x as int) >= 25,
    ensures
        r == round32q(neg, num, den, e + k, mode as int, fz),
{
    let sgn: u32 = if neg { 0x8000_0000 } else { 0 };
    proof {
        assert(x >= 1);
    }
    let l = floor_log2(x);
    let (s, u) = round_core_q(neg, x, e, sticky, mode, 24, -149, Ghost(num), Ghost(den), Ghost(k));
    if fz && (l as i64) + e < -126 {
        return sgn;
    }
    proof {
        lemma2_to64();
    }
    if s == 0 {
        return sgn;
    }
    proof {
        lemma_lg2_bounds(s as int);
        if s >= 0x100_0000 {
            lemma_lg2_unique(s as int, 24);
        } else if s >= 0x80_0000 {
            lemma_lg2_unique(s as int, 23);
        } else {
            if lg2(s as int) >= 23 {
                lemma_pow2_strictly_increases(23, lg2(s as int) as nat);
            }
        }
    }
    if s >= 0x100_0000 {
        if u + 151 >= 255 {
            return overflow_bits32(neg, mode);
        }
        sgn + ((u + 151) as u32) * 0x80_0000
    } else if s >= 0x80_0000 {
        if u + 150 >= 255 {
            return overflow_bits32(neg, mode);
        }
        sgn + ((u + 150) as u32) * 0x80_0000 + ((s - 0x80_0000) as u32)
    } else {
        sgn + (s as u32)
    }
}

/// [`round64q`] of the quotient `x = num * 2^k / den`, rounded down, with
/// `sticky` set when the division left a remainder; see [`round_core_q`].
fn round_bits64q(
    neg: bool,
    x: u128,
    e: i64,
    sticky: bool,
    mode: u8,
    fz: bool,
    Ghost(num): Ghost<int>,
    Ghost(den): Ghost<int>,
    Ghost(k): Ghost<nat>,
) -> (r: u64)
    requires
        x < 0x8000_0000_0000_0000_0000_0000_0000_0000,
        mode < 4,
        -100_000 <= e <= 100_000,
        num >= 1,
        den >= 1,
        x == (num * pow2i(k as int)) / den,
        sticky == ((num * pow2i(k as int)) % den != 0),
        lg2(x as int) >= 54,
    ensures
        r == round64q(neg, num, den, e + k, mode as int, fz),
{
    let sgn: u64 = if neg { 0x8000_0000_0000_0000 } else { 0 };
    proof {
        assert(x >= 1);
    }
    let l = floor_log2(x);
    let (s, u) = round_core_q(neg, x, e, sticky, mode, 53, -1074, Ghost(num), Ghost(den), Ghost(k));
    if fz && (l as i64) + e < -1022 {
        return sgn;
    }
    proof {
        lemma2_to64();
        lemma2_to64_rest();
    }
    if s == 0 {
        return sgn;
    }
    proof {
        lemma_lg2_bounds(s as int);
        if s >= 0x20_0000_0000_0000 {
            lemma_lg2_unique(s as int, 53);
        } else if s >= 0x10_0000_0000_0000 {
            lemma_lg2_unique(s as int, 52);
        } else {
            if lg2(s as int) >= 52 {
                lemma_pow2_strictly_increases(52, lg2(s as int) as nat);
            }
        }
    }
    if s >= 0x20_0000_0000_0000 {
        if u + 1076 >= 2047 {
            return overflow_bits64(neg, mode);
        }
        sgn + ((u + 1076) as u64) * 0x10_0000_0000_0000
    } else if s >= 0x10_0000_0000_0000 {
        if u + 1075 >= 2047 {
            return overflow_bits64(neg, mode);
        }
        sgn + ((u + 1075) as u64) * 0x10_0000_0000_0000 + ((s - 0x10_0000_0000_0000) as u64)
    } else {
        sgn + (s as u64)
    }
}

// ---------------------------------------------------------------------------
// Division
// ---------------------------------------------------------------------------

/// Quotient of two `f32` lanes, rounded by rounding code `mode`. Denormal
/// operands read as zero when `fz` is set; a NaN operand propagates (see
/// [`nan2_32`]); `inf / inf` and `0 / 0` give the default NaN; a finite value
/// over zero and infinity over a finite value give an infinity, zero over a
/// nonzero value and a finite value over infinity a zero; the sign is the
/// exclusive or of the operand signs.
pub open spec fn fdiv32(a: u32, b: u32, mode: int, fz: bool, dn: bool) -> u32 {
    let x = flush32(a, fz);
    let y = flush32(b, fz);
    let neg = neg32(x) != neg32(y);
    if nan32(x) || nan32(y) {
        nan2_32(x, y, dn)
    } else if (inf32(x) && inf32(y)) || (mag32(x) == 0 && mag32(y) == 0) {
        0x7fc0_0000u32
    } else if inf32(x) || mag32(y) == 0 {
        if neg { 0xff80_0000u32 } else { 0x7f80_0000u32 }
    } else if inf32(y) || mag32(x) == 0 {
        if neg { 0x8000_0000u32 } else { 0u32 }
    } else {
        round32q(neg, sig32(x), sig32(y), scale32(x) - scale32(y), mode, fz)
    }
}

/// Quotient of two `f64` lanes: [`fdiv32`] at double precision.
pub open spec fn fdiv64(a: u64, b: u64, mode: int, fz: bool, dn: bool) -> u64 {
    let x = flush64(a, fz);
    let y = flush64(b, fz);
    let neg = neg64(x) != neg64(y);
    if nan64(x) || nan64(y) {
        nan2_64(x, y, dn)
    } else if (inf64(x) && inf64(y)) || (mag64(x) == 0 && mag64(y) == 0) {
        0x7ff8_0000_0000_0000u64
    } else if inf64(x) || mag64(y) == 0 {
        if neg { 0xfff0_0000_0000_0000u64 } else { 0x7ff0_0000_0000_0000u64 }
    } else if inf64(y) || mag64(x) == 0 {
        if neg { 0x8000_0000_0000_0000u64 } else { 0u64 }
    } else {
        round64q(neg, sig64(x), sig64(y), scale64(x) - scale64(y), mode, fz)
    }
}

proof fn lemma_quotient_bits(n: int, d: int, q: int, big: int, small: int)
    requires
        1 <= d < pow2i(small),
        pow2i(big) <= n,
        q == n / d,
        small >= 0,
        big >= small,
    ensures
        lg2(q) >= big - small,
{
    lemma_pow2_mul(big - small, small);
    assert(pow2i(big - small) * d <= n) by (nonlinear_arith)
        requires
            d < pow2i(small),
            pow2i(big - small) >= 1,
            pow2i(big - small) * pow2i(small) == pow2i(big),
            pow2i(big) <= n,
    ;
    lemma_div_between(n, d, pow2i(big - small));
    lemma_lg2_bounds(q);
    lemma_pow2_below(big - small, lg2(q) + 1);
}

/// Evaluate [`fdiv32`].
pub(crate) fn div_lane32(a: u32, b: u32, mode: u8, fz: bool, dn: bool) -> (r: u32)
    requires
        mode < 4,
    ensures
        r == fdiv32(a, b, mode as int, fz, dn),
{
    let x = flush_lane32(a, fz);
    let y = flush_lane32(b, fz);
    if is_nan32(x) || is_nan32(y) {
        return nan_pair32(x, y, dn);
    }
    let neg = (x >= 0x8000_0000) != (y >= 0x8000_0000);
    let mx = x % 0x8000_0000;
    let my = y % 0x8000_0000;
    let ix = mx == 0x7f80_0000;
    let iy = my == 0x7f80_0000;
    if (ix && iy) || (mx == 0 && my == 0) {
        return 0x7fc0_0000;
    }
    if ix || my == 0 {
        return if neg { 0xff80_0000 } else { 0x7f80_0000 };
    }
    if iy || mx == 0 {
        return if neg { 0x8000_0000 } else { 0 };
    }
    proof {
        lemma_finite32(x);
        lemma_finite32(y);
    }
    div_finite32(x, y, neg, mode, fz)
}

fn div_finite32(x: u32, y: u32, neg: bool, mode: u8, fz: bool) -> (r: u32)
    requires
        exp32(x) != 0xff,
        exp32(y) != 0xff,
        mag32(x) != 0,
        mag32(y) != 0,
        mode < 4,
    ensures
        r == round32q(neg, sig32(x), sig32(y), scale32(x) - scale32(y), mode as int, fz),
{
    let (sx, kx) = decode32(x);
    let (sy, ky) = decode32(y);
    proof {
        lemma2_to64();
        assert(sx >= 1 && sy >= 1) by {
            lemma_fundamental_div_mod(x as int, 0x80_0000);
            lemma_fundamental_div_mod(y as int, 0x80_0000);
        }
    }
    let lm = floor_log2(sx as u128);
    proof {
        lemma_lg2_bounds(sx as int);
        if lm > 23 {
            lemma_pow2_strictly_increases(24, lm as nat);
        }
    }
    let k: u32 = 49 - lm;
    let w = pow2_u128(k);
    proof {
        lemma_pow2_mul(lm as int + 1, k as int);
        lemma_pow2_mul(lm as int, k as int);
        lemma_pow2_pos(k as nat);
        vstd::arithmetic::mul::lemma_mul_strict_inequality(sx as int, pow2i(lm as int + 1), w as int);
        vstd::arithmetic::mul::lemma_mul_inequality(pow2i(lm as int), sx as int, w as int);
        lemma_pow2_strictly_increases(50, 127);
        lemma_pow2_128();
    }
    let n: u128 = (sx as u128) * w;
    let q = n / (sy as u128);
    let sticky = n % (sy as u128) != 0;
    proof {
        lemma_quotient_bits(n as int, sy as int, q as int, 49, 24);
        vstd::arithmetic::div_mod::lemma_div_is_ordered_by_denominator(n as int, 1, sy as int);
    }
    round_bits32q(
        neg,
        q,
        kx as i64 - ky as i64 - k as i64,
        sticky,
        mode,
        fz,
        Ghost(sx as int),
        Ghost(sy as int),
        Ghost(k as nat),
    )
}


/// Evaluate [`fdiv64`].
pub(crate) fn div_lane64(a: u64, b: u64, mode: u8, fz: bool, dn: bool) -> (r: u64)
    requires
        mode < 4,
    ensures
        r == fdiv64(a, b, mode as int, fz, dn),
{
    let x = flush_lane64(a, fz);
    let y = flush_lane64(b, fz);
    if is_nan64(x) || is_nan64(y) {
        return nan_pair64(x, y, dn);
    }
    let neg = (x >= 0x8000_0000_0000_0000) != (y >= 0x8000_0000_0000_0000);
    let mx = x % 0x8000_0000_0000_0000;
    let my = y % 0x8000_0000_0000_0000;
    let ix = mx == 0x7ff0_0000_0000_0000;
    let iy = my == 0x7ff0_0000_0000_0000;
    if (ix && iy) || (mx == 0 && my == 0) {
        return 0x7ff8_0000_0000_0000;
    }
    if ix || my == 0 {
        return if neg { 0xfff0_0000_0000_0000 } else { 0x7ff0_0000_0000_0000 };
    }
    if iy || mx == 0 {
        return if neg { 0x8000_0000_0000_0000 } else { 0 };
    }
    proof {
        lemma_finite64(x);
        lemma_finite64(y);
    }
    div_finite64(x, y, neg, mode, fz)
}

fn div_finite64(x: u64, y: u64, neg: bool, mode: u8, fz: bool) -> (r: u64)
    requires
        exp64(x) != 0x7ff,
        exp64(y) != 0x7ff,
        mag64(x) != 0,
        mag64(y) != 0,
        mode < 4,
    ensures
        r == round64q(neg, sig64(x), sig64(y), scale64(x) - scale64(y), mode as int, fz),
{
    let (sx, kx) = decode64(x);
    let (sy, ky) = decode64(y);
    proof {
        lemma2_to64();
        lemma2_to64_rest();
        assert(sx >= 1 && sy >= 1) by {
            lemma_fundamental_div_mod(x as int, 0x10_0000_0000_0000);
            lemma_fundamental_div_mod(y as int, 0x10_0000_0000_0000);
        }
    }
    let lm = floor_log2(sx as u128);
    proof {
        lemma_lg2_bounds(sx as int);
        if lm > 52 {
            lemma_pow2_strictly_increases(53, lm as nat);
        }
    }
    let k: u32 = 107 - lm;
    let w = pow2_u128(k);
    proof {
        lemma_pow2_mul(lm as int + 1, k as int);
        lemma_pow2_mul(lm as int, k as int);
        lemma_pow2_pos(k as nat);
        vstd::arithmetic::mul::lemma_mul_strict_inequality(sx as int, pow2i(lm as int + 1), w as int);
        vstd::arithmetic::mul::lemma_mul_inequality(pow2i(lm as int), sx as int, w as int);
        lemma_pow2_strictly_increases(108, 127);
        lemma_pow2_128();
    }
    let n: u128 = (sx as u128) * w;
    let q = n / (sy as u128);
    let sticky = n % (sy as u128) != 0;
    proof {
        lemma_quotient_bits(n as int, sy as int, q as int, 107, 53);
        vstd::arithmetic::div_mod::lemma_div_is_ordered_by_denominator(n as int, 1, sy as int);
    }
    round_bits64q(
        neg,
        q,
        kx as i64 - ky as i64 - k as i64,
        sticky,
        mode,
        fz,
        Ghost(sx as int),
        Ghost(sy as int),
        Ghost(k as nat),
    )
}


// ---------------------------------------------------------------------------
// Square root
// ---------------------------------------------------------------------------

/// `r` is the integer square root of `n`: `r >= 0` and `r * r <= n < (r + 1) * (r + 1)`.
pub open spec fn is_isqrt(n: int, r: int) -> bool {
    0 <= r && r * r <= n && n < (r + 1) * (r + 1)
}

/// The integer square root of `n >= 0`.
pub open spec fn isqrt(n: int) -> int {
    choose|r: int| #[trigger] is_isqrt(n, r)
}

/// The integer square root is the only such `r`.
pub proof fn lemma_isqrt_unique(n: int, r: int)
    requires
        0 <= r,
        r * r <= n < (r + 1) * (r + 1),
    ensures
        isqrt(n) == r,
{
    assert(is_isqrt(n, r));
    let s = isqrt(n);
    assert(is_isqrt(n, s));
    if s < r {
        assert((s + 1) * (s + 1) <= r * r) by (nonlinear_arith)
            requires
                0 <= s < r,
        ;
    } else if s > r {
        assert((r + 1) * (r + 1) <= s * s) by (nonlinear_arith)
            requires
                0 <= r < s,
        ;
    }
}

/// `sqrt(m)` rounded to an integer by rounding code `mode`, for `m >= 0`: the
/// square root of a non-negative number is never halfway between integers
/// unless it is one.
pub open spec fn round_sqrt(m: int, mode: int) -> int {
    let q = isqrt(m);
    let up = if mode == 0 {
        4 * m > (2 * q + 1) * (2 * q + 1)
    } else if mode == 2 {
        q * q < m
    } else {
        false
    };
    if up {
        q + 1
    } else {
        q
    }
}

/// Square root of an `f32` lane, rounded by rounding code `mode`. A denormal
/// reads as zero when `fz` is set; a NaN propagates (see [`nan1_32`]); a zero
/// and `+inf` come back unchanged; any other negative value gives the default
/// NaN. Otherwise the result carries 24 significant bits: with the exact value
/// `m * 2^e` and `l = floor(log2)` of it, the unit of the result is
/// `2^(floor(l / 2) - 23)`, and its significand is `sqrt(m * 2^(e - 2u))`
/// rounded.
pub open spec fn fsqrt32(a: u32, mode: int, fz: bool, dn: bool) -> u32 {
    let x = flush32(a, fz);
    if nan32(x) {
        nan1_32(x, dn)
    } else if mag32(x) == 0 {
        x
    } else if neg32(x) {
        0x7fc0_0000u32
    } else if inf32(x) {
        x
    } else {
        let u = (lg2(sig32(x)) + scale32(x)) / 2 - 23;
        pack_mag32(round_sqrt(sig32(x) * pow2i(scale32(x) - 2 * u), mode), u) as u32
    }
}

/// Square root of an `f64` lane: [`fsqrt32`] at double precision, with 53
/// significant bits.
pub open spec fn fsqrt64(a: u64, mode: int, fz: bool, dn: bool) -> u64 {
    let x = flush64(a, fz);
    if nan64(x) {
        nan1_64(x, dn)
    } else if mag64(x) == 0 {
        x
    } else if neg64(x) {
        0x7ff8_0000_0000_0000u64
    } else if inf64(x) {
        x
    } else {
        let u = (lg2(sig64(x)) + scale64(x)) / 2 - 52;
        pack_mag64(round_sqrt(sig64(x) * pow2i(scale64(x) - 2 * u), mode), u) as u64
    }
}

/// [`round_sqrt`], evaluated, for `m < 2^108`.
fn round_sqrt_u128(m: u128, mode: u8) -> (r: u128)
    requires
        m < 0x1000_0000_0000_0000_0000_0000_0000,
        mode < 4,
    ensures
        r == round_sqrt(m as int, mode as int),
        r <= 0x40_0000_0000_0000,
        is_isqrt(m as int, isqrt(m as int)),
        isqrt(m as int) <= r <= isqrt(m as int) + 1,
{
    // Bisect: lo * lo <= m < hi * hi.
    let mut lo: u128 = 0;
    let mut hi: u128 = 0x40_0000_0000_0000;
    proof {
        assert(hi * hi == 0x1000_0000_0000_0000_0000_0000_0000) by (nonlinear_arith)
            requires
                hi == 0x40_0000_0000_0000,
        ;
    }
    while hi - lo > 1
        invariant
            lo < hi <= 0x40_0000_0000_0000,
            lo * lo <= m,
            m < hi * hi,
        decreases hi - lo,
    {
        let mid = lo + (hi - lo) / 2;
        proof {
            assert(mid * mid <= 0x1000_0000_0000_0000_0000_0000_0000) by (nonlinear_arith)
                requires
                    mid <= 0x40_0000_0000_0000,
            ;
        }
        if mid * mid <= m {
            lo = mid;
        } else {
            hi = mid;
        }
    }
    proof {
        lemma_isqrt_unique(m as int, lo as int);
        assert((2 * lo + 1) * (2 * lo + 1) < 0x10_0000_0000_0000_0000_0000_0000_0000) by (
        nonlinear_arith)
            requires
                lo < 0x40_0000_0000_0000,
        ;
    }
    let up = if mode == 0 {
        4 * m > (2 * lo + 1) * (2 * lo + 1)
    } else if mode == 2 {
        lo * lo < m
    } else {
        false
    };
    if up {
        lo + 1
    } else {
        lo
    }
}

proof fn lemma_isqrt_range(m: int, q: int, lo: int, hi: int)
    requires
        is_isqrt(m, q),
        0 <= lo,
        lo * lo <= m < hi * hi,
        hi >= 1,
    ensures
        lo <= q < hi,
{
    if q < lo {
        assert((q + 1) * (q + 1) <= lo * lo) by (nonlinear_arith)
            requires
                0 <= q < lo,
        ;
    }
    if q >= hi {
        assert(hi * hi <= q * q) by (nonlinear_arith)
            requires
                1 <= hi <= q,
        ;
    }
}

proof fn lemma_half_floor_shift(l: int)
    ensures
        (l + 200) / 2 - 100 == l / 2,
        l - 1 <= 2 * (l / 2) <= l,
{
    lemma_fundamental_div_mod(l, 2);
    lemma_mod_bound(l, 2);
    lemma_fundamental_div_mod_converse(l + 200, 2, l / 2 + 100, l % 2);
}

fn sqrt_finite32(x: u32, mode: u8) -> (r: u32)
    requires
        exp32(x) != 0xff,
        mag32(x) != 0,
        !neg32(x),
        mode < 4,
    ensures
        ({
            let u = (lg2(sig32(x)) + scale32(x)) / 2 - 23;
            r == pack_mag32(round_sqrt(sig32(x) * pow2i(scale32(x) - 2 * u), mode as int), u) as u32
        }),
{
    let (m, k) = decode32(x);
    proof {
        lemma2_to64();
        assert(m >= 1) by {
            lemma_fundamental_div_mod(x as int, 0x80_0000);
        }
    }
    let lm = floor_log2(m as u128);
    proof {
        lemma_lg2_bounds(m as int);
        if lm > 23 {
            lemma_pow2_strictly_increases(24, lm as nat);
        }
    }
    let l: i64 = lm as i64 + k as i64 - 149;
    let u: i64 = (l + 200) / 2 - 100 - 23;
    proof {
        lemma_half_floor_shift(l as int);
    }
    let sh: u32 = (k as i64 - 149 - 2 * u) as u32;
    let w = pow2_u128(sh);
    proof {
        lemma_pow2_mul(lm as int, sh as int);
        lemma_pow2_mul(lm as int + 1, sh as int);
        lemma_pow2_pos(sh as nat);
        vstd::arithmetic::mul::lemma_mul_inequality(pow2i(lm as int), m as int, w as int);
        vstd::arithmetic::mul::lemma_mul_strict_inequality(m as int, pow2i(lm as int + 1), w as int);
        if lm + sh < 48 {
            lemma_pow2_strictly_increases((lm + sh) as nat, 48);
        }
        if lm + sh + 1 < 48 {
            lemma_pow2_strictly_increases((lm + sh + 1) as nat, 48);
        }
        if lm + sh > 46 {
            lemma_pow2_strictly_increases(46, (lm + sh) as nat);
        }
        lemma2_to64_rest();
    }
    let mm: u128 = (m as u128) * w;
    let s = round_sqrt_u128(mm, mode);
    proof {
        lemma_isqrt_range(mm as int, isqrt(mm as int), 0x80_0000, 0x100_0000);
    }
    if s >= 0x100_0000 {
        ((u + 151) as u32) * 0x80_0000
    } else {
        ((u + 150) as u32) * 0x80_0000 + ((s - 0x80_0000) as u32)
    }
}

/// Evaluate [`fsqrt32`].
pub(crate) fn sqrt_lane32(a: u32, mode: u8, fz: bool, dn: bool) -> (r: u32)
    requires
        mode < 4,
    ensures
        r == fsqrt32(a, mode as int, fz, dn),
{
    let x = flush_lane32(a, fz);
    if is_nan32(x) {
        return nan_lane32(x, dn);
    }
    let mx = x % 0x8000_0000;
    if mx == 0 {
        return x;
    }
    if x >= 0x8000_0000 {
        return 0x7fc0_0000;
    }
    if mx == 0x7f80_0000 {
        return x;
    }
    proof {
        lemma_finite32(x);
    }
    sqrt_finite32(x, mode)
}

fn sqrt_finite64(x: u64, mode: u8) -> (r: u64)
    requires
        exp64(x) != 0x7ff,
        mag64(x) != 0,
        !neg64(x),
        mode < 4,
    ensures
        ({
            let u = (lg2(sig64(x)) + scale64(x)) / 2 - 52;
            r == pack_mag64(round_sqrt(sig64(x) * pow2i(scale64(x) - 2 * u), mode as int), u) as u64
        }),
{
    let (m, k) = decode64(x);
    proof {
        lemma2_to64();
        lemma2_to64_rest();
        assert(m >= 1) by {
            lemma_fundamental_div_mod(x as int, 0x10_0000_0000_0000);
        }
    }
    let lm = floor_log2(m as u128);
    proof {
        lemma_lg2_bounds(m as int);
        if lm > 52 {
            lemma_pow2_strictly_increases(53, lm as nat);
        }
    }
    let l: i64 = lm as i64 + k as i64 - 1074;
    let u: i64 = (l + 2200) / 2 - 1100 - 52;
    proof {
        lemma_fundamental_div_mod(l as int, 2);
        lemma_mod_bound(l as int, 2);
        lemma_fundamental_div_mod_converse(l + 2200, 2, (l as int) / 2 + 1100, (l as int) % 2);
    }
    let sh: u32 = (k as i64 - 1074 - 2 * u) as u32;
    let w = pow2_u128(sh);
    proof {
        lemma_pow2_mul(lm as int, sh as int);
        lemma_pow2_mul(lm as int + 1, sh as int);
        lemma_pow2_pos(sh as nat);
        vstd::arithmetic::mul::lemma_mul_inequality(pow2i(lm as int), m as int, w as int);
        vstd::arithmetic::mul::lemma_mul_strict_inequality(m as int, pow2i(lm as int + 1), w as int);
        if lm + sh < 106 {
            lemma_pow2_strictly_increases((lm + sh) as nat, 106);
        }
        if lm + sh + 1 < 106 {
            lemma_pow2_strictly_increases((lm + sh + 1) as nat, 106);
        }
        if lm + sh > 104 {
            lemma_pow2_strictly_increases(104, (lm + sh) as nat);
        }
        lemma_pow2_128();
        lemma_pow2_adds(64, 40);
        lemma_pow2_adds(64, 42);
        lemma_pow2_adds(64, 44);
        lemma_pow2_strictly_increases(106, 108);
    }
    let mm: u128 = (m as u128) * w;
    let s = round_sqrt_u128(mm, mode);
    proof {
        assert(0x10_0000_0000_0000 * 0x10_0000_0000_0000 == pow2i(104));
        assert(0x20_0000_0000_0000 * 0x20_0000_0000_0000 == pow2i(106));
        lemma_isqrt_range(mm as int, isqrt(mm as int), 0x10_0000_0000_0000, 0x20_0000_0000_0000);
    }
    if s >= 0x20_0000_0000_0000 {
        ((u + 1076) as u64) * 0x10_0000_0000_0000
    } else {
        ((u + 1075) as u64) * 0x10_0000_0000_0000 + ((s - 0x10_0000_0000_0000) as u64)
    }
}

/// Evaluate [`fsqrt64`].
pub(crate) fn sqrt_lane64(a: u64, mode: u8, fz: bool, dn: bool) -> (r: u64)
    requires
        mode < 4,
    ensures
        r == fsqrt64(a, mode as int, fz, dn),
{
    let x = flush_lane64(a, fz);
    if is_nan64(x) {
        return nan_lane64(x, dn);
    }
    let mx = x % 0x8000_0000_0000_0000;
    if mx == 0 {
        return x;
    }
    if x >= 0x8000_0000_0000_0000 {
        return 0x7ff8_0000_0000_0000;
    }
    if mx == 0x7ff0_0000_0000_0000 {
        return x;
    }
    proof {
        lemma_finite64(x);
    }
    sqrt_finite64(x, mode)
}

// ---------------------------------------------------------------------------
// Conversions between formats and from integers
// ---------------------------------------------------------------------------

/// The `f32` NaN that converting the `f64` NaN `b` gives: the default NaN when
/// `dn` is set, else `b` quieted with its sign and the top 22 bits of its
/// payload below the quiet bit.
pub open spec fn nan_narrow(b: u64, dn: bool) -> u32 {
    if dn {
        0x7fc0_0000u32
    } else {
        ((if neg64(b) { 0x8000_0000int } else { 0 }) + 0x7fc0_0000 + (b as int % 0x8_0000_0000_0000)
            / 0x2000_0000) as u32
    }
}

/// The `f64` NaN that converting the `f32` NaN `b` gives: the default NaN when
/// `dn` is set, else `b` quieted with its sign and its payload below the quiet
/// bit moved to the top of the wider fraction.
pub open spec fn nan_widen(b: u32, dn: bool) -> u64 {
    if dn {
        0x7ff8_0000_0000_0000u64
    } else {
        ((if neg32(b) { 0x8000_0000_0000_0000int } else { 0 }) + 0x7ff8_0000_0000_0000 + (b as int
            % 0x40_0000) * 0x2000_0000) as u64
    }
}

/// The `f64` lane `b` converted to `f32`, rounded by rounding code `mode`: a
/// denormal reads as zero when `fz` is set, a NaN converts by [`nan_narrow`],
/// an infinity stays an infinity, and a finite value rounds as [`round32`]
/// rounds its exact value.
pub open spec fn narrow(b: u64, mode: int, fz: bool, dn: bool) -> u32 {
    let x = flush64(b, fz);
    if nan64(x) {
        nan_narrow(x, dn)
    } else if inf64(x) {
        if neg64(x) { 0xff80_0000u32 } else { 0x7f80_0000u32 }
    } else {
        round32(neg64(x), sig64(x), scale64(x), mode, fz)
    }
}

/// The `f32` lane `b` converted to `f64`, which is exact: a denormal reads as
/// zero when `fz` is set, a NaN converts by [`nan_widen`], and every other
/// value keeps its sign and magnitude.
pub open spec fn widen(b: u32, fz: bool, dn: bool) -> u64 {
    let x = flush32(b, fz);
    if nan32(x) {
        nan_widen(x, dn)
    } else if inf32(x) {
        if neg32(x) { 0xfff0_0000_0000_0000u64 } else { 0x7ff0_0000_0000_0000u64 }
    } else {
        round64(neg32(x), sig32(x), scale32(x), 0, false)
    }
}

/// Evaluate [`narrow`].
pub(crate) fn narrow_lane(b: u64, mode: u8, fz: bool, dn: bool) -> (r: u32)
    requires
        mode < 4,
    ensures
        r == narrow(b, mode as int, fz, dn),
{
    let x = flush_lane64(b, fz);
    if is_nan64(x) {
        if dn {
            return 0x7fc0_0000;
        }
        let sign: u32 = if x >= 0x8000_0000_0000_0000 { 0x8000_0000 } else { 0 };
        return sign + 0x7fc0_0000 + ((x % 0x8_0000_0000_0000) / 0x2000_0000) as u32;
    }
    let neg = x >= 0x8000_0000_0000_0000;
    if x % 0x8000_0000_0000_0000 == 0x7ff0_0000_0000_0000 {
        return if neg { 0xff80_0000 } else { 0x7f80_0000 };
    }
    proof {
        lemma_finite64(x);
    }
    let (m, k) = decode64(x);
    proof {
        lemma_exact(m as int);
    }
    round_bits32(neg, m as u128, k as i64 - 1074, false, mode, fz, Ghost(m as int), Ghost(0))
}

/// Evaluate [`widen`].
pub(crate) fn widen_lane(b: u32, fz: bool, dn: bool) -> (r: u64)
    ensures
        r == widen(b, fz, dn),
{
    let x = flush_lane32(b, fz);
    if is_nan32(x) {
        if dn {
            return 0x7ff8_0000_0000_0000;
        }
        let sign: u64 = if x >= 0x8000_0000 { 0x8000_0000_0000_0000 } else { 0 };
        return sign + 0x7ff8_0000_0000_0000 + ((x % 0x40_0000) as u64) * 0x2000_0000;
    }
    let neg = x >= 0x8000_0000;
    if x % 0x8000_0000 == 0x7f80_0000 {
        return if neg { 0xfff0_0000_0000_0000 } else { 0x7ff0_0000_0000_0000 };
    }
    proof {
        lemma_finite32(x);
    }
    let (m, k) = decode32(x);
    proof {
        lemma_exact(m as int);
    }
    round_bits64(neg, m as u128, k as i64 - 149, false, 0, false, Ghost(m as int), Ghost(0))
}

/// The `f32` nearest, by rounding code `mode`, to the integer `v`.
pub open spec fn int_to32(v: int, mode: int) -> u32 {
    round32(v < 0, abs(v), 0, mode, false)
}

/// The `f64` nearest, by rounding code `mode`, to the integer `v`.
pub open spec fn int_to64(v: int, mode: int) -> u64 {
    round64(v < 0, abs(v), 0, mode, false)
}

/// Evaluate [`int_to32`] for a 64-bit integer.
pub(crate) fn int_lane32(v: i64, mode: u8) -> (r: u32)
    requires
        mode < 4,
    ensures
        r == int_to32(v as int, mode as int),
{
    let neg = v < 0;
    let m: u128 = if neg { (-(v as i128)) as u128 } else { v as u128 };
    proof {
        lemma_exact(m as int);
    }
    round_bits32(neg, m, 0, false, mode, false, Ghost(m as int), Ghost(0))
}

/// Evaluate [`int_to64`] for a 64-bit integer.
pub(crate) fn int_lane64(v: i64, mode: u8) -> (r: u64)
    requires
        mode < 4,
    ensures
        r == int_to64(v as int, mode as int),
{
    let neg = v < 0;
    let m: u128 = if neg { (-(v as i128)) as u128 } else { v as u128 };
    proof {
        lemma_exact(m as int);
    }
    round_bits64(neg, m, 0, false, mode, false, Ghost(m as int), Ghost(0))
}

// ---------------------------------------------------------------------------
// Laws of the arithmetic
// ---------------------------------------------------------------------------

/// A NaN operand of an addition, subtraction, multiplication or division
/// gives a NaN, in either position.
pub proof fn law_arith_propagates_nan32(a: u32, b: u32, mode: int, fz: bool, dn: bool)
    requires
        nan32(flush32(a, fz)) || nan32(flush32(b, fz)),
    ensures
        nan32(fadd32(a, b, false, mode, fz, dn)),
        nan32(fadd32(a, b, true, mode, fz, dn)),
        nan32(fmul32(a, b, mode, fz, dn)),
        nan32(fdiv32(a, b, mode, fz, dn)),
{
    if nan32(flush32(a, fz)) {
        crate::ieee::law_nan_result_is_nan32(flush32(a, fz), dn);
    }
    if nan32(flush32(b, fz)) {
        crate::ieee::law_nan_result_is_nan32(flush32(b, fz), dn);
    }
}

/// [`law_arith_propagates_nan32`] on `f64` lanes.
pub proof fn law_arith_propagates_nan64(a: u64, b: u64, mode: int, fz: bool, dn: bool)
    requires
        nan64(flush64(a, fz)) || nan64(flush64(b, fz)),
    ensures
        nan64(fadd64(a, b, false, mode, fz, dn)),
        nan64(fadd64(a, b, true, mode, fz, dn)),
        nan64(fmul64(a, b, mode, fz, dn)),
        nan64(fdiv64(a, b, mode, fz, dn)),
{
    if nan64(flush64(a, fz)) {
        crate::ieee::law_nan_result_is_nan64(flush64(a, fz), dn);
    }
    if nan64(flush64(b, fz)) {
        crate::ieee::law_nan_result_is_nan64(flush64(b, fz), dn);
    }
}

/// The square root of a NaN is a NaN, and that of a negative number other
/// than a zero is the default NaN.
pub proof fn law_sqrt_nan32(a: u32, mode: int, fz: bool, dn: bool)
    ensures
        nan32(flush32(a, fz)) ==> nan32(fsqrt32(a, mode, fz, dn)),
        !nan32(flush32(a, fz)) && neg32(flush32(a, fz)) && mag32(flush32(a, fz)) != 0 ==> fsqrt32(
            a,
            mode,
            fz,
            dn,
        ) == 0x7fc0_0000,
{
    if nan32(flush32(a, fz)) {
        crate::ieee::law_nan_result_is_nan32(flush32(a, fz), dn);
    }
}

/// Addition of two non-NaN `f32` lanes does not depend on the order of the
/// operands, and neither does multiplication.
pub proof fn law_add_mul_commute32(a: u32, b: u32, mode: int, fz: bool, dn: bool)
    requires
        !nan32(flush32(a, fz)),
        !nan32(flush32(b, fz)),
    ensures
        fadd32(a, b, false, mode, fz, dn) == fadd32(b, a, false, mode, fz, dn),
        fmul32(a, b, mode, fz, dn) == fmul32(b, a, mode, fz, dn),
{
    let x = flush32(a, fz);
    let y = flush32(b, fz);
    vstd::arithmetic::mul::lemma_mul_is_commutative(sig32(x), sig32(y));
    if inf32(x) && inf32(y) {
        assert(x == 0x7f80_0000 || x == 0xff80_0000);
        assert(y == 0x7f80_0000 || y == 0xff80_0000);
    } else if inf32(x) {
        assert(x == 0x7f80_0000 || x == 0xff80_0000);
    } else if inf32(y) {
        assert(y == 0x7f80_0000 || y == 0xff80_0000);
    }
}

/// [`law_add_mul_commute32`] on `f64` lanes.
pub proof fn law_add_mul_commute64(a: u64, b: u64, mode: int, fz: bool, dn: bool)
    requires
        !nan64(flush64(a, fz)),
        !nan64(flush64(b, fz)),
    ensures
        fadd64(a, b, false, mode, fz, dn) == fadd64(b, a, false, mode, fz, dn),
        fmul64(a, b, mode, fz, dn) == fmul64(b, a, mode, fz, dn),
{
    let x = flush64(a, fz);
    let y = flush64(b, fz);
    vstd::arithmetic::mul::lemma_mul_is_commutative(sig64(x), sig64(y));
    if inf64(x) && inf64(y) {
        assert(x == 0x7ff0_0000_0000_0000 || x == 0xfff0_0000_0000_0000);
        assert(y == 0x7ff0_0000_0000_0000 || y == 0xfff0_0000_0000_0000);
    } else if inf64(x) {
        assert(x == 0x7ff0_0000_0000_0000 || x == 0xfff0_0000_0000_0000);
    } else if inf64(y) {
        assert(y == 0x7ff0_0000_0000_0000 || y == 0xfff0_0000_0000_0000);
    }
}

/// The invalid operations give the default NaN: `inf - inf` (as a sum of
/// infinities of opposite sign), `0 * inf`, `0 / 0` and `inf / inf`.
pub proof fn law_invalid_gives_default_nan32(mode: int, fz: bool, dn: bool)
    ensures
        fadd32(0x7f80_0000, 0xff80_0000, false, mode, fz, dn) == 0x7fc0_0000,
        fadd32(0x7f80_0000, 0x7f80_0000, true, mode, fz, dn) == 0x7fc0_0000,
        fmul32(0, 0x7f80_0000, mode, fz, dn) == 0x7fc0_0000,
        fdiv32(0, 0, mode, fz, dn) == 0x7fc0_0000,
        fdiv32(0x7f80_0000, 0x7f80_0000, mode, fz, dn) == 0x7fc0_0000,
{
}

proof fn lemma_exact_round_div(neg: bool, q: int, d: int, mode: int)
    requires
        q >= 0,
        d >= 1,
    ensures
        round_div(neg, q * d, d, mode) == if neg { -q } else { q },
{
    lemma_fundamental_div_mod_converse(q * d, d, q, 0);
    vstd::arithmetic::mul::lemma_mul_is_commutative(q, d);
}

/// Converting an `i32` to `f64` and back gives it back, under any rounding
/// modes: both conversions are exact.
pub proof fn law_int_double_roundtrip(v: i32, to: int, back: int)
    requires
        0 <= to < 4,
        0 <= back < 4,
    ensures
        crate::ieee::cvt64_i32(int_to64(v as int, to), back) == v,
{
    lemma2_to64();
    lemma2_to64_rest();
    if v == 0 {
        crate::ieee::lemma_fields64(0, 0, 0);
        lemma_pow2_pos(1074);
        vstd::arithmetic::div_mod::lemma_basic_div(0, pow2i(1074));
        vstd::arithmetic::div_mod::lemma_small_mod(0, pow2(1074));
    } else {
        let neg = v < 0;
        let n = abs(v as int);
        lemma_lg2_bounds(n);
        let l = lg2(n);
        if l > 31 {
            lemma_pow2_strictly_increases(32, l as nat);
        }
        let u = l - 52;
        assert(ulp_exp(n, 0, 53, -1074) == u);
        let k = 52 - l;
        let s = n * pow2i(k);
        assert(rounded_sig(neg, n, 0, to, 53, -1074) == s);
        lemma_pow2_mul(l, k);
        lemma_pow2_mul(l + 1, k);
        vstd::arithmetic::mul::lemma_mul_inequality(pow2i(l), n, pow2i(k));
        vstd::arithmetic::mul::lemma_mul_strict_inequality(n, pow2i(l + 1), pow2i(k));
        assert(0x10_0000_0000_0000 <= s < 0x20_0000_0000_0000);
        lemma_lg2_unique(s, 52);
        let sgn: int = if neg { 1 } else { 0 };
        crate::ieee::lemma_fields64(sgn, u + 1075, s - 0x10_0000_0000_0000);
        let bits = int_to64(v as int, to);
        assert(bits as int == sgn * 0x8000_0000_0000_0000 + (u + 1075) * 0x10_0000_0000_0000 + (s
            - 0x10_0000_0000_0000));
        assert(crate::ieee::sig64(bits) == s);
        assert(crate::ieee::scale64(bits) == u);
        assert(crate::ieee::neg64(bits) == neg);
        lemma_pow2_pos(k as nat);
        lemma_exact_round_div(neg, n, pow2i(k), back);
    }
}

/// The `f64` encoding that [`widen`] gives a finite nonzero `f32` lane: its
/// significand is that of `x` shifted up to 53 bits.
proof fn lemma_widen_finite(x: u32, dn: bool)
    requires
        !nan32(x),
        !inf32(x),
        mag32(x) != 0,
    ensures
        ({
            let m = sig32(x);
            let l = lg2(m);
            let w = widen(x, false, dn);
            &&& 0 <= l <= 23
            &&& exp64(w) != 0 && exp64(w) != 0x7ff
            &&& !nan64(w) && !inf64(w)
            &&& sig64(w) == m * pow2i(52 - l)
            &&& scale64(w) == l + scale32(x) - 52
            &&& neg64(w) == neg32(x)
            &&& lg2(sig64(w)) == 52
        }),
{
    lemma2_to64();
    lemma2_to64_rest();
    let m = sig32(x);
    let e = scale32(x);
    assert(m >= 1 && m < 0x100_0000 && -149 <= e <= 104) by {
        lemma_fundamental_div_mod(x as int, 0x80_0000);
        lemma_fundamental_div_mod(x as int / 0x80_0000, 0x100);
    }
    lemma_lg2_bounds(m);
    let l = lg2(m);
    if l > 23 {
        lemma_pow2_strictly_increases(24, l as nat);
    }
    let k = 52 - l;
    let s = m * pow2i(k);
    let u = l + e - 52;
    assert(ulp_exp(m, e, 53, -1074) == u);
    lemma_pow2_pos(k as nat);
    lemma_pow2_mul(l, k);
    lemma_pow2_mul(l + 1, k);
    vstd::arithmetic::mul::lemma_mul_inequality(pow2i(l), m, pow2i(k));
    vstd::arithmetic::mul::lemma_mul_strict_inequality(m, pow2i(l + 1), pow2i(k));
    assert(0x10_0000_0000_0000 <= s < 0x20_0000_0000_0000);
    lemma_lg2_unique(s, 52);
    assert(e - u == k);
    assert(rounded_sig(neg32(x), m, e, 0, 53, -1074) == s);
    let sgn: int = if neg32(x) { 1 } else { 0 };
    crate::ieee::lemma_fields64(sgn, u + 1075, s - 0x10_0000_0000_0000);
}

/// The `f32` lane `x`, finite and nonzero, comes back from rounding its own
/// value: when `sig * 2^e` equals the value of `x`, with `sig` of 53 bits.
proof fn lemma_narrow_exact(x: u32, s: int, u: int, l: int, mode: int, fz: bool)
    requires
        !nan32(x),
        !inf32(x),
        mag32(x) != 0,
        !fz || exp32(x) != 0,
        0 <= l <= 23,
        l == lg2(sig32(x)),
        s == sig32(x) * pow2i(52 - l),
        u == l + scale32(x) - 52,
        lg2(s) == 52,
        0 <= mode < 4,
    ensures
        round32(neg32(x), s, u, mode, fz) == x,
{
    lemma2_to64();
    let m = sig32(x);
    let e = scale32(x);
    assert(m >= 1 && m < 0x100_0000 && -149 <= e <= 104) by {
        lemma_fundamental_div_mod(x as int, 0x80_0000);
        lemma_fundamental_div_mod(x as int / 0x80_0000, 0x100);
    }
    let uu = ulp_exp(s, u, 24, -149);
    assert(uu <= e);
    // The rounded significand is m * 2^(e - uu), exactly.
    let k = uu - u;
    assert(k == 52 - l - (e - uu));
    assert(k >= 0);
    lemma_pow2_mul(e - uu, k);
    vstd::arithmetic::mul::lemma_mul_is_associative(m, pow2i(e - uu), pow2i(k));
    assert(s == (m * pow2i(e - uu)) * pow2i(k));
    lemma_pow2_pos(k as nat);
    lemma_pow2_pos((e - uu) as nat);
    assert(m * pow2i(e - uu) >= 0) by (nonlinear_arith)
        requires
            m >= 1,
            pow2i(e - uu) >= 1,
    ;
    if k > 0 {
        lemma_exact_round_div(neg32(x), m * pow2i(e - uu), pow2i(k), mode);
    } else {
        assert(pow2i(0) == 1);
        assert(s == m * pow2i(e - uu));
    }
    let rs = rounded_sig(neg32(x), s, u, mode, 24, -149);
    assert(rs == m * pow2i(e - uu));
    lemma_lg2_bounds(m);
    if exp32(x) != 0 {
        // Normal: 24 significant bits, so the unit is 2^e and the significand m.
        assert(m >= 0x80_0000);
        if l < 23 {
            lemma_pow2_strictly_increases(l as nat + 1, 23);
        }
        assert(l == 23);
        assert(uu == e);
        assert(pow2i(e - uu) == 1);
        assert(m * pow2i(e - uu) == m) by (nonlinear_arith)
            requires
                pow2i(e - uu) == 1,
        ;
        assert(rs == m);
        lemma_lg2_unique(m, 23);
        crate::ieee::lemma_fields32(if neg32(x) { 1 } else { 0 }, exp32(x), m - 0x80_0000);
        assert(x as int == (if neg32(x) { 0x8000_0000int } else { 0 }) + exp32(x) * 0x80_0000 + (m
            - 0x80_0000)) by {
            lemma_fundamental_div_mod(x as int, 0x80_0000);
            lemma_fundamental_div_mod(x as int / 0x80_0000, 0x100);
        }
    } else {
        // Denormal: the unit is the denormal unit and the significand m.
        assert(e == -149);
        if l > 22 {
            assert(m < 0x80_0000);
            lemma_pow2_strictly_increases(23, l as nat);
        }
        assert(uu == -149);
        assert(pow2i(e - uu) == 1);
        assert(m * pow2i(e - uu) == m) by (nonlinear_arith)
            requires
                pow2i(e - uu) == 1,
        ;
        assert(rs == m);
        assert(x as int == (if neg32(x) { 0x8000_0000int } else { 0 }) + m) by {
            lemma_fundamental_div_mod(x as int, 0x80_0000);
            lemma_fundamental_div_mod(x as int / 0x80_0000, 0x100);
        }
    }
}

/// Widening an `f32` lane to `f64` and narrowing it back gives the lane back,
/// under any rounding mode; with flushing on, a denormal comes back as the zero
/// it was read as.
pub proof fn law_widen_narrow_roundtrip(b: u32, mode: int, fz: bool, dn: bool)
    requires
        !nan32(flush32(b, fz)),
        0 <= mode < 4,
    ensures
        narrow(widen(b, fz, dn), mode, fz, dn) == flush32(b, fz),
{
    lemma2_to64();
    lemma2_to64_rest();
    let x = flush32(b, fz);
    assert(flush32(x, fz) == x);
    assert(widen(b, fz, dn) == widen(x, false, dn));
    if inf32(x) {
        assert(x == 0x7f80_0000 || x == 0xff80_0000);
    } else if mag32(x) == 0 {
        assert(x == 0 || x == 0x8000_0000);
        crate::ieee::lemma_fields64(if neg32(x) { 1 } else { 0 }, 0, 0);
    } else {
        lemma_widen_finite(x, dn);
        let w = widen(x, false, dn);
        assert(flush64(w, fz) == w);
        let m = sig32(x);
        let l = lg2(m);
        lemma_narrow_exact(x, sig64(w), scale64(w), l, mode, fz);
    }
}
} // verus!
