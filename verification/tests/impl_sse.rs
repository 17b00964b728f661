//! SSE `f32` vector conformance for the operations on lane bit patterns.

use sse2neon::constants::_MM_SHUFFLE;
use sse2neon::sse::{
    _mm_sqrt_ps, rsqrt_zero_fixup,
    _mm_and_ps, _mm_andnot_ps, _mm_cmpeq_ps, _mm_cmpeq_ss, _mm_cmpge_ps, _mm_cmpge_ss,
    _mm_cmpgt_ps, _mm_cmpgt_ss, _mm_cmple_ps, _mm_cmple_ss, _mm_cmplt_ps, _mm_cmplt_ss,
    _mm_cmpneq_ps, _mm_cmpneq_ss, _mm_cmpnge_ps, _mm_cmpnge_ss, _mm_cmpngt_ps, _mm_cmpngt_ss,
    _mm_cmpnle_ps, _mm_cmpnle_ss, _mm_cmpnlt_ps, _mm_cmpnlt_ss, _mm_cmpord_ps, _mm_cmpord_ss,
    _mm_cmpunord_ps, _mm_cmpunord_ss, _mm_comieq_ss, _mm_comige_ss, _mm_comigt_ss,
    _mm_comile_ss, _mm_comilt_ss, _mm_comineq_ss, _mm_move_ss, _mm_movehl_ps, _mm_movelh_ps,
    _mm_movemask_ps, _mm_or_ps, _mm_setzero_ps, _mm_shuffle_ps, _mm_ucomieq_ss, _mm_ucomige_ss,
    _mm_ucomigt_ss, _mm_ucomile_ss, _mm_ucomilt_ss, _mm_ucomineq_ss, _mm_unpackhi_ps,
    _mm_unpacklo_ps, _mm_xor_ps,
};
use sse2neon::types::{__m128, _mm_castps_pd, _mm_castpd_ps, _mm_castps_si128, _mm_castsi128_ps};

/// SplitMix64 state, a fixed stream so inputs are reproducible.
struct SplitMix64 {
    state: u64,
}

impl SplitMix64 {
    fn new(seed: u64) -> Self {
        SplitMix64 { state: seed }
    }

    fn next_u64(&mut self) -> u64 {
        self.state = self.state.wrapping_add(0x9e37_79b9_7f4a_7c15);
        let mut z = self.state;
        z = (z ^ (z >> 30)).wrapping_mul(0xbf58_476d_1ce4_e5b9);
        z = (z ^ (z >> 27)).wrapping_mul(0x94d0_49bb_1331_11eb);
        z ^ (z >> 31)
    }

    fn ranf_range(&mut self, lo: f64, hi: f64) -> f64 {
        (self.next_u64() as f64 / 18446744073709551616.0) * (hi - lo) + lo
    }
}

/// 10000 floats drawn uniformly from `[-100000, 100000)` with seed 123456.
fn test_floats() -> Vec<f32> {
    let mut rng = SplitMix64::new(123456);
    (0..10000).map(|_| rng.ranf_range(-100000.0, 100000.0) as f32).collect()
}

fn set_ps(w: f32, z: f32, y: f32, x: f32) -> __m128 {
    __m128::from_f32_bits([x.to_bits(), y.to_bits(), z.to_bits(), w.to_bits()])
}

fn set_ss(w: f32) -> __m128 {
    set_ps(0.0, 0.0, 0.0, w)
}

fn f32x4(a: __m128) -> [f32; 4] {
    a.f32_bits().map(f32::from_bits)
}

fn i32x4(a: __m128) -> [i32; 4] {
    _mm_castps_si128(a).s32()
}

fn win(floats: &[f32], i: usize) -> __m128 {
    set_ps(floats[i + 3], floats[i + 2], floats[i + 1], floats[i])
}

fn check_cmp(intr: fn(__m128, __m128, u64) -> __m128, op: fn(f32, f32) -> bool) {
    let f = test_floats();
    for i in (0..(10000 - 8)).step_by(11) {
        let a = win(&f, i);
        let b = win(&f, i + 4);
        let r = i32x4(intr(a, b, 0));
        let av = f32x4(a);
        let bv = f32x4(b);
        for lane in 0..4 {
            let want = if op(av[lane], bv[lane]) { -1i32 } else { 0i32 };
            assert_eq!(r[lane], want, "lane {}", lane);
        }
    }
}

#[test]
fn cmpeq_ps() {
    check_cmp(_mm_cmpeq_ps, |a, b| a == b);
}
#[test]
fn cmplt_ps() {
    check_cmp(_mm_cmplt_ps, |a, b| a < b);
}
#[test]
fn cmple_ps() {
    check_cmp(_mm_cmple_ps, |a, b| a <= b);
}
#[test]
fn cmpgt_ps() {
    check_cmp(_mm_cmpgt_ps, |a, b| a > b);
}
#[test]
fn cmpge_ps() {
    check_cmp(_mm_cmpge_ps, |a, b| a >= b);
}
#[test]
fn cmpneq_ps() {
    check_cmp(_mm_cmpneq_ps, |a, b| a != b);
}

#[test]
fn compares_match_ieee_on_special_values() {
    let specials = [
        0.0f32,
        -0.0,
        1.0,
        -1.0,
        f32::MIN_POSITIVE,
        -f32::MIN_POSITIVE,
        f32::from_bits(1),
        f32::MAX,
        f32::MIN,
        f32::INFINITY,
        f32::NEG_INFINITY,
        f32::NAN,
        f32::from_bits(0xffc0_0001),
        123.5,
    ];
    for &x in &specials {
        for &y in &specials {
            let a = set_ss(x);
            let b = set_ss(y);
            let m = |v: __m128| i32x4(v)[0] == -1;
            assert_eq!(m(_mm_cmpeq_ps(a, b, 0)), x == y, "{} == {}", x, y);
            assert_eq!(m(_mm_cmplt_ps(a, b, 0)), x < y, "{} < {}", x, y);
            assert_eq!(m(_mm_cmple_ps(a, b, 0)), x <= y, "{} <= {}", x, y);
            assert_eq!(m(_mm_cmpgt_ps(a, b, 0)), x > y);
            assert_eq!(m(_mm_cmpge_ps(a, b, 0)), x >= y);
            assert_eq!(m(_mm_cmpneq_ps(a, b, 0)), x != y);
            assert_eq!(m(_mm_cmpnlt_ps(a, b, 0)), !(x < y));
            assert_eq!(m(_mm_cmpnle_ps(a, b, 0)), !(x <= y));
            assert_eq!(m(_mm_cmpngt_ps(a, b, 0)), !(x > y));
            assert_eq!(m(_mm_cmpnge_ps(a, b, 0)), !(x >= y));
            assert_eq!(m(_mm_cmpord_ps(a, b, 0)), !x.is_nan() && !y.is_nan());
            assert_eq!(m(_mm_cmpunord_ps(a, b, 0)), x.is_nan() || y.is_nan());
            assert_eq!(_mm_comieq_ss(a, b, 0), (x == y) as i32);
            assert_eq!(_mm_comilt_ss(a, b, 0), (x < y) as i32);
            assert_eq!(_mm_comile_ss(a, b, 0), (x <= y) as i32);
            assert_eq!(_mm_comigt_ss(a, b, 0), (x > y) as i32);
            assert_eq!(_mm_comige_ss(a, b, 0), (x >= y) as i32);
            assert_eq!(_mm_comineq_ss(a, b, 0), (x != y) as i32);
            assert_eq!(_mm_ucomieq_ss(a, b, 0), (x == y) as i32);
            assert_eq!(_mm_ucomilt_ss(a, b, 0), (x < y) as i32);
            assert_eq!(_mm_ucomile_ss(a, b, 0), (x <= y) as i32);
            assert_eq!(_mm_ucomigt_ss(a, b, 0), (x > y) as i32);
            assert_eq!(_mm_ucomige_ss(a, b, 0), (x >= y) as i32);
            assert_eq!(_mm_ucomineq_ss(a, b, 0), (x != y) as i32);
        }
    }
}

#[test]
fn bitwise_ps() {
    let f = test_floats();
    for i in (0..(10000 - 8)).step_by(13) {
        let a = win(&f, i);
        let b = win(&f, i + 4);
        let av = f32x4(a);
        let bv = f32x4(b);
        let and = f32x4(_mm_and_ps(a, b));
        let or = f32x4(_mm_or_ps(a, b));
        let xor = f32x4(_mm_xor_ps(a, b));
        let andnot = f32x4(_mm_andnot_ps(a, b));
        for lane in 0..4 {
            let x = av[lane].to_bits();
            let y = bv[lane].to_bits();
            assert_eq!(and[lane].to_bits(), x & y);
            assert_eq!(or[lane].to_bits(), x | y);
            assert_eq!(xor[lane].to_bits(), x ^ y);
            assert_eq!(andnot[lane].to_bits(), !x & y);
        }
    }
}

#[test]
fn scalar_ss_compare_upper_lanes() {
    // cmpord_ss: lane0 all-ones if both ordered, else zero. Upper from a.
    let n = set_ps(4.0, 3.0, 2.0, f32::NAN);
    let m = set_ps(40.0, 30.0, 20.0, 10.0);
    let r = f32x4(_mm_cmpord_ss(n, m, 0));
    assert_eq!(r[0].to_bits(), 0); // NaN makes lane0 unordered
    assert_eq!(&r[1..], &[2.0, 3.0, 4.0]);

    // cmpeq_ss: lane0 equal -> all-ones bit pattern.
    let a = set_ps(4.0, 3.0, 2.0, 5.0);
    let b = set_ps(40.0, 30.0, 20.0, 5.0);
    let r = f32x4(_mm_cmpeq_ss(a, b, 0));
    assert_eq!(r[0].to_bits(), 0xFFFF_FFFF);
    assert_eq!(&r[1..], &[2.0, 3.0, 4.0]);
}

#[test]
fn scalar_ss_compares_all_predicates() {
    let a = set_ps(4.0, 3.0, 2.0, 1.0);
    let b = set_ps(40.0, 30.0, 20.0, 2.0);
    let lane0 = |v: __m128| {
        let r = f32x4(v);
        assert_eq!(&r[1..], &[2.0, 3.0, 4.0]);
        r[0].to_bits()
    };
    let t = 0xFFFF_FFFF;
    assert_eq!(lane0(_mm_cmplt_ss(a, b, 0)), t);
    assert_eq!(lane0(_mm_cmple_ss(a, b, 0)), t);
    assert_eq!(lane0(_mm_cmpgt_ss(a, b, 0)), 0);
    assert_eq!(lane0(_mm_cmpge_ss(a, b, 0)), 0);
    assert_eq!(lane0(_mm_cmpneq_ss(a, b, 0)), t);
    assert_eq!(lane0(_mm_cmpnlt_ss(a, b, 0)), 0);
    assert_eq!(lane0(_mm_cmpnle_ss(a, b, 0)), 0);
    assert_eq!(lane0(_mm_cmpngt_ss(a, b, 0)), t);
    assert_eq!(lane0(_mm_cmpnge_ss(a, b, 0)), t);
    assert_eq!(lane0(_mm_cmpunord_ss(a, b, 0)), 0);
    assert_eq!(lane0(_mm_move_ss(a, b)), 2.0f32.to_bits());
}

#[test]
fn move_masks() {
    let a = set_ps(-1.0, 2.0, -3.0, 4.0);
    // lane0=4(+), lane1=-3(sign), lane2=2(+), lane3=-1(sign) -> bits 1 and 3 = 0b1010
    assert_eq!(_mm_movemask_ps(a), 0b1010);
    assert_eq!(_mm_movemask_ps(set_ps(-0.0, 0.0, 0.0, f32::NEG_INFINITY)), 0b1001);
}

#[test]
fn moves_and_unpacks() {
    let a = set_ps(4.0, 3.0, 2.0, 1.0);
    let b = set_ps(8.0, 7.0, 6.0, 5.0);
    assert_eq!(f32x4(_mm_movehl_ps(a, b)), [7.0, 8.0, 3.0, 4.0]);
    assert_eq!(f32x4(_mm_movelh_ps(a, b)), [1.0, 2.0, 5.0, 6.0]);
    assert_eq!(f32x4(_mm_unpacklo_ps(a, b)), [1.0, 5.0, 2.0, 6.0]);
    assert_eq!(f32x4(_mm_unpackhi_ps(a, b)), [3.0, 7.0, 4.0, 8.0]);
}

#[test]
fn shuffle_ps_selects_lanes() {
    let a = set_ps(4.0, 3.0, 2.0, 1.0);
    let b = set_ps(8.0, 7.0, 6.0, 5.0);
    // imm = (3,2,1,0): lane0=a[0], lane1=a[1], lane2=b[2], lane3=b[3]
    let r = f32x4(_mm_shuffle_ps(a, b, _MM_SHUFFLE(3, 2, 1, 0)));
    assert_eq!(r, [1.0, 2.0, 7.0, 8.0]);
    let r = f32x4(_mm_shuffle_ps(a, b, _MM_SHUFFLE(0, 1, 3, 2)));
    assert_eq!(r, [3.0, 4.0, 6.0, 5.0]);
}

#[test]
fn comi_returns_int_and_nan_rules() {
    let a = set_ss(1.0);
    let b = set_ss(2.0);
    assert_eq!(_mm_comilt_ss(a, b, 0), 1);
    assert_eq!(_mm_comigt_ss(a, b, 0), 0);
    assert_eq!(_mm_comieq_ss(a, a, 0), 1);
    let nan = set_ss(f32::NAN);
    assert_eq!(_mm_comieq_ss(nan, a, 0), 0);
    assert_eq!(_mm_comineq_ss(nan, a, 0), 1);
}

#[test]
fn casts_keep_every_bit() {
    let a = set_ps(-0.0, f32::NAN, 1.5, f32::from_bits(0x7fc1_2345));
    let i = _mm_castps_si128(a);
    assert_eq!(i.u32(), a.f32_bits());
    assert_eq!(_mm_castsi128_ps(i).f32_bits(), a.f32_bits());
    let d = _mm_castps_pd(a);
    let l = a.f32_bits();
    assert_eq!(d.f64_bits()[0], (l[1] as u64) << 32 | l[0] as u64);
    assert_eq!(_mm_castpd_ps(d).f32_bits(), l);
    assert_eq!(_mm_setzero_ps().f32_bits(), [0; 4]);
}

#[test]
fn sqrt_matches_scalar() {
    let f = test_floats();
    for i in (0..(10000 - 4)).step_by(17) {
        let a = win(&f, i);
        let r = f32x4(_mm_sqrt_ps(a, 0));
        let av = f32x4(a);
        for lane in 0..4 {
            // The AArch64 square root of a negative number is the default NaN
            // 0x7fc00000, whatever NaN the host's own square root gives.
            let host = av[lane].sqrt();
            if host.is_nan() {
                assert_eq!(r[lane].to_bits(), 0x7fc0_0000);
            } else {
                assert_eq!(r[lane].to_bits(), host.to_bits());
            }
        }
    }
}

#[test]
fn rsqrt_zero_gives_signed_inf() {
    // Lanes read least significant first: [1.0, 4.0, +0.0, -0.0].
    let a = set_ps(-0.0, 0.0, 4.0, 1.0);
    // A host estimate stands in for the hardware one; only zero lanes change.
    let est = __m128::from_f32_bits(f32x4(a).map(|x| (1.0 / x.sqrt()).to_bits()));
    let r = f32x4(rsqrt_zero_fixup(a, est));
    assert!((r[0] - 1.0).abs() < 1e-2); // rsqrt(1) ~ 1
    assert!((r[1] - 0.5).abs() < 1e-2); // rsqrt(4) ~ 0.5
    assert_eq!(r[2], f32::INFINITY); // rsqrt(+0) = +Inf
    assert_eq!(r[3], f32::NEG_INFINITY); // rsqrt(-0) = -Inf
}
