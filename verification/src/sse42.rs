//! SSE4.2 intrinsics: 64-bit signed compare, CRC32C, and population count.
use crate::types::__m128i;
use vstd::arithmetic::power2::{pow2, lemma2_to64};
use vstd::prelude::*;

verus! {

/// Lanes where the signed `i64` of `a` exceeds that of `b` become all ones,
/// else zero. Matches `_mm_cmpgt_epi64`.
pub fn _mm_cmpgt_epi64(a: __m128i, b: __m128i) -> (r: __m128i)
    ensures
        forall|i: int|
            0 <= i < 2 ==> #[trigger] r.u64_at(i) == if a.i64_at(i) > b.i64_at(i) {
                0xffff_ffff_ffff_ffffint
            } else {
                0int
            },
{
    let x = a.s64();
    let y = b.s64();
    let e0: u64 = if x[0] > y[0] { 0xffff_ffff_ffff_ffff } else { 0 };
    let e1: u64 = if x[1] > y[1] { 0xffff_ffff_ffff_ffff } else { 0 };
    __m128i::from_u64([e0, e1])
}

// --- CRC-32C ---

/// One bit step of the reflected CRC-32C register: shift right, and fold in the
/// reflected Castagnoli polynomial `0x82F63B78` when a one bit drops out.
pub open spec fn crc_step(c: u32) -> u32 {
    if c & 1u32 == 1u32 {
        (c >> 1u32) ^ 0x82F6_3B78u32
    } else {
        c >> 1u32
    }
}

/// Four bit steps.
pub open spec fn crc_step4(c: u32) -> u32 {
    crc_step(crc_step(crc_step(crc_step(c))))
}

/// CRC-32C of one byte accumulated into the register `crc`: the byte is xored
/// into the low bits, then eight bit steps follow.
pub open spec fn crc32c_byte(crc: u32, v: u8) -> u32 {
    crc_step4(crc_step4(crc ^ (v as u32)))
}

/// CRC-32C of the bytes of `s`, in order, accumulated into `crc`.
pub open spec fn crc32c_bytes(crc: u32, s: Seq<u8>) -> u32
    decreases s.len(),
{
    if s.len() == 0 {
        crc
    } else {
        crc32c_byte(crc32c_bytes(crc, s.drop_last()), s.last())
    }
}

/// The bytes of a 16-bit value, least significant first.
pub open spec fn bytes_of_u16(v: u16) -> Seq<u8> {
    seq![(v % 0x100) as u8, (v / 0x100) as u8]
}

/// The bytes of a 32-bit value, least significant first.
pub open spec fn bytes_of_u32(v: u32) -> Seq<u8> {
    bytes_of_u16((v % 0x1_0000) as u16) + bytes_of_u16((v / 0x1_0000) as u16)
}

/// The bytes of a 64-bit value, least significant first.
pub open spec fn bytes_of_u64(v: u64) -> Seq<u8> {
    bytes_of_u32((v % 0x1_0000_0000) as u32) + bytes_of_u32((v / 0x1_0000_0000) as u32)
}

/// The register after four steps, for the sixteen values of a low nibble.
pub open spec fn crc_nibble_entry(k: u32) -> u32 {
    if k == 0 { 0x0000_0000u32 }
    else if k == 1 { 0x105e_c76fu32 }
    else if k == 2 { 0x20bd_8edeu32 }
    else if k == 3 { 0x30e3_49b1u32 }
    else if k == 4 { 0x417b_1dbcu32 }
    else if k == 5 { 0x5125_dad3u32 }
    else if k == 6 { 0x61c6_9362u32 }
    else if k == 7 { 0x7198_540du32 }
    else if k == 8 { 0x82f6_3b78u32 }
    else if k == 9 { 0x92a8_fc17u32 }
    else if k == 10 { 0xa24b_b5a6u32 }
    else if k == 11 { 0xb215_72c9u32 }
    else if k == 12 { 0xc38d_26c4u32 }
    else if k == 13 { 0xd3d3_e1abu32 }
    else if k == 14 { 0xe330_a81au32 }
    else { 0xf36e_6f75u32 }
}

/// Four bit steps of the register equal a shift by four xored with the table
/// entry of the low nibble: the steps act linearly on the register bits.
proof fn lemma_crc_nibble(c: u32)
    by (bit_vector)
    ensures
        crc_step4(c) == (c >> 4u32) ^ crc_nibble_entry(c & 15u32),
{
}

/// Half-byte lookup table for CRC-32C, reflected form: entry `k` is the
/// register after four bit steps starting from `k`.
fn crc_nibble_table(k: u32) -> (r: u32)
    requires
        k < 16,
    ensures
        r == crc_nibble_entry(k),
{
    match k {
        0 => 0x0000_0000,
        1 => 0x105e_c76f,
        2 => 0x20bd_8ede,
        3 => 0x30e3_49b1,
        4 => 0x417b_1dbc,
        5 => 0x5125_dad3,
        6 => 0x61c6_9362,
        7 => 0x7198_540d,
        8 => 0x82f6_3b78,
        9 => 0x92a8_fc17,
        10 => 0xa24b_b5a6,
        11 => 0xb215_72c9,
        12 => 0xc38d_26c4,
        13 => 0xd3d3_e1ab,
        14 => 0xe330_a81a,
        _ => 0xf36e_6f75,
    }
}

fn crc_nibble(c: u32) -> (r: u32)
    ensures
        r == crc_step4(c),
{
    proof {
        lemma_crc_nibble(c);
    }
    assert(c & 15u32 < 16) by (bit_vector);
    (c >> 4u32) ^ crc_nibble_table(c & 15u32)
}

/// Accumulate one byte into a CRC-32C checksum (reflected Castagnoli
/// polynomial `0x82F63B78`). Matches `_mm_crc32_u8`.
pub fn _mm_crc32_u8(crc: u32, v: u8) -> (r: u32)
    ensures
        r == crc32c_byte(crc, v),
{
    let c = crc ^ (v as u32);
    crc_nibble(crc_nibble(c))
}

/// A CRC-32C over a concatenation continues from the CRC of the first part:
/// feeding bytes one call at a time, or several in a wider call, gives the
/// same checksum.
pub proof fn law_crc32c_concat(crc: u32, s: Seq<u8>, t: Seq<u8>)
    ensures
        crc32c_bytes(crc, s + t) == crc32c_bytes(crc32c_bytes(crc, s), t),
    decreases t.len(),
{
    if t.len() == 0 {
        assert(s + t =~= s);
    } else {
        assert((s + t).drop_last() =~= s + t.drop_last());
        law_crc32c_concat(crc, s, t.drop_last());
    }
}

/// Accumulate two bytes, least significant first, into a CRC-32C checksum.
/// Matches `_mm_crc32_u16`.
pub fn _mm_crc32_u16(crc: u32, v: u16) -> (r: u32)
    ensures
        r == crc32c_bytes(crc, bytes_of_u16(v)),
{
    let lo = _mm_crc32_u8(crc, (v % 0x100) as u8);
    let r = _mm_crc32_u8(lo, (v / 0x100) as u8);
    proof {
        let s = bytes_of_u16(v);
        assert(s.drop_last() =~= seq![(v % 0x100) as u8]);
        assert(s.drop_last().drop_last() =~= Seq::<u8>::empty());
        reveal_with_fuel(crc32c_bytes, 3);
    }
    r
}

/// Accumulate four bytes, least significant first, into a CRC-32C checksum.
/// Matches `_mm_crc32_u32`.
pub fn _mm_crc32_u32(crc: u32, v: u32) -> (r: u32)
    ensures
        r == crc32c_bytes(crc, bytes_of_u32(v)),
{
    let lo = _mm_crc32_u16(crc, (v % 0x1_0000) as u16);
    let r = _mm_crc32_u16(lo, (v / 0x1_0000) as u16);
    proof {
        law_crc32c_concat(crc, bytes_of_u16((v % 0x1_0000) as u16), bytes_of_u16((v / 0x1_0000) as u16));
    }
    r
}

/// Accumulate eight bytes, least significant first, into a CRC-32C checksum.
/// The running value is 64 bits wide; the checksum lives in its low 32 bits,
/// and the high 32 bits of the result are zero. Matches `_mm_crc32_u64`.
pub fn _mm_crc32_u64(crc: u64, v: u64) -> (r: u64)
    ensures
        r == crc32c_bytes((crc % 0x1_0000_0000) as u32, bytes_of_u64(v)),
{
    let c = (crc % 0x1_0000_0000) as u32;
    let lo = _mm_crc32_u32(c, (v % 0x1_0000_0000) as u32);
    let r = _mm_crc32_u32(lo, (v / 0x1_0000_0000) as u32);
    proof {
        law_crc32c_concat(c, bytes_of_u32((v % 0x1_0000_0000) as u32), bytes_of_u32((v / 0x1_0000_0000) as u32));
    }
    r as u64
}

// --- Population count ---

/// Number of one bits in `x`.
pub open spec fn popcount(x: nat) -> nat
    decreases x,
{
    if x == 0 {
        0
    } else {
        x % 2 + popcount(x / 2)
    }
}

fn count_ones64(a: u64) -> (r: u32)
    ensures
        r == popcount(a as nat),
        r <= 64,
{
    let mut v = a;
    let mut c: u32 = 0;
    proof {
        lemma2_to64();
    }
    for i in 0..64
        invariant
            c + popcount(v as nat) == popcount(a as nat),
            c <= i,
            v as nat == a as nat / pow2(i as nat),
    {
        proof {
            vstd::arithmetic::power2::lemma_pow2_unfold((i + 1) as nat);
            vstd::arithmetic::power2::lemma_pow2_pos(i as nat);
            vstd::arithmetic::div_mod::lemma_div_denominator(a as int, pow2(i as nat) as int, 2);
            vstd::arithmetic::mul::lemma_mul_is_commutative(pow2(i as nat) as int, 2);
        }
        c = c + (v % 2) as u32;
        v = v / 2;
    }
    proof {
        lemma2_to64();
        vstd::arithmetic::power2::lemma2_to64_rest();
        assert(v == 0);
    }
    c
}

/// Count the one bits of a 32-bit value. Matches `_mm_popcnt_u32`.
pub fn _mm_popcnt_u32(a: u32) -> (r: i32)
    ensures
        r == popcount(a as nat),
{
    count_ones64(a as u64) as i32
}

/// Count the one bits of a 64-bit value. Matches `_mm_popcnt_u64`.
pub fn _mm_popcnt_u64(a: u64) -> (r: i64)
    ensures
        r == popcount(a as nat),
{
    count_ones64(a) as i64
}

} // verus!
