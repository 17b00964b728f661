//! Vector types and their lane views.
//!
//! An integer vector is held as its sixteen bytes in memory order (lane 0 is the
//! least significant). A float vector is held as the IEEE-754 bit pattern of
//! each lane. Every typed lane view of an integer vector reads the bytes little
//! endian, so reinterpreting a vector never changes a bit.
use vstd::prelude::*;
use vstd::arithmetic::power2::{pow2, lemma2_to64, lemma2_to64_rest, lemma_pow2_strictly_increases, lemma_pow2_pos, lemma_pow2_adds};
use vstd::arithmetic::div_mod::{lemma_fundamental_div_mod, lemma_mod_multiples_vanish, lemma_small_mod};
use vstd::arithmetic::mul::{lemma_mul_is_distributive_add_other_way, lemma_mul_is_associative};
use vstd::bits::{low_bits_mask, lemma_low_bits_mask_values, lemma_u64_low_bits_mask_is_mod, lemma_u64_shl_is_mul};

verus! {

// ---------------------------------------------------------------------------
// Little-endian readings and two's-complement views
// ---------------------------------------------------------------------------

/// Unsigned value of the two bytes at `k`, least significant first.
pub open spec fn le16(b: Seq<u8>, k: int) -> int {
    b[k] + 256 * b[k + 1]
}

/// Unsigned value of the four bytes at `k`, least significant first.
pub open spec fn le32(b: Seq<u8>, k: int) -> int {
    le16(b, k) + 0x1_0000 * le16(b, k + 2)
}

/// Unsigned value of the eight bytes at `k`, least significant first.
pub open spec fn le64(b: Seq<u8>, k: int) -> int {
    le32(b, k) + 0x1_0000_0000 * le32(b, k + 4)
}

/// Two's-complement reading of an 8-bit pattern.
pub open spec fn sx8(v: int) -> int {
    if v < 0x80 { v } else { v - 0x100 }
}

/// Two's-complement reading of a 16-bit pattern.
pub open spec fn sx16(v: int) -> int {
    if v < 0x8000 { v } else { v - 0x1_0000 }
}

/// Two's-complement reading of a 32-bit pattern.
pub open spec fn sx32(v: int) -> int {
    if v < 0x8000_0000 { v } else { v - 0x1_0000_0000 }
}

/// Two's-complement reading of a 64-bit pattern.
pub open spec fn sx64(v: int) -> int {
    if v < 0x8000_0000_0000_0000 { v } else { v - 0x1_0000_0000_0000_0000 }
}

pub proof fn lemma_i8_bits(x: i8)
    ensures
        x as u8 as int == if x < 0 { x + 0x100 } else { x as int },
        sx8(x as u8 as int) == x,
{
    assert(x as u8 as int == if x < 0 { x + 0x100 } else { x as int }) by (bit_vector);
}

pub proof fn lemma_u8_bits(x: u8)
    ensures
        x as i8 as int == sx8(x as int),
{
    assert(x as i8 as int == if x < 0x80 { x as int } else { x - 0x100 }) by (bit_vector);
}

pub proof fn lemma_i16_bits(x: i16)
    ensures
        x as u16 as int == if x < 0 { x + 0x1_0000 } else { x as int },
        sx16(x as u16 as int) == x,
{
    assert(x as u16 as int == if x < 0 { x + 0x1_0000 } else { x as int }) by (bit_vector);
}

pub proof fn lemma_u16_bits(x: u16)
    ensures
        x as i16 as int == sx16(x as int),
{
    assert(x as i16 as int == if x < 0x8000 { x as int } else { x - 0x1_0000 }) by (bit_vector);
}

pub proof fn lemma_i32_bits(x: i32)
    ensures
        x as u32 as int == if x < 0 { x + 0x1_0000_0000 } else { x as int },
        sx32(x as u32 as int) == x,
{
    assert(x as u32 as int == if x < 0 { x + 0x1_0000_0000 } else { x as int }) by (bit_vector);
}

pub proof fn lemma_u32_bits(x: u32)
    ensures
        x as i32 as int == sx32(x as int),
{
    assert(x as i32 as int == if x < 0x8000_0000 { x as int } else { x - 0x1_0000_0000 })
        by (bit_vector);
}

pub proof fn lemma_i64_bits(x: i64)
    ensures
        x as u64 as int == if x < 0 { x + 0x1_0000_0000_0000_0000 } else { x as int },
        sx64(x as u64 as int) == x,
{
    assert(x as u64 as int == if x < 0 { x + 0x1_0000_0000_0000_0000 } else { x as int })
        by (bit_vector);
}

pub proof fn lemma_u64_bits(x: u64)
    ensures
        x as i64 as int == sx64(x as int),
{
    assert(x as i64 as int == if x < 0x8000_0000_0000_0000 {
        x as int
    } else {
        x - 0x1_0000_0000_0000_0000
    }) by (bit_vector);
}

// ---------------------------------------------------------------------------
// Byte-level readers and writers
// ---------------------------------------------------------------------------

pub(crate) fn get16<const N: usize>(b: &[u8; N], k: usize) -> (r: u16)
    requires
        k + 1 < N,
    ensures
        r == le16(b@, k as int),
{
    (b[k] as u16) + (b[k + 1] as u16) * 256
}

pub(crate) fn get32<const N: usize>(b: &[u8; N], k: usize) -> (r: u32)
    requires
        k + 3 < N,
    ensures
        r == le32(b@, k as int),
{
    (get16(b, k) as u32) + (get16(b, k + 2) as u32) * 0x1_0000
}

pub(crate) fn get64<const N: usize>(b: &[u8; N], k: usize) -> (r: u64)
    requires
        k + 7 < N,
    ensures
        r == le64(b@, k as int),
{
    (get32(b, k) as u64) + (get32(b, k + 4) as u64) * 0x1_0000_0000
}

pub(crate) fn put16<const N: usize>(b: &mut [u8; N], k: usize, x: u16)
    requires
        k + 1 < N,
    ensures
        le16(final(b)@, k as int) == x,
        forall|j: int| 0 <= j < N && j != k && j != k + 1 ==> final(b)@[j] == old(b)@[j],
{
    b[k] = (x % 256) as u8;
    b[k + 1] = (x / 256) as u8;
}

pub(crate) fn put32<const N: usize>(b: &mut [u8; N], k: usize, x: u32)
    requires
        k + 3 < N,
    ensures
        le32(final(b)@, k as int) == x,
        forall|j: int| 0 <= j < N && !(k <= j < k + 4) ==> final(b)@[j] == old(b)@[j],
{
    put16(b, k, (x % 0x1_0000) as u16);
    put16(b, k + 2, (x / 0x1_0000) as u16);
}

pub(crate) fn put64<const N: usize>(b: &mut [u8; N], k: usize, x: u64)
    requires
        k + 7 < N,
    ensures
        le64(final(b)@, k as int) == x,
        forall|j: int| 0 <= j < N && !(k <= j < k + 8) ==> final(b)@[j] == old(b)@[j],
{
    put32(b, k, (x % 0x1_0000_0000) as u32);
    put32(b, k + 4, (x / 0x1_0000_0000) as u32);
}

} // verus!

verus! {

// ---------------------------------------------------------------------------
// The vector types
// ---------------------------------------------------------------------------

/// 128-bit vector of four `f32` lanes, each held as its IEEE-754 bit pattern.
///
/// Matches the Intel `__m128` type. Lane 0 is the least significant.
#[derive(Clone, Copy, Debug)]
pub struct __m128 {
    pub lanes: [u32; 4],
}

/// 128-bit vector of two `f64` lanes, each held as its IEEE-754 bit pattern.
///
/// Matches the Intel `__m128d` type. Lane 0 is the least significant.
#[derive(Clone, Copy, Debug)]
pub struct __m128d {
    pub lanes: [u64; 2],
}

/// 128-bit integer vector, held as its sixteen bytes in memory order.
///
/// Matches the Intel `__m128i` type. Holds sixteen `i8`, eight `i16`, four
/// `i32`, or two `i64` lanes depending on the operation.
#[derive(Clone, Copy, Debug)]
pub struct __m128i {
    pub bytes: [u8; 16],
}

/// 64-bit integer vector, held as its eight bytes in memory order.
///
/// Matches the Intel `__m64` MMX type. Holds eight `i8`, four `i16`, or two
/// `i32` lanes depending on the operation.
#[derive(Clone, Copy, Debug)]
pub struct __m64 {
    pub bytes: [u8; 8],
}

impl View for __m128 {
    type V = Seq<u32>;

    open spec fn view(&self) -> Seq<u32> {
        self.lanes@
    }
}

impl View for __m128d {
    type V = Seq<u64>;

    open spec fn view(&self) -> Seq<u64> {
        self.lanes@
    }
}

impl View for __m128i {
    type V = Seq<u8>;

    open spec fn view(&self) -> Seq<u8> {
        self.bytes@
    }
}

impl View for __m64 {
    type V = Seq<u8>;

    open spec fn view(&self) -> Seq<u8> {
        self.bytes@
    }
}

impl __m128 {
    /// The four lanes as bit patterns.
    pub fn f32_bits(self) -> (r: [u32; 4])
        ensures
            r@ == self@,
    {
        self.lanes
    }

    /// A vector from four lane bit patterns, lane 0 first.
    pub fn from_f32_bits(v: [u32; 4]) -> (r: Self)
        ensures
            r@ == v@,
    {
        __m128 { lanes: v }
    }
}

impl __m128d {
    /// The two lanes as bit patterns.
    pub fn f64_bits(self) -> (r: [u64; 2])
        ensures
            r@ == self@,
    {
        self.lanes
    }

    /// A vector from two lane bit patterns, lane 0 first.
    pub fn from_f64_bits(v: [u64; 2]) -> (r: Self)
        ensures
            r@ == v@,
    {
        __m128d { lanes: v }
    }
}

impl __m128i {
    /// Unsigned byte lane `i`.
    pub open spec fn u8_at(self, i: int) -> int {
        self@[i] as int
    }

    /// Signed byte lane `i`.
    pub open spec fn i8_at(self, i: int) -> int {
        sx8(self@[i] as int)
    }

    /// Unsigned 16-bit lane `i`.
    pub open spec fn u16_at(self, i: int) -> int {
        le16(self@, 2 * i)
    }

    /// Signed 16-bit lane `i`.
    pub open spec fn i16_at(self, i: int) -> int {
        sx16(le16(self@, 2 * i))
    }

    /// Unsigned 32-bit lane `i`.
    pub open spec fn u32_at(self, i: int) -> int {
        le32(self@, 4 * i)
    }

    /// Signed 32-bit lane `i`.
    pub open spec fn i32_at(self, i: int) -> int {
        sx32(le32(self@, 4 * i))
    }

    /// Unsigned 64-bit lane `i`.
    pub open spec fn u64_at(self, i: int) -> int {
        le64(self@, 8 * i)
    }

    /// Signed 64-bit lane `i`.
    pub open spec fn i64_at(self, i: int) -> int {
        sx64(le64(self@, 8 * i))
    }

    /// The sixteen unsigned byte lanes.
    pub fn u8(self) -> (r: [u8; 16])
        ensures
            r@ == self@,
    {
        self.bytes
    }

    /// A vector from sixteen unsigned bytes, lane 0 first.
    pub fn from_u8(v: [u8; 16]) -> (r: Self)
        ensures
            r@ == v@,
    {
        __m128i { bytes: v }
    }

    /// The sixteen signed byte lanes.
    pub fn s8(self) -> (r: [i8; 16])
        ensures
            forall|i: int| 0 <= i < 16 ==> r[i] == self.i8_at(i),
    {
        let mut r = [0i8; 16];
        for i in 0..16
            invariant
                forall|j: int| 0 <= j < i ==> r[j] == self.i8_at(j),
        {
            proof {
                lemma_u8_bits(self.bytes[i as int]);
            }
            r[i] = self.bytes[i] as i8;
        }
        r
    }

    /// A vector from sixteen signed bytes, lane 0 first.
    pub fn from_s8(v: [i8; 16]) -> (r: Self)
        ensures
            forall|i: int| 0 <= i < 16 ==> r.i8_at(i) == v[i],
    {
        let mut b = [0u8; 16];
        for i in 0..16
            invariant
                forall|j: int| 0 <= j < i ==> sx8(b[j] as int) == v[j],
        {
            proof {
                lemma_i8_bits(v[i as int]);
            }
            b[i] = v[i] as u8;
        }
        __m128i { bytes: b }
    }

    /// The eight unsigned 16-bit lanes.
    pub fn u16(self) -> (r: [u16; 8])
        ensures
            forall|i: int| 0 <= i < 8 ==> r[i] == self.u16_at(i),
    {
        let mut r = [0u16; 8];
        for i in 0..8
            invariant
                forall|j: int| 0 <= j < i ==> r[j] == self.u16_at(j),
        {
            r[i] = get16(&self.bytes, 2 * i);
        }
        r
    }

    /// A vector from eight unsigned 16-bit lanes, lane 0 first.
    pub fn from_u16(v: [u16; 8]) -> (r: Self)
        ensures
            forall|i: int| 0 <= i < 8 ==> r.u16_at(i) == v[i],
    {
        let mut b = [0u8; 16];
        for i in 0..8
            invariant
                forall|j: int| 0 <= j < i ==> le16(b@, 2 * j) == v[j],
        {
            put16(&mut b, 2 * i, v[i]);
        }
        __m128i { bytes: b }
    }

    /// The eight signed 16-bit lanes.
    pub fn s16(self) -> (r: [i16; 8])
        ensures
            forall|i: int| 0 <= i < 8 ==> r[i] == self.i16_at(i),
    {
        let mut r = [0i16; 8];
        for i in 0..8
            invariant
                forall|j: int| 0 <= j < i ==> r[j] == self.i16_at(j),
        {
            let x = get16(&self.bytes, 2 * i);
            proof {
                lemma_u16_bits(x);
            }
            r[i] = x as i16;
        }
        r
    }

    /// A vector from eight signed 16-bit lanes, lane 0 first.
    pub fn from_s16(v: [i16; 8]) -> (r: Self)
        ensures
            forall|i: int| 0 <= i < 8 ==> r.i16_at(i) == v[i],
    {
        let mut b = [0u8; 16];
        for i in 0..8
            invariant
                forall|j: int| 0 <= j < i ==> sx16(le16(b@, 2 * j)) == v[j],
        {
            proof {
                lemma_i16_bits(v[i as int]);
            }
            put16(&mut b, 2 * i, v[i] as u16);
        }
        __m128i { bytes: b }
    }

    /// The four unsigned 32-bit lanes.
    pub fn u32(self) -> (r: [u32; 4])
        ensures
            forall|i: int| 0 <= i < 4 ==> r[i] == self.u32_at(i),
    {
        let mut r = [0u32; 4];
        for i in 0..4
            invariant
                forall|j: int| 0 <= j < i ==> r[j] == self.u32_at(j),
        {
            r[i] = get32(&self.bytes, 4 * i);
        }
        r
    }

    /// A vector from four unsigned 32-bit lanes, lane 0 first.
    pub fn from_u32(v: [u32; 4]) -> (r: Self)
        ensures
            forall|i: int| 0 <= i < 4 ==> r.u32_at(i) == v[i],
    {
        let mut b = [0u8; 16];
        for i in 0..4
            invariant
                forall|j: int| 0 <= j < i ==> le32(b@, 4 * j) == v[j],
        {
            put32(&mut b, 4 * i, v[i]);
        }
        __m128i { bytes: b }
    }

    /// The four signed 32-bit lanes.
    pub fn s32(self) -> (r: [i32; 4])
        ensures
            forall|i: int| 0 <= i < 4 ==> r[i] == self.i32_at(i),
    {
        let mut r = [0i32; 4];
        for i in 0..4
            invariant
                forall|j: int| 0 <= j < i ==> r[j] == self.i32_at(j),
        {
            let x = get32(&self.bytes, 4 * i);
            proof {
                lemma_u32_bits(x);
            }
            r[i] = x as i32;
        }
        r
    }

    /// A vector from four signed 32-bit lanes, lane 0 first.
    pub fn from_s32(v: [i32; 4]) -> (r: Self)
        ensures
            forall|i: int| 0 <= i < 4 ==> r.i32_at(i) == v[i],
    {
        let mut b = [0u8; 16];
        for i in 0..4
            invariant
                forall|j: int| 0 <= j < i ==> sx32(le32(b@, 4 * j)) == v[j],
        {
            proof {
                lemma_i32_bits(v[i as int]);
            }
            put32(&mut b, 4 * i, v[i] as u32);
        }
        __m128i { bytes: b }
    }

    /// The two unsigned 64-bit lanes.
    pub fn u64(self) -> (r: [u64; 2])
        ensures
            forall|i: int| 0 <= i < 2 ==> r[i] == self.u64_at(i),
    {
        [get64(&self.bytes, 0), get64(&self.bytes, 8)]
    }

    /// A vector from two unsigned 64-bit lanes, lane 0 first.
    pub fn from_u64(v: [u64; 2]) -> (r: Self)
        ensures
            forall|i: int| 0 <= i < 2 ==> r.u64_at(i) == v[i],
    {
        let mut b = [0u8; 16];
        put64(&mut b, 0, v[0]);
        put64(&mut b, 8, v[1]);
        __m128i { bytes: b }
    }

    /// The two signed 64-bit lanes.
    pub fn s64(self) -> (r: [i64; 2])
        ensures
            forall|i: int| 0 <= i < 2 ==> r[i] == self.i64_at(i),
    {
        let x0 = get64(&self.bytes, 0);
        let x1 = get64(&self.bytes, 8);
        proof {
            lemma_u64_bits(x0);
            lemma_u64_bits(x1);
        }
        [x0 as i64, x1 as i64]
    }

    /// A vector from two signed 64-bit lanes, lane 0 first.
    pub fn from_s64(v: [i64; 2]) -> (r: Self)
        ensures
            forall|i: int| 0 <= i < 2 ==> r.i64_at(i) == v[i],
    {
        proof {
            lemma_i64_bits(v[0]);
            lemma_i64_bits(v[1]);
        }
        let mut b = [0u8; 16];
        put64(&mut b, 0, v[0] as u64);
        put64(&mut b, 8, v[1] as u64);
        __m128i { bytes: b }
    }
}

} // verus!

verus! {

/// `2^n` as an integer.
pub open spec fn pow2i(n: int) -> int {
    pow2(n as nat) as int
}

/// The 2-bit field of `imm` that selects the source of lane `i`.
pub open spec fn field2(imm: int, i: int) -> int {
    if i == 0 {
        imm % 4
    } else if i == 1 {
        (imm / 4) % 4
    } else if i == 2 {
        (imm / 16) % 4
    } else {
        (imm / 64) % 4
    }
}

/// The integer whose bit `i` is set exactly when `f(i)` holds, for `i < n`.
pub open spec fn bit_mask(f: spec_fn(int) -> bool, n: nat) -> int
    decreases n,
{
    if n == 0 {
        0
    } else {
        bit_mask(f, (n - 1) as nat) + if f(n - 1) { pow2i(n - 1) } else { 0 }
    }
}

/// Sum of `|x[i] - y[i]|` over the `n` lanes starting at `lo`.
pub open spec fn abs_diff_sum(x: Seq<u8>, y: Seq<u8>, lo: int, n: nat) -> int
    decreases n,
{
    if n == 0 {
        0
    } else {
        abs_diff_sum(x, y, lo, (n - 1) as nat) + if x[lo + n - 1] >= y[lo + n - 1] {
            x[lo + n - 1] - y[lo + n - 1]
        } else {
            y[lo + n - 1] - x[lo + n - 1]
        }
    }
}

/// Bit `i` of `imm` (two's complement) is set.
pub open spec fn bit_of(imm: i32, i: int) -> bool {
    (imm >> (i as i32)) & 1i32 == 1i32
}

/// `v` limited to the range `lo..=hi`.
pub open spec fn clamp(v: int, lo: int, hi: int) -> int {
    if v < lo {
        lo
    } else if v > hi {
        hi
    } else {
        v
    }
}

impl __m64 {
    /// Unsigned byte lane `i`.
    pub open spec fn u8_at(self, i: int) -> int {
        self@[i] as int
    }

    /// Signed byte lane `i`.
    pub open spec fn i8_at(self, i: int) -> int {
        sx8(self@[i] as int)
    }

    /// Unsigned 16-bit lane `i`.
    pub open spec fn u16_at(self, i: int) -> int {
        le16(self@, 2 * i)
    }

    /// Signed 16-bit lane `i`.
    pub open spec fn i16_at(self, i: int) -> int {
        sx16(le16(self@, 2 * i))
    }

    /// Unsigned 32-bit lane `i`.
    pub open spec fn u32_at(self, i: int) -> int {
        le32(self@, 4 * i)
    }

    /// Signed 32-bit lane `i`.
    pub open spec fn i32_at(self, i: int) -> int {
        sx32(le32(self@, 4 * i))
    }
}

// ---------------------------------------------------------------------------
// Casts between vector types. Each keeps all 128 bits.
// ---------------------------------------------------------------------------

/// Reinterpret four `f32` lanes as an integer vector. Matches `_mm_castps_si128`.
pub fn _mm_castps_si128(a: __m128) -> (r: __m128i)
    ensures
        forall|i: int| 0 <= i < 4 ==> #[trigger] r.u32_at(i) == a@[i],
{
    __m128i::from_u32(a.lanes)
}

/// Reinterpret an integer vector as four `f32` lanes. Matches `_mm_castsi128_ps`.
pub fn _mm_castsi128_ps(a: __m128i) -> (r: __m128)
    ensures
        forall|i: int| 0 <= i < 4 ==> #[trigger] r@[i] == a.u32_at(i),
{
    __m128 { lanes: a.u32() }
}

/// Reinterpret four `f32` lanes as two `f64` lanes. Matches `_mm_castps_pd`.
pub fn _mm_castps_pd(a: __m128) -> (r: __m128d)
    ensures
        forall|j: int| 0 <= j < 2 ==> #[trigger] r@[j] == a@[2 * j] + 0x1_0000_0000 * a@[2 * j + 1],
{
    let l = a.lanes;
    __m128d {
        lanes: [
            (l[0] as u64) + (l[1] as u64) * 0x1_0000_0000,
            (l[2] as u64) + (l[3] as u64) * 0x1_0000_0000,
        ],
    }
}

/// Reinterpret two `f64` lanes as four `f32` lanes. Matches `_mm_castpd_ps`.
pub fn _mm_castpd_ps(a: __m128d) -> (r: __m128)
    ensures
        forall|j: int| 0 <= j < 2 ==> #[trigger] r@[2 * j] == a@[j] % 0x1_0000_0000,
        forall|j: int| 0 <= j < 2 ==> #[trigger] r@[2 * j + 1] == a@[j] / 0x1_0000_0000,
{
    let l = a.lanes;
    __m128 {
        lanes: [
            (l[0] % 0x1_0000_0000) as u32,
            (l[0] / 0x1_0000_0000) as u32,
            (l[1] % 0x1_0000_0000) as u32,
            (l[1] / 0x1_0000_0000) as u32,
        ],
    }
}

/// Reinterpret an integer vector as two `f64` lanes. Matches `_mm_castsi128_pd`.
pub fn _mm_castsi128_pd(a: __m128i) -> (r: __m128d)
    ensures
        forall|j: int| 0 <= j < 2 ==> #[trigger] r@[j] == a.u64_at(j),
{
    __m128d { lanes: a.u64() }
}

/// Reinterpret two `f64` lanes as an integer vector. Matches `_mm_castpd_si128`.
pub fn _mm_castpd_si128(a: __m128d) -> (r: __m128i)
    ensures
        forall|j: int| 0 <= j < 2 ==> #[trigger] r.u64_at(j) == a@[j],
{
    __m128i::from_u64(a.lanes)
}

} // verus!

verus! {

pub(crate) fn sat_i8(v: i32) -> (r: i8)
    ensures
        r == clamp(v as int, -0x80, 0x7f),
{
    if v < -0x80 {
        -0x80
    } else if v > 0x7f {
        0x7f
    } else {
        v as i8
    }
}

pub(crate) fn sat_u8(v: i32) -> (r: u8)
    ensures
        r == clamp(v as int, 0, 0xff),
{
    if v < 0 {
        0
    } else if v > 0xff {
        0xff
    } else {
        v as u8
    }
}

pub(crate) fn sat_i16(v: i32) -> (r: i16)
    ensures
        r == clamp(v as int, -0x8000, 0x7fff),
{
    if v < -0x8000 {
        -0x8000
    } else if v > 0x7fff {
        0x7fff
    } else {
        v as i16
    }
}

pub(crate) fn sat_u16(v: i32) -> (r: u16)
    ensures
        r == clamp(v as int, 0, 0xffff),
{
    if v < 0 {
        0
    } else if v > 0xffff {
        0xffff
    } else {
        v as u16
    }
}

} // verus!

verus! {

/// Products of values bounded by `m` in magnitude stay within `m * m`.
pub proof fn lemma_mul_bound(x: int, y: int, m: int)
    by (nonlinear_arith)
    requires
        0 <= m,
        -m <= x <= m,
        -m <= y <= m,
    ensures
        -(m * m) <= x * y <= m * m,
{
}

/// A left shift of a 64-bit value drops the bits shifted past the top.
pub proof fn lemma_u64_shl_mod(x: u64, n: u64)
    requires
        n < 64,
    ensures
        ((x << n) as int == (x * pow2(n as nat)) % 0x1_0000_0000_0000_0000),
{
    lemma2_to64();
    lemma2_to64_rest();
    if n == 0 {
        assert(x << 0 == x) by (bit_vector);
    } else {
        let k: u64 = (64 - n) as u64;
        lemma_pow2_strictly_increases(k as nat, 64);
        lemma_pow2_pos(k as nat);
        lemma_u64_low_bits_mask_is_mod(x, k as nat);
        lemma_low_bits_mask_values();
        assert(low_bits_mask(k as nat) == pow2(k as nat) - 1) by {
            vstd::bits::lemma_low_bits_mask_unfold(k as nat);
        }
        let m: u64 = (pow2(k as nat) - 1) as u64;
        lemma_u64_shl_is_mul(1, k);
        assert(m == ((1u64 << k) - 1) as u64);
        assert(x << n == (x & m) << n) by (bit_vector)
            requires
                0 < n < 64,
                k == 64 - n,
                m == ((1u64 << k) - 1) as u64,
        ;
        let r: u64 = x & m;
        assert(r == x % (pow2(k as nat) as u64));
        assert(r as int == (x as int) % (pow2(k as nat) as int));
        lemma_pow2_adds(k as nat, n as nat);
        assert(r * pow2(n as nat) < pow2(64)) by {
            lemma_mul_upper(r as int, pow2(k as nat) as int, pow2(n as nat) as int);
        }
        lemma_u64_shl_is_mul(r, n);
        let q: int = (x as int) / (pow2(k as nat) as int);
        assert(x == q * pow2(k as nat) + r) by {
            lemma_fundamental_div_mod(x as int, pow2(k as nat) as int);
        }
        assert(x * pow2(n as nat) == q * pow2(64) + r * pow2(n as nat)) by {
            lemma_mul_is_distributive_add_other_way(pow2(n as nat) as int, q * pow2(k as nat), r as int);
            lemma_mul_is_associative(q as int, pow2(k as nat) as int, pow2(n as nat) as int);
        }
        lemma_mod_multiples_vanish(q as int, (r * pow2(n as nat)) as int, pow2(64) as int);
        lemma_small_mod((r * pow2(n as nat)) as nat, pow2(64));
    }
}

proof fn lemma_mul_upper(r: int, p: int, s: int)
    by (nonlinear_arith)
    requires
        (0 <= r < p),
        (0 < s),
    ensures
        (r * s < p * s),
{
}


// ---------------------------------------------------------------------------
// Lane views determine the vector
// ---------------------------------------------------------------------------

proof fn lemma_le32_digits(b: Seq<u8>, k: int)
    requires
        0 <= k,
        k + 4 <= b.len(),
    ensures
        b[k] == le32(b, k) % 0x100,
        b[k + 1] == le32(b, k) / 0x100 % 0x100,
        b[k + 2] == le32(b, k) / 0x1_0000 % 0x100,
        b[k + 3] == le32(b, k) / 0x100_0000,
{
    let v = le32(b, k);
    vstd::arithmetic::div_mod::lemma_fundamental_div_mod_converse(
        v,
        0x100,
        b[k + 1] + 0x100 * b[k + 2] + 0x1_0000 * b[k + 3],
        b[k] as int,
    );
    vstd::arithmetic::div_mod::lemma_fundamental_div_mod_converse(
        v / 0x100,
        0x100,
        b[k + 2] + 0x100 * b[k + 3],
        b[k + 1] as int,
    );
    vstd::arithmetic::div_mod::lemma_fundamental_div_mod_converse(
        v,
        0x1_0000,
        b[k + 2] + 0x100 * b[k + 3],
        b[k] + 0x100 * b[k + 1],
    );
    vstd::arithmetic::div_mod::lemma_fundamental_div_mod_converse(
        v / 0x1_0000,
        0x100,
        b[k + 3] as int,
        b[k + 2] as int,
    );
    vstd::arithmetic::div_mod::lemma_fundamental_div_mod_converse(
        v,
        0x100_0000,
        b[k + 3] as int,
        b[k] + 0x100 * b[k + 1] + 0x1_0000 * b[k + 2],
    );
}

/// An integer vector is determined by its four 32-bit lanes: reading the same
/// lanes means holding the same bytes. So casting an integer vector to `f32`
/// lanes and back gives it back unchanged.
pub proof fn law_u32_lanes_determine_bytes(x: __m128i, y: __m128i)
    requires
        forall|i: int| 0 <= i < 4 ==> #[trigger] x.u32_at(i) == y.u32_at(i),
    ensures
        x@ == y@,
{
    assert forall|j: int| 0 <= j < 16 implies x@[j] == y@[j] by {
        let i = j / 4;
        assert(x.u32_at(i) == y.u32_at(i));
        lemma_le32_digits(x@, 4 * i);
        lemma_le32_digits(y@, 4 * i);
    }
    assert(x@ =~= y@);
}

/// An integer vector is determined by its two 64-bit lanes: reading the same
/// lanes means holding the same bytes. So casting an integer vector to `f64`
/// lanes and back gives it back unchanged.
pub proof fn law_u64_lanes_determine_bytes(x: __m128i, y: __m128i)
    requires
        forall|i: int| 0 <= i < 2 ==> #[trigger] x.u64_at(i) == y.u64_at(i),
    ensures
        x@ == y@,
{
    assert forall|i: int| 0 <= i < 4 implies #[trigger] x.u32_at(i) == y.u32_at(i) by {
        let j = i / 2;
        assert(x.u64_at(j) == y.u64_at(j));
        let (xv, yv) = (x@, y@);
        vstd::arithmetic::div_mod::lemma_fundamental_div_mod_converse(
            le64(xv, 8 * j),
            0x1_0000_0000,
            le32(xv, 8 * j + 4),
            le32(xv, 8 * j),
        );
        vstd::arithmetic::div_mod::lemma_fundamental_div_mod_converse(
            le64(yv, 8 * j),
            0x1_0000_0000,
            le32(yv, 8 * j + 4),
            le32(yv, 8 * j),
        );
    }
    law_u32_lanes_determine_bytes(x, y);
}

/// Casting between four `f32` lanes and two `f64` lanes keeps every bit:
/// lanes `lo` and `hi` packed into one `f64` lane split back into `lo` and
/// `hi`, and an `f64` lane split into two `f32` lanes packs back into itself.
pub proof fn law_ps_pd_cast_roundtrip(lo: u32, hi: u32, d: u64)
    ensures
        (lo + 0x1_0000_0000 * hi) % 0x1_0000_0000 == lo,
        (lo + 0x1_0000_0000 * hi) / 0x1_0000_0000 == hi,
        d % 0x1_0000_0000 + 0x1_0000_0000 * (d / 0x1_0000_0000) == d,
{
    vstd::arithmetic::div_mod::lemma_fundamental_div_mod_converse(
        lo + 0x1_0000_0000 * hi,
        0x1_0000_0000,
        hi as int,
        lo as int,
    );
    vstd::arithmetic::div_mod::lemma_fundamental_div_mod(d as int, 0x1_0000_0000);
}

// ---------------------------------------------------------------------------
// Shuffle selectors and sums of absolute differences
// ---------------------------------------------------------------------------

/// A shuffle immediate packs four 2-bit selectors, lane 0 in bits 0-1 and lane
/// 3 in bits 6-7 (the layout `_MM_SHUFFLE(f3, f2, f1, f0)` builds): each lane
/// reads back exactly the selector that was packed for it.
pub proof fn law_field2_decodes_packed_selectors(f0: int, f1: int, f2: int, f3: int)
    requires
        0 <= f0 < 4,
        0 <= f1 < 4,
        0 <= f2 < 4,
        0 <= f3 < 4,
    ensures
        field2(f3 * 64 + f2 * 16 + f1 * 4 + f0, 0) == f0,
        field2(f3 * 64 + f2 * 16 + f1 * 4 + f0, 1) == f1,
        field2(f3 * 64 + f2 * 16 + f1 * 4 + f0, 2) == f2,
        field2(f3 * 64 + f2 * 16 + f1 * 4 + f0, 3) == f3,
{
    let imm = f3 * 64 + f2 * 16 + f1 * 4 + f0;
    vstd::arithmetic::div_mod::lemma_fundamental_div_mod_converse(imm, 4, f3 * 16 + f2 * 4 + f1, f0);
    vstd::arithmetic::div_mod::lemma_fundamental_div_mod_converse(imm, 16, f3 * 4 + f2, f1 * 4 + f0);
    vstd::arithmetic::div_mod::lemma_fundamental_div_mod_converse(imm, 64, f3, f2 * 16 + f1 * 4 + f0);
    vstd::arithmetic::div_mod::lemma_fundamental_div_mod_converse(imm / 4, 4, f3 * 4 + f2, f1);
    vstd::arithmetic::div_mod::lemma_fundamental_div_mod_converse(imm / 16, 4, f3, f2);
    vstd::arithmetic::div_mod::lemma_fundamental_div_mod_converse(imm / 64, 4, 0, f3);
}

/// Lane 3 of a shuffle reads the top two bits of the 8-bit immediate.
pub proof fn law_field2_top_lane(imm: int)
    requires
        0 <= imm < 256,
    ensures
        field2(imm, 3) == imm / 64,
        0 <= imm / 64 < 4,
{
    vstd::arithmetic::div_mod::lemma_fundamental_div_mod(imm, 64);
    vstd::arithmetic::div_mod::lemma_small_mod((imm / 64) as nat, 4);
}

/// The sum of absolute differences does not depend on which operand comes
/// first: `sad(x, y) == sad(y, x)` over every range of lanes.
pub proof fn law_abs_diff_sum_symmetric(x: Seq<u8>, y: Seq<u8>, lo: int, n: nat)
    ensures
        abs_diff_sum(x, y, lo, n) == abs_diff_sum(y, x, lo, n),
    decreases n,
{
    if n > 0 {
        law_abs_diff_sum_symmetric(x, y, lo, (n - 1) as nat);
    }
}

/// The sum over no lanes is zero, and one more lane adds exactly the distance
/// `|x[i] - y[i]|` between its two bytes, as integers.
pub proof fn law_abs_diff_sum_adds_distance(x: Seq<u8>, y: Seq<u8>, lo: int, n: nat)
    ensures
        abs_diff_sum(x, y, lo, 0) == 0,
        ({
            let d = x[lo + n] as int - y[lo + n] as int;
            abs_diff_sum(x, y, lo, n + 1) == abs_diff_sum(x, y, lo, n) + if d < 0 { -d } else { d }
        }),
{
    assert(abs_diff_sum(x, y, lo, n + 1) == abs_diff_sum(x, y, lo, (n + 1 - 1) as nat) + if x[lo + n] >= y[lo + n] {
        x[lo + n] - y[lo + n]
    } else {
        y[lo + n] - x[lo + n]
    });
}

/// Equal ranges of bytes have no distance; every sum is at least zero and at
/// most `255` per lane.
pub proof fn law_abs_diff_sum_bounds(x: Seq<u8>, y: Seq<u8>, lo: int, n: nat)
    ensures
        0 <= abs_diff_sum(x, y, lo, n) <= 255 * n,
        abs_diff_sum(x, x, lo, n) == 0,
    decreases n,
{
    if n > 0 {
        law_abs_diff_sum_bounds(x, y, lo, (n - 1) as nat);
    }
}

/// For an 8-bit immediate, [`bit_of`] reads binary digit `i`: the digit of
/// weight `2^i` in `imm`.
pub proof fn law_bit_of_reads_binary_digit(imm: i32, i: int)
    requires
        0 <= imm < 256,
        0 <= i < 8,
    ensures
        bit_of(imm, i) == ((imm as int / pow2i(i)) % 2 == 1),
{
    lemma2_to64();
    assert(0 <= imm < 256 ==> (
        ((imm >> 0i32) & 1i32 == 1i32) == ((imm / 1) % 2 == 1)
        && ((imm >> 1i32) & 1i32 == 1i32) == ((imm / 2) % 2 == 1)
        && ((imm >> 2i32) & 1i32 == 1i32) == ((imm / 4) % 2 == 1)
        && ((imm >> 3i32) & 1i32 == 1i32) == ((imm / 8) % 2 == 1)
        && ((imm >> 4i32) & 1i32 == 1i32) == ((imm / 16) % 2 == 1)
        && ((imm >> 5i32) & 1i32 == 1i32) == ((imm / 32) % 2 == 1)
        && ((imm >> 6i32) & 1i32 == 1i32) == ((imm / 64) % 2 == 1)
        && ((imm >> 7i32) & 1i32 == 1i32) == ((imm / 128) % 2 == 1))) by (bit_vector);
}
} // verus!
