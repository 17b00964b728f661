//! MXCSR mode control mapped onto the ARM FPCR register.
//!
//! The rounding mode and the flush-to-zero and denormals-are-zero flags map to
//! FPCR fields: RMode in bits 22-23, and FZ in bit 24, which backs both FTZ and
//! DAZ. Exception flags and masks are not emulated. The functions here take the
//! register value and return the MXCSR reading or the new register value;
//! reading and writing the register itself is left to the caller.
use crate::constants::{
    _MM_DENORMALS_ZERO_MASK,
    _MM_DENORMALS_ZERO_OFF,
    _MM_DENORMALS_ZERO_ON,
    _MM_FLUSH_ZERO_MASK,
    _MM_FLUSH_ZERO_OFF,
    _MM_FLUSH_ZERO_ON,
    _MM_ROUND_DOWN,
    _MM_ROUND_MASK,
    _MM_ROUND_NEAREST,
    _MM_ROUND_TOWARD_ZERO,
    _MM_ROUND_UP,
};
use vstd::prelude::*;

verus! {

/// Weight of the lowest FPCR RMode bit (bit 22).
pub const FPCR_RMODE_UNIT: u64 = 0x40_0000;

/// Weight of the FPCR FZ bit (bit 24).
pub const FPCR_FZ_BIT: u64 = 0x100_0000;

/// Weight of the FPCR DN bit (bit 25): NaN results are the default NaN.
pub const FPCR_DN_BIT: u64 = 0x200_0000;

/// The two-bit RMode field of an FPCR value.
pub open spec fn rmode_field(fpcr: u64) -> int {
    (fpcr as int / 0x40_0000) % 4
}

/// The FZ bit of an FPCR value is set.
pub open spec fn fz_set(fpcr: u64) -> bool {
    (fpcr as int / 0x100_0000) % 2 == 1
}

/// The DN bit of an FPCR value is set.
pub open spec fn dn_set(fpcr: u64) -> bool {
    (fpcr as int / 0x200_0000) % 2 == 1
}

/// The `_MM_ROUND_*` mode that an FPCR value selects.
pub open spec fn rounding_mode_of(fpcr: u64) -> u32 {
    let rm = rmode_field(fpcr);
    if rm == 0 {
        _MM_ROUND_NEAREST
    } else if rm == 1 {
        _MM_ROUND_UP
    } else if rm == 2 {
        _MM_ROUND_DOWN
    } else {
        _MM_ROUND_TOWARD_ZERO
    }
}

/// The RMode field that selects `mode`: any value outside the four defined
/// modes selects toward-zero.
pub open spec fn rmode_for(mode: u32) -> int {
    if mode == _MM_ROUND_NEAREST {
        0
    } else if mode == _MM_ROUND_UP {
        1
    } else if mode == _MM_ROUND_DOWN {
        2
    } else {
        3
    }
}

/// One of the four `_MM_ROUND_*` modes.
pub open spec fn is_rounding_mode(mode: u32) -> bool {
    mode == _MM_ROUND_NEAREST || mode == _MM_ROUND_DOWN || mode == _MM_ROUND_UP || mode
        == _MM_ROUND_TOWARD_ZERO
}

/// The MXCSR word that an FPCR value reads as: its rounding mode, and both FTZ
/// and DAZ when FZ is set.
pub open spec fn csr_of(fpcr: u64) -> u32 {
    (rounding_mode_of(fpcr) + if fz_set(fpcr) {
        _MM_FLUSH_ZERO_ON + _MM_DENORMALS_ZERO_ON
    } else {
        0
    }) as u32
}

/// `fpcr` with its RMode field replaced by `rm`.
pub open spec fn with_rmode(fpcr: u64, rm: int) -> u64 {
    (fpcr - rmode_field(fpcr) * 0x40_0000 + rm * 0x40_0000) as u64
}

/// `fpcr` with its FZ bit set to `on`.
pub open spec fn with_fz(fpcr: u64, on: bool) -> u64 {
    (fpcr - (if fz_set(fpcr) { 0x100_0000int } else { 0 }) + (if on { 0x100_0000int } else { 0 })) as u64
}

/// Whether writing the MXCSR word `a` turns flushing on: either its FTZ or its
/// DAZ bit is set.
pub open spec fn csr_flush(a: u32) -> bool {
    (a & _MM_FLUSH_ZERO_MASK) != 0 || (a & _MM_DENORMALS_ZERO_MASK) != 0
}

/// The FPCR value after writing the MXCSR word `a` into `fpcr`.
pub open spec fn with_csr(fpcr: u64, a: u32) -> u64 {
    with_fz(with_rmode(fpcr, rmode_for(a & _MM_ROUND_MASK)), csr_flush(a))
}

/// Read the rounding mode of `fpcr` as one of the `_MM_ROUND_*` values.
/// Matches `_MM_GET_ROUNDING_MODE`.
pub fn _MM_GET_ROUNDING_MODE(fpcr: u64) -> (r: u32)
    ensures
        r == rounding_mode_of(fpcr),
{
    let rmode = (fpcr / FPCR_RMODE_UNIT) % 4;
    if rmode == 0 {
        _MM_ROUND_NEAREST
    } else if rmode == 1 {
        _MM_ROUND_UP
    } else if rmode == 2 {
        _MM_ROUND_DOWN
    } else {
        _MM_ROUND_TOWARD_ZERO
    }
}

/// The register `fpcr` with its rounding mode set to `mode`. Any value outside
/// the four defined modes selects toward-zero; every other bit is kept.
/// Matches `_MM_SET_ROUNDING_MODE`.
pub fn _MM_SET_ROUNDING_MODE(fpcr: u64, mode: u32) -> (r: u64)
    ensures
        r == with_rmode(fpcr, rmode_for(mode)),
{
    let rmode: u64 = if mode == _MM_ROUND_NEAREST {
        0
    } else if mode == _MM_ROUND_UP {
        1
    } else if mode == _MM_ROUND_DOWN {
        2
    } else {
        3
    };
    let old = (fpcr / FPCR_RMODE_UNIT) % 4;
    fpcr - old * FPCR_RMODE_UNIT + rmode * FPCR_RMODE_UNIT
}

/// Read the flush-to-zero mode of `fpcr`. Matches `_MM_GET_FLUSH_ZERO_MODE`.
pub fn _MM_GET_FLUSH_ZERO_MODE(fpcr: u64) -> (r: u32)
    ensures
        r == if fz_set(fpcr) { _MM_FLUSH_ZERO_ON } else { _MM_FLUSH_ZERO_OFF },
{
    if (fpcr / FPCR_FZ_BIT) % 2 == 1 {
        _MM_FLUSH_ZERO_ON
    } else {
        _MM_FLUSH_ZERO_OFF
    }
}

/// The register `fpcr` with FZ set when `mode` is `_MM_FLUSH_ZERO_ON` and
/// cleared otherwise; every other bit is kept. Matches `_MM_SET_FLUSH_ZERO_MODE`.
pub fn _MM_SET_FLUSH_ZERO_MODE(fpcr: u64, mode: u32) -> (r: u64)
    ensures
        r == with_fz(fpcr, mode == _MM_FLUSH_ZERO_ON),
{
    set_fz(fpcr, mode == _MM_FLUSH_ZERO_ON)
}

/// Read the denormals-are-zero mode of `fpcr`. ARM ties DAZ to the FZ bit.
/// Matches `_MM_GET_DENORMALS_ZERO_MODE`.
pub fn _MM_GET_DENORMALS_ZERO_MODE(fpcr: u64) -> (r: u32)
    ensures
        r == if fz_set(fpcr) { _MM_DENORMALS_ZERO_ON } else { _MM_DENORMALS_ZERO_OFF },
{
    if (fpcr / FPCR_FZ_BIT) % 2 == 1 {
        _MM_DENORMALS_ZERO_ON
    } else {
        _MM_DENORMALS_ZERO_OFF
    }
}

/// The register `fpcr` with FZ set when `mode` is `_MM_DENORMALS_ZERO_ON` and
/// cleared otherwise; every other bit is kept.
/// Matches `_MM_SET_DENORMALS_ZERO_MODE`.
pub fn _MM_SET_DENORMALS_ZERO_MODE(fpcr: u64, mode: u32) -> (r: u64)
    ensures
        r == with_fz(fpcr, mode == _MM_DENORMALS_ZERO_ON),
{
    set_fz(fpcr, mode == _MM_DENORMALS_ZERO_ON)
}

fn set_fz(fpcr: u64, on: bool) -> (r: u64)
    ensures
        r == with_fz(fpcr, on),
{
    let cleared = fpcr - ((fpcr / FPCR_FZ_BIT) % 2) * FPCR_FZ_BIT;
    if on {
        cleared + FPCR_FZ_BIT
    } else {
        cleared
    }
}

/// Read the MXCSR word of `fpcr`: the rounding mode, and both FTZ and DAZ when
/// FZ is set. Exception flags read as zero. Matches `_mm_getcsr`.
pub fn _mm_getcsr(fpcr: u64) -> (r: u32)
    ensures
        r == csr_of(fpcr),
{
    let rm = _MM_GET_ROUNDING_MODE(fpcr);
    let fz = _MM_GET_FLUSH_ZERO_MODE(fpcr);
    let daz = _MM_GET_DENORMALS_ZERO_MODE(fpcr);
    assert(rm | fz | daz == rm + fz + daz) by (bit_vector)
        requires
            rm == 0 || rm == 0x2000 || rm == 0x4000 || rm == 0x6000,
            fz == 0 || fz == 0x8000,
            daz == 0 || daz == 0x40,
    ;
    rm | fz | daz
}

/// The register `fpcr` after writing the MXCSR word `a`: the rounding field of
/// `a` sets the rounding mode, and either the FTZ or the DAZ bit sets FZ.
/// Exception flags and masks are ignored. Matches `_mm_setcsr`.
pub fn _mm_setcsr(fpcr: u64, a: u32) -> (r: u64)
    ensures
        r == with_csr(fpcr, a),
{
    let m = a & _MM_ROUND_MASK;
    assert(m == 0 || m == 0x2000 || m == 0x4000 || m == 0x6000) by (bit_vector)
        requires
            m == a & 0x6000u32,
    ;
    let f1 = _MM_SET_ROUNDING_MODE(fpcr, m);
    let flush = (a & _MM_FLUSH_ZERO_MASK != 0) || (a & _MM_DENORMALS_ZERO_MASK != 0);
    let r = _MM_SET_FLUSH_ZERO_MODE(
        f1,
        if flush {
            _MM_FLUSH_ZERO_ON
        } else {
            _MM_FLUSH_ZERO_OFF
        },
    );
    r
}

// --- Laws ---

/// Setting a rounding mode and reading it back gives that mode; a value
/// outside the four defined modes reads back as toward-zero.
pub proof fn law_rounding_mode_roundtrip(fpcr: u64, mode: u32)
    ensures
        rounding_mode_of(with_rmode(fpcr, rmode_for(mode))) == if is_rounding_mode(mode) {
            mode
        } else {
            _MM_ROUND_TOWARD_ZERO
        },
{
}

/// Setting the rounding mode keeps every other FPCR bit, FZ among them.
pub proof fn law_rounding_mode_keeps_other_bits(fpcr: u64, mode: u32)
    ensures
        with_rmode(fpcr, rmode_for(mode)) % 0x40_0000 == fpcr % 0x40_0000,
        with_rmode(fpcr, rmode_for(mode)) / 0x100_0000 == fpcr / 0x100_0000,
        fz_set(with_rmode(fpcr, rmode_for(mode))) == fz_set(fpcr),
{
}

/// Setting FZ and reading it back gives the value set, through both the
/// flush-to-zero and the denormals-are-zero reading; the rounding mode and
/// every other bit are kept.
pub proof fn law_flush_zero_roundtrip(fpcr: u64, on: bool)
    ensures
        fz_set(with_fz(fpcr, on)) == on,
        rounding_mode_of(with_fz(fpcr, on)) == rounding_mode_of(fpcr),
        with_fz(fpcr, on) % 0x100_0000 == fpcr % 0x100_0000,
        with_fz(fpcr, on) / 0x200_0000 == fpcr / 0x200_0000,
{
}

/// Writing an MXCSR word and reading it back keeps its rounding field, and
/// reports both FTZ and DAZ exactly when the word held either of them.
pub proof fn law_setcsr_getcsr(fpcr: u64, a: u32)
    ensures
        csr_of(with_csr(fpcr, a)) & _MM_ROUND_MASK == a & _MM_ROUND_MASK,
        (csr_of(with_csr(fpcr, a)) & _MM_FLUSH_ZERO_MASK == _MM_FLUSH_ZERO_ON) == csr_flush(a),
        (csr_of(with_csr(fpcr, a)) & _MM_DENORMALS_ZERO_MASK == _MM_DENORMALS_ZERO_ON) == csr_flush(a),
{
    let f = with_csr(fpcr, a);
    let m = a & _MM_ROUND_MASK;
    assert(m == 0 || m == 0x2000 || m == 0x4000 || m == 0x6000) by (bit_vector)
        requires
            m == a & 0x6000u32,
    ;
    let c = csr_of(f);
    let rm = rounding_mode_of(f);
    assert(rm == m);
    if fz_set(f) {
        assert(c == rm + 0x8040);
    } else {
        assert(c == rm);
    }
    assert(c & 0x6000u32 == m && (c & 0x8000u32 == 0x8000u32) == (c >= 0x8000) && (c & 0x40u32
        == 0x40u32) == (c >= 0x8000)) by (bit_vector)
        requires
            m == 0 || m == 0x2000 || m == 0x4000 || m == 0x6000,
            c == m || c == m + 0x8040,
    ;
}

/// Writing back a word read from the register restores that reading, whatever
/// the register held in between.
pub proof fn law_csr_restore(saved: u64, fpcr: u64)
    ensures
        csr_of(with_csr(fpcr, csr_of(saved))) == csr_of(saved),
{
    let w = csr_of(saved);
    let rm = rounding_mode_of(saved);
    if fz_set(saved) {
        assert(w == rm + 0x8040);
    } else {
        assert(w == rm);
    }
    assert((w & 0x6000u32) == rm && ((w & 0x8000u32) != 0 || (w & 0x40u32) != 0) == (w >= 0x8000))
        by (bit_vector)
        requires
            rm == 0 || rm == 0x2000 || rm == 0x4000 || rm == 0x6000,
            w == rm || w == rm + 0x8040,
    ;
    law_rounding_mode_roundtrip(fpcr, rm);
    law_flush_zero_roundtrip(with_rmode(fpcr, rmode_for(rm)), csr_flush(w));
}

} // verus!
