//! x86 SSE-family SIMD intrinsics over plain lane values.
#![allow(non_camel_case_types)]
#![allow(non_upper_case_globals)]
#![allow(non_snake_case)]

pub mod constants;
pub mod types;
pub mod ieee;
pub mod fparith;
pub mod mmx;
pub mod mxcsr;
pub mod sse;
pub mod sse2;
pub mod sse3;
pub mod ssse3;
pub mod sse41;
pub mod sse42;

use vstd::prelude::*;

verus! {
} // verus!
