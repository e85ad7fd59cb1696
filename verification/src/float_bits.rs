//! Floating-point values carried as their IEEE-754 bit patterns.
//!
//! The library never computes with floats; where a value of the Studio or
//! COCO data model is a float, it holds the value's `to_bits()` pattern and
//! decides comparisons on the bits exactly as the float comparison would.

use vstd::prelude::*;

verus! {

/// Bit pattern of the largest magnitude that is not a NaN (infinity).
pub const F64_INFINITY_MAGNITUDE: u64 = 0x7ff0_0000_0000_0000u64;

/// Whether the `f64` with bit pattern `b` compares `<= 0.0`: a zero of either
/// sign, or a negative number or negative infinity. NaNs compare false.
pub open spec fn f64_bits_le_zero(b: u64) -> bool {
    let magnitude = b % 0x8000_0000_0000_0000;
    let negative = b >= 0x8000_0000_0000_0000;
    magnitude == 0 || (negative && magnitude <= 0x7ff0_0000_0000_0000)
}

/// Decides `f64::from_bits(b) <= 0.0`.
pub fn f64_le_zero(b: u64) -> (r: bool)
    ensures
        r == f64_bits_le_zero(b),
{
    let negative = b >= 0x8000_0000_0000_0000u64;
    let magnitude = if negative { b - 0x8000_0000_0000_0000u64 } else { b };
    magnitude == 0 || (negative && magnitude <= F64_INFINITY_MAGNITUDE)
}

/// Whether the `f32` with bit pattern `b` is a NaN.
pub open spec fn f32_bits_is_nan(b: u32) -> bool {
    b % 0x8000_0000 > 0x7f80_0000
}

/// Decides `f32::from_bits(b).is_nan()`.
pub fn f32_is_nan(b: u32) -> (r: bool)
    ensures
        r == f32_bits_is_nan(b),
{
    let magnitude = if b >= 0x8000_0000u32 { b - 0x8000_0000u32 } else { b };
    magnitude > 0x7f80_0000u32
}

} // verus!
