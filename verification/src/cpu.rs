//! CPU shares are `f32` percentages, carried as their bit patterns
//! (`f32::to_bits`). Comparing two of them follows IEEE 754, as `<` on `f32`
//! does: a NaN is unordered, and `-0.0` equals `0.0`.

use vstd::prelude::*;

verus! {

/// The bit pattern `b` is a NaN.
pub open spec fn f32_nan(b: u32) -> bool {
    (b & 0x7f80_0000u32) == 0x7f80_0000u32 && (b & 0x007f_ffffu32) != 0
}

/// A key that orders non-NaN bit patterns as their values are ordered: the
/// magnitude bits, negated for negative values.
pub open spec fn f32_key(b: u32) -> int {
    if (b & 0x8000_0000u32) != 0 {
        -((b & 0x7fff_ffffu32) as int)
    } else {
        (b & 0x7fff_ffffu32) as int
    }
}

/// The value with bits `a` is less than the value with bits `b`.
pub open spec fn f32_less(a: u32, b: u32) -> bool {
    !f32_nan(a) && !f32_nan(b) && f32_key(a) < f32_key(b)
}

fn is_nan(b: u32) -> (r: bool)
    ensures
        r == f32_nan(b),
{
    (b & 0x7f80_0000u32) == 0x7f80_0000u32 && (b & 0x007f_ffffu32) != 0
}

fn key(b: u32) -> (k: i64)
    ensures
        k as int == f32_key(b),
{
    let m = (b & 0x7fff_ffffu32) as i64;
    if (b & 0x8000_0000u32) != 0 {
        -m
    } else {
        m
    }
}

/// `a < b` on the values with bits `a` and `b`.
pub fn f32_lt(a: u32, b: u32) -> (r: bool)
    ensures
        r == f32_less(a, b),
{
    !is_nan(a) && !is_nan(b) && key(a) < key(b)
}

/// `a > b` on the values with bits `a` and `b`.
pub fn f32_gt(a: u32, b: u32) -> (r: bool)
    ensures
        r == f32_less(b, a),
{
    f32_lt(b, a)
}

} // verus!
