//! Floor division and floor remainder for the signed coordinates.

use vstd::prelude::*;

verus! {

/// Whether a mathematical integer is a value of `i32`.
pub open spec fn fits_i32(v: int) -> bool {
    i32::MIN <= v <= i32::MAX
}

/// The quotient `a / d` rounded towards negative infinity.
pub fn div_floor(a: i64, d: i64) -> (r: i64)
    requires
        d > 0,
    ensures
        r == a as int / d as int,
{
    assert(i64::MIN <= a as int / d as int <= i64::MAX) by (nonlinear_arith)
        requires
            d > 0,
    ;
    match a.checked_div_euclid(d) {
        Some(q) => q,
        None => 0,
    }
}

/// The remainder that goes with [`div_floor`], in `0..d`.
pub fn mod_floor(a: i64, d: i64) -> (r: i64)
    requires
        d > 0,
    ensures
        r == a as int % d as int,
        0 <= r < d,
{
    match a.checked_rem_euclid(d) {
        Some(m) => m,
        None => 0,
    }
}

} // verus!
