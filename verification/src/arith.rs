//! Saturating arithmetic used throughout the accounting pipeline.
//!
//! Cumulative counters are sums of driver-reported values; rather than
//! rejecting inputs whose sums do not fit the machine word, every addition
//! saturates at the type's maximum and every subtraction floors at zero, and
//! the contracts say so exactly.

use vstd::prelude::*;

verus! {

/// `a + b`, saturating at `u128::MAX`.
pub open spec fn sat_add_u128(a: u128, b: u128) -> u128 {
    if a + b > u128::MAX {
        u128::MAX
    } else {
        (a + b) as u128
    }
}

/// `a + b`, saturating at `u64::MAX`.
pub open spec fn sat_add_u64(a: u64, b: u64) -> u64 {
    if a + b > u64::MAX {
        u64::MAX
    } else {
        (a + b) as u64
    }
}

/// `a - b`, floored at zero.
pub open spec fn sat_sub_u128(a: u128, b: u128) -> u128 {
    if a >= b {
        (a - b) as u128
    } else {
        0
    }
}

/// `a - b`, floored at zero.
pub open spec fn sat_sub_u64(a: u64, b: u64) -> u64 {
    if a >= b {
        (a - b) as u64
    } else {
        0
    }
}

pub fn add_sat_u128(a: u128, b: u128) -> (r: u128)
    ensures
        r == sat_add_u128(a, b),
{
    if a <= u128::MAX - b {
        a + b
    } else {
        u128::MAX
    }
}

pub fn add_sat_u64(a: u64, b: u64) -> (r: u64)
    ensures
        r == sat_add_u64(a, b),
{
    if a <= u64::MAX - b {
        a + b
    } else {
        u64::MAX
    }
}

pub fn sub_sat_u128(a: u128, b: u128) -> (r: u128)
    ensures
        r == sat_sub_u128(a, b),
{
    if a >= b {
        a - b
    } else {
        0
    }
}

pub fn sub_sat_u64(a: u64, b: u64) -> (r: u64)
    ensures
        r == sat_sub_u64(a, b),
{
    if a >= b {
        a - b
    } else {
        0
    }
}

} // verus!
