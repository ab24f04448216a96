//! Fixed-point numeric core.
//!
//! Numeric values are stored as a signed count of millionths (`i64`), so the
//! number `4.5` is held as `4_500_000`.  All arithmetic saturates at the `i64`
//! range instead of overflowing; division truncates toward zero, as machine
//! division does.

use vstd::prelude::*;

verus! {

/// Fixed-point units per one: numeric values count millionths.
pub const SCALE: i64 = 1_000_000;

pub open spec fn abs_int(x: int) -> int {
    if x < 0 {
        -x
    } else {
        x
    }
}

/// Saturate an unbounded integer into the `i64` range.
pub open spec fn clip(x: int) -> int {
    if x > i64::MAX {
        i64::MAX as int
    } else if x < i64::MIN {
        i64::MIN as int
    } else {
        x
    }
}

/// Division that truncates toward zero, as the machine's `/` does.
pub open spec fn tdiv(a: int, b: int) -> int
    recommends
        b != 0,
{
    if (a < 0) <==> (b < 0) {
        abs_int(a) / abs_int(b)
    } else {
        -(abs_int(a) / abs_int(b))
    }
}

/// Saturating fixed-point addition.
pub open spec fn spec_num_add(a: int, b: int) -> int {
    clip(a + b)
}

/// Saturating fixed-point subtraction.
pub open spec fn spec_num_sub(a: int, b: int) -> int {
    clip(a - b)
}

/// Saturating fixed-point multiplication: the exact product is rescaled with
/// truncation toward zero, then clipped.
pub open spec fn spec_num_mul(a: int, b: int) -> int {
    clip(tdiv(a * b, SCALE as int))
}

/// Saturating fixed-point division by a non-zero divisor.
pub open spec fn spec_num_div(a: int, b: int) -> int
    recommends
        b != 0,
{
    clip(tdiv(a * (SCALE as int), b))
}

pub fn num_add(a: i64, b: i64) -> (r: i64)
    ensures
        r as int == spec_num_add(a as int, b as int),
{
    match a.checked_add(b) {
        Some(v) => v,
        None => {
            if a >= 0 {
                i64::MAX
            } else {
                i64::MIN
            }
        },
    }
}

pub fn num_sub(a: i64, b: i64) -> (r: i64)
    ensures
        r as int == spec_num_sub(a as int, b as int),
{
    match a.checked_sub(b) {
        Some(v) => v,
        None => {
            if a >= 0 {
                i64::MAX
            } else {
                i64::MIN
            }
        },
    }
}

/// Reattach a sign to a non-negative quotient, clipping into the `i64` range.
pub(crate) fn clip_signed(q: u128, neg: bool) -> (r: i64)
    ensures
        r as int == clip(
            if neg {
                -(q as int)
            } else {
                q as int
            },
        ),
{
    if neg {
        if q >= 9_223_372_036_854_775_808u128 {
            i64::MIN
        } else {
            -(q as i64)
        }
    } else {
        if q > i64::MAX as u128 {
            i64::MAX
        } else {
            q as i64
        }
    }
}

pub fn num_mul(a: i64, b: i64) -> (r: i64)
    ensures
        r as int == spec_num_mul(a as int, b as int),
{
    proof {
        assert((a as int) * (b as int) <= 0x4000_0000_0000_0000_0000_0000_0000_0000 && (a as int)
            * (b as int) >= -0x4000_0000_0000_0000_0000_0000_0000_0000) by (nonlinear_arith)
            requires
                -0x8000_0000_0000_0000 <= a as int <= 0x7fff_ffff_ffff_ffff,
                -0x8000_0000_0000_0000 <= b as int <= 0x7fff_ffff_ffff_ffff,
        ;
    }
    let p: i128 = (a as i128) * (b as i128);
    let neg: bool = p < 0;
    let m: u128 = if p >= 0 {
        p as u128
    } else {
        (-p) as u128
    };
    let q: u128 = m / (SCALE as u128);
    clip_signed(q, neg)
}

/// Fixed-point division; the divisor must not be zero.
pub fn num_div(a: i64, b: i64) -> (r: i64)
    requires
        b != 0,
    ensures
        r as int == spec_num_div(a as int, b as int),
{
    proof {
        assert((a as int) * (SCALE as int) <= 0x4000_0000_0000_0000_0000_0000_0000_0000 && (
        a as int) * (SCALE as int) >= -0x4000_0000_0000_0000_0000_0000_0000_0000)
            by (nonlinear_arith)
            requires
                -0x8000_0000_0000_0000 <= a as int <= 0x7fff_ffff_ffff_ffff,
                SCALE as int == 1_000_000,
        ;
    }
    let p: i128 = (a as i128) * (SCALE as i128);
    let neg: bool = (p < 0) != (b < 0);
    let m: u128 = if p >= 0 {
        p as u128
    } else {
        (-p) as u128
    };
    let d: u128 = if b >= 0 {
        b as u128
    } else {
        (-(b as i128)) as u128
    };
    let q: u128 = m / d;
    clip_signed(q, neg)
}

} // verus!
