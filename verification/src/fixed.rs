//! Decimal fixed-point numbers.
//!
//! Every real quantity of this crate (a weight, a bias, a score, a
//! probability) is an `i64` that counts millionths: `UNIT` stands for one.
//! The operations saturate at the ends of `i64` and round towards zero.
use vstd::prelude::*;

verus! {

/// The fixed-point number one.
pub const UNIT: i64 = 1_000_000;

/// The `i64` nearest to `x`.
pub open spec fn sat(x: int) -> i64 {
    if x > i64::MAX {
        i64::MAX
    } else if x < i64::MIN {
        i64::MIN
    } else {
        x as i64
    }
}

/// The distance of `x` from zero.
pub open spec fn magnitude(x: int) -> int {
    if x < 0 {
        -x
    } else {
        x
    }
}

/// The quotient of `a` by `b`, rounded towards zero.
pub open spec fn tquot(a: int, b: int) -> int
    recommends
        b != 0,
{
    if (a >= 0) == (b > 0) {
        magnitude(a) / magnitude(b)
    } else {
        -(magnitude(a) / magnitude(b))
    }
}

/// The fixed-point product of `a` and `b`.
pub open spec fn fx_mul_spec(a: i64, b: i64) -> i64 {
    sat(tquot(a * b, UNIT as int))
}

/// The fixed-point quotient of `a` by `b`.
pub open spec fn fx_div_spec(a: i64, b: i64) -> i64
    recommends
        b != 0,
{
    sat(tquot(a * UNIT, b as int))
}

/// `x` cut down to an `i64`.
pub fn saturate(x: i128) -> (r: i64)
    ensures
        r == sat(x as int),
{
    if x > i64::MAX as i128 {
        i64::MAX
    } else if x < i64::MIN as i128 {
        i64::MIN
    } else {
        x as i64
    }
}

/// The magnitude of `x` as an unsigned number.
pub fn magnitude_of(x: i128) -> (r: u128)
    requires
        x > i128::MIN,
    ensures
        r == magnitude(x as int),
{
    if x < 0 {
        (-x) as u128
    } else {
        x as u128
    }
}

/// Division rounded towards zero, cut down to an `i64`.
pub fn quotient(a: i128, b: i128) -> (r: i64)
    requires
        b != 0,
        a > i128::MIN,
        b > i128::MIN,
    ensures
        r == sat(tquot(a as int, b as int)),
{
    let ma: u128 = magnitude_of(a);
    let mb: u128 = magnitude_of(b);
    let q: u128 = ma / mb;
    assert(q <= ma) by (nonlinear_arith)
        requires
            q == ma / mb,
            mb >= 1,
    ;
    if (a >= 0) == (b > 0) {
        if q > i64::MAX as u128 {
            i64::MAX
        } else {
            q as i64
        }
    } else {
        if q > i64::MAX as u128 {
            i64::MIN
        } else {
            -(q as i64)
        }
    }
}

/// Saturating sum.
pub fn fx_add(a: i64, b: i64) -> (r: i64)
    ensures
        r == sat(a + b),
{
    saturate(a as i128 + b as i128)
}

/// Saturating difference.
pub fn fx_sub(a: i64, b: i64) -> (r: i64)
    ensures
        r == sat(a - b),
{
    saturate(a as i128 - b as i128)
}

/// The product of two `i64`, which always fits an `i128`.
pub fn wide_product(a: i64, b: i64) -> (r: i128)
    ensures
        r == a * b,
        -0x4000_0000_0000_0000_0000_0000_0000_0000 <= r <= 0x4000_0000_0000_0000_0000_0000_0000_0000,
{
    assert(-0x4000_0000_0000_0000_0000_0000_0000_0000 <= a * b
        <= 0x4000_0000_0000_0000_0000_0000_0000_0000) by (nonlinear_arith)
        requires
            -0x8000_0000_0000_0000 <= a <= 0x7fff_ffff_ffff_ffff,
            -0x8000_0000_0000_0000 <= b <= 0x7fff_ffff_ffff_ffff,
    ;
    (a as i128) * (b as i128)
}

/// Fixed-point product.
pub fn fx_mul(a: i64, b: i64) -> (r: i64)
    ensures
        r == fx_mul_spec(a, b),
{
    quotient(wide_product(a, b), UNIT as i128)
}

/// Fixed-point quotient.
pub fn fx_div(a: i64, b: i64) -> (r: i64)
    requires
        b != 0,
    ensures
        r == fx_div_spec(a, b),
{
    quotient(wide_product(a, UNIT), b as i128)
}

} // verus!
