//! Fixed-point arithmetic in millionths.
//!
//! A weight of `0.3` is the integer `300_000`; products of two such values
//! are divided by [`SCALE`] again, rounding toward negative infinity.

use vstd::prelude::*;

verus! {

/// The integer that stands for `1.0`.
pub const SCALE: i64 = 1_000_000;

/// `x`, moved to the nearest value of `low ..= high`.
pub open spec fn clamp(x: int, low: int, high: int) -> int {
    if x < low {
        low
    } else if x > high {
        high
    } else {
        x
    }
}

/// `x`, moved to the nearest value that 32 bits hold.
pub open spec fn clamp_i32(x: int) -> int {
    clamp(x, i32::MIN as int, i32::MAX as int)
}

/// `x`, moved to the nearest value that 64 bits hold.
pub open spec fn clamp_i64(x: int) -> int {
    clamp(x, i64::MIN as int, i64::MAX as int)
}

/// The product of two fixed-point values, as a fixed-point value, before any
/// saturation.
pub open spec fn mul_scaled(a: int, b: int) -> int {
    (a * b) / (SCALE as int)
}

pub fn saturate_i32(x: i128) -> (r: i32)
    ensures
        r == clamp_i32(x as int),
{
    if x < i32::MIN as i128 {
        i32::MIN
    } else if x > i32::MAX as i128 {
        i32::MAX
    } else {
        x as i32
    }
}

pub fn saturate_i64(x: i128) -> (r: i64)
    ensures
        r == clamp_i64(x as int),
{
    if x < i64::MIN as i128 {
        i64::MIN
    } else if x > i64::MAX as i128 {
        i64::MAX
    } else {
        x as i64
    }
}

/// Sum of two 64-bit values that stops at the ends of the 64-bit range.
pub fn add_saturating(a: i64, b: i64) -> (r: i64)
    ensures
        r == clamp_i64(a + b),
{
    saturate_i64(a as i128 + b as i128)
}

/// Quotient rounded toward negative infinity.
pub fn floor_div(a: i128, b: i128) -> (q: i128)
    requires
        b > 0,
        a > i128::MIN,
    ensures
        q == a as int / b as int,
{
    if a >= 0 {
        a / b
    } else {
        let n: i128 = -a;
        let q: i128 = n / b;
        let r: i128 = n % b;
        proof {
            lemma_floor_of_negative(n as int, b as int);
        }
        if r == 0 {
            -q
        } else {
            -q - 1
        }
    }
}

/// How the floor quotient of `-n` follows from quotient and remainder of `n`.
pub proof fn lemma_floor_of_negative(n: int, b: int)
    requires
        n > 0,
        b > 0,
    ensures
        n % b == 0 ==> (-n) / b == -(n / b),
        n % b != 0 ==> (-n) / b == -(n / b) - 1,
{
    let q = n / b;
    let r = n % b;
    assert(n == b * q + r) by {
        vstd::arithmetic::div_mod::lemma_fundamental_div_mod(n, b);
    }
    assert(0 <= r < b) by {
        vstd::arithmetic::div_mod::lemma_mod_bound(n, b);
    }
    if r == 0 {
        assert(-n == b * (-q) + 0) by (nonlinear_arith)
            requires
                n == b * q + r,
                r == 0,
        ;
        vstd::arithmetic::div_mod::lemma_fundamental_div_mod_converse(-n, b, -q, 0);
    } else {
        assert(-n == b * (-q - 1) + (b - r)) by (nonlinear_arith)
            requires
                n == b * q + r,
        ;
        vstd::arithmetic::div_mod::lemma_fundamental_div_mod_converse(-n, b, -q - 1, b - r);
    }
}

/// Exact product of two 32-bit values.
pub fn mul_i32(a: i32, b: i32) -> (p: i64)
    ensures
        p == a as int * b as int,
        -0x4000_0000_0000_0000 <= p <= 0x4000_0000_0000_0000,
{
    assert(-0x4000_0000_0000_0000 <= a as int * b as int <= 0x4000_0000_0000_0000)
        by (nonlinear_arith)
        requires
            -0x8000_0000 <= a as int <= 0x7fff_ffff,
            -0x8000_0000 <= b as int <= 0x7fff_ffff,
    ;
    (a as i64) * (b as i64)
}

} // verus!
