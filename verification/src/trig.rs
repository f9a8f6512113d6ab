//! Angles, and the few functions of them that the plane needs, in whole
//! numbers.
//!
//! An angle is held in millionths of a radian. Sine and arc tangent are
//! rational approximations, stated here as what they compute: the sine
//! after Bhaskara, exact at the multiples of a quarter turn, and the arc
//! tangent of a slope `z` of at most one as `z * (pi / 4 + 0.273 * (1 - z))`.

use vstd::prelude::*;

use crate::fixed::{floor_div, SCALE};

verus! {

/// Half a turn, pi.
pub const HALF_TURN: i32 = 3_141_593;

/// A full turn, twice [`HALF_TURN`].
pub const FULL_TURN: i32 = 6_283_186;

/// A quarter of a turn.
pub const QUARTER_TURN: i32 = 1_570_796;

/// An eighth of a turn.
pub const EIGHTH_TURN: i32 = 785_398;

/// How far the arc of a slope bends away from the straight line between its
/// ends: `0.273`.
pub const ARC_BEND: i32 = 273_000;

/// The angle brought into `[-HALF_TURN, HALF_TURN)` by whole turns.
pub open spec fn normal(angle: int) -> int {
    (angle + HALF_TURN) % (FULL_TURN as int) - HALF_TURN
}

/// The sine of an angle between zero and half a turn.
pub open spec fn half_wave(angle: int) -> int {
    (16 * (angle * (HALF_TURN - angle)) * SCALE) / (5 * (HALF_TURN * HALF_TURN) - 4 * (angle * (
    HALF_TURN - angle)))
}

/// The sine of an angle between minus half a turn and half a turn.
pub open spec fn sine_of(angle: int) -> int {
    if angle >= 0 {
        half_wave(angle)
    } else {
        -half_wave(-angle)
    }
}

/// The cosine of an angle: the sine a quarter turn further.
pub open spec fn cosine_of(angle: int) -> int {
    sine_of(normal(angle + QUARTER_TURN))
}

/// The angle whose tangent is `minor / major`, where `0 <= minor <= major`
/// and `major > 0`: between zero and an eighth of a turn.
pub open spec fn arc_of_slope(minor: int, major: int) -> int {
    let slope = (minor * SCALE) / major;
    (slope * EIGHTH_TURN + (ARC_BEND * (slope * (SCALE - slope))) / (SCALE as int)) / (SCALE as int)
}

/// The size of a number.
pub open spec fn magnitude(value: int) -> int {
    if value < 0 {
        -value
    } else {
        value
    }
}

/// The angle between the positive first axis and the direction
/// `(along, across)`, within a quarter turn, from the sizes of the two.
pub open spec fn quarter_arc(along: int, across: int) -> int {
    if across <= along {
        arc_of_slope(across, along)
    } else {
        QUARTER_TURN - arc_of_slope(along, across)
    }
}

/// The angle from the positive first axis to the direction
/// `(along, across)`, between minus half a turn and half a turn. The
/// direction `(0, 0)` has the angle zero.
pub open spec fn arc_tangent(across: int, along: int) -> int {
    if along == 0 && across == 0 {
        0
    } else {
        let arc = quarter_arc(magnitude(along), magnitude(across));
        if along >= 0 && across >= 0 {
            arc
        } else if along < 0 && across >= 0 {
            HALF_TURN - arc
        } else if along < 0 {
            arc - HALF_TURN
        } else {
            -arc
        }
    }
}

/// `root` is the greatest whole number whose square is at most `value`.
pub open spec fn is_root(value: int, root: int) -> bool {
    0 <= root && root * root <= value < (root + 1) * (root + 1)
}

/// The whole part of the square root.
pub open spec fn root_of(value: int) -> int {
    choose|root: int| is_root(value, root)
}

/// A number has one whole root only.
pub proof fn lemma_root_unique(value: int, a: int, b: int)
    requires
        is_root(value, a),
        is_root(value, b),
    ensures
        a == b,
{
    if a < b {
        assert((a + 1) * (a + 1) <= b * b) by (nonlinear_arith)
            requires
                0 <= a,
                a + 1 <= b,
        ;
    } else if b < a {
        assert((b + 1) * (b + 1) <= a * a) by (nonlinear_arith)
            requires
                0 <= b,
                b + 1 <= a,
        ;
    }
}

/// A quotient whose dividend is between zero and a multiple of the divisor
/// is between zero and the multiplier.
pub proof fn lemma_quotient_bounds(dividend: int, divisor: int, most: int)
    requires
        divisor > 0,
        0 <= dividend <= divisor * most,
    ensures
        0 <= dividend / divisor <= most,
{
    vstd::arithmetic::div_mod::lemma_fundamental_div_mod(dividend, divisor);
    vstd::arithmetic::div_mod::lemma_mod_bound(dividend, divisor);
    let q = dividend / divisor;
    let r = dividend % divisor;
    assert(0 <= q <= most) by (nonlinear_arith)
        requires
            divisor > 0,
            0 <= dividend <= divisor * most,
            dividend == divisor * q + r,
            0 <= r < divisor,
    ;
}

/// The sine of an angle between zero and half a turn lies between zero and
/// one.
pub proof fn lemma_half_wave_bounds(angle: int)
    requires
        0 <= angle <= HALF_TURN,
    ensures
        0 <= half_wave(angle) <= SCALE,
        0 <= angle * (HALF_TURN - angle),
        4 * (angle * (HALF_TURN - angle)) <= HALF_TURN * HALF_TURN,
{
    let h = HALF_TURN as int;
    let p = angle * (h - angle);
    assert(0 <= p) by (nonlinear_arith)
        requires
            0 <= angle <= h,
            p == angle * (h - angle),
    ;
    assert(4 * p <= h * h) by (nonlinear_arith)
        requires
            p == angle * (h - angle),
    ;
    let divisor = 5 * (h * h) - 4 * p;
    assert(divisor > 0);
    let s = SCALE as int;
    assert(0 <= 16 * p * s <= divisor * s) by (nonlinear_arith)
        requires
            0 <= p,
            4 * p <= h * h,
            divisor == 5 * (h * h) - 4 * p,
            s == 1_000_000,
    ;
    lemma_quotient_bounds(16 * p * s, divisor, s);
}

/// The arc of a slope of at most one lies between zero and an eighth of a
/// turn.
pub proof fn lemma_arc_bounds(minor: int, major: int)
    requires
        0 <= minor <= major,
        major > 0,
    ensures
        0 <= (minor * SCALE) / major <= SCALE,
        0 <= arc_of_slope(minor, major) <= EIGHTH_TURN,
{
    let s = SCALE as int;
    assert(0 <= minor * s <= major * s) by (nonlinear_arith)
        requires
            0 <= minor <= major,
            s == 1_000_000,
    ;
    lemma_quotient_bounds(minor * s, major, s);
    let z = (minor * s) / major;
    let bend = ARC_BEND as int;
    let eighth = EIGHTH_TURN as int;
    let curve = bend * (z * (s - z));
    assert(0 <= curve <= s * (eighth * (s - z))) by (nonlinear_arith)
        requires
            0 <= z <= s,
            s == 1_000_000,
            bend == 273_000,
            eighth == 785_398,
            curve == bend * (z * (s - z)),
    ;
    lemma_quotient_bounds(curve, s, eighth * (s - z));
    let bent = curve / s;
    assert(0 <= z * eighth + bent <= s * eighth) by (nonlinear_arith)
        requires
            0 <= z <= s,
            0 <= bent <= eighth * (s - z),
            eighth == 785_398,
    ;
    lemma_quotient_bounds(z * eighth + bent, s, eighth);
}

/// Brings an angle into `[-HALF_TURN, HALF_TURN)`.
pub fn normalize(angle: i64) -> (inside: i32)
    ensures
        inside == normal(angle as int),
        -HALF_TURN <= inside < HALF_TURN,
{
    let shifted: i128 = angle as i128 + HALF_TURN as i128;
    let turns: i128 = floor_div(shifted, FULL_TURN as i128);
    proof {
        vstd::arithmetic::div_mod::lemma_fundamental_div_mod(shifted as int, FULL_TURN as int);
        vstd::arithmetic::div_mod::lemma_mod_bound(shifted as int, FULL_TURN as int);
        assert(-0x1_0000_0000_0000_0000 <= turns * FULL_TURN <= 0x1_0000_0000_0000_0000)
            by (nonlinear_arith)
            requires
                shifted == FULL_TURN * turns + (shifted as int) % (FULL_TURN as int),
                0 <= (shifted as int) % (FULL_TURN as int) < FULL_TURN,
                -0x9000_0000_0000_0000 <= shifted <= 0x9000_0000_0000_0000,
        ;
    }
    let rest: i128 = shifted - turns * FULL_TURN as i128;
    (rest - HALF_TURN as i128) as i32
}

/// The sine of an angle, in millionths.
pub fn sine(angle: i32) -> (value: i32)
    requires
        -HALF_TURN <= angle <= HALF_TURN,
    ensures
        value == sine_of(angle as int),
        -SCALE <= value <= SCALE,
{
    let size: i128 = if angle >= 0 {
        angle as i128
    } else {
        -(angle as i128)
    };
    proof {
        lemma_half_wave_bounds(size as int);
    }
    let half: i128 = HALF_TURN as i128;
    let product: i128 = size * (half - size);
    assert(half * half == 9_869_606_577_649) by (nonlinear_arith)
        requires
            half == 3_141_593,
    ;
    let divisor: i128 = 5 * (half * half) - 4 * product;
    assert(16 * product * 1_000_000 <= 4 * 9_869_606_577_649 * 1_000_000);
    let wave: i128 = (16 * product * SCALE as i128) / divisor;
    if angle >= 0 {
        wave as i32
    } else {
        (-wave) as i32
    }
}

/// The cosine of an angle, in millionths.
pub fn cosine(angle: i32) -> (value: i32)
    ensures
        value == cosine_of(angle as int),
        -SCALE <= value <= SCALE,
{
    sine(normalize(angle as i64 + QUARTER_TURN as i64))
}

/// The arc of a slope of at most one.
fn arc(minor: i64, major: i64) -> (angle: i32)
    requires
        0 <= minor <= major,
        0 < major <= 0x1_0000_0000,
    ensures
        angle == arc_of_slope(minor as int, major as int),
        0 <= angle <= EIGHTH_TURN,
{
    proof {
        lemma_arc_bounds(minor as int, major as int);
    }
    let slope: i128 = (minor as i128 * SCALE as i128) / major as i128;
    let curve: i128 = ARC_BEND as i128 * (slope * (SCALE as i128 - slope));
    assert(0 <= slope * (1_000_000 - slope) <= 1_000_000 * 1_000_000) by (nonlinear_arith)
        requires
            0 <= slope <= 1_000_000,
    ;
    ((slope * EIGHTH_TURN as i128 + curve / SCALE as i128) / SCALE as i128) as i32
}

/// The angle from the positive first axis to the direction
/// `(along, across)`.
pub fn arc_tangent2(across: i64, along: i64) -> (angle: i32)
    requires
        -0x1_0000_0000 <= across <= 0x1_0000_0000,
        -0x1_0000_0000 <= along <= 0x1_0000_0000,
    ensures
        angle == arc_tangent(across as int, along as int),
        -HALF_TURN <= angle <= HALF_TURN,
{
    if along == 0 && across == 0 {
        return 0;
    }
    let run: i64 = if along < 0 {
        -along
    } else {
        along
    };
    let rise: i64 = if across < 0 {
        -across
    } else {
        across
    };
    let quarter: i32 = if rise <= run {
        arc(rise, run)
    } else {
        QUARTER_TURN - arc(run, rise)
    };
    if along >= 0 && across >= 0 {
        quarter
    } else if along < 0 && across >= 0 {
        HALF_TURN - quarter
    } else if along < 0 {
        quarter - HALF_TURN
    } else {
        -quarter
    }
}

/// The whole part of the square root.
pub fn whole_root(value: u64) -> (root: u64)
    ensures
        is_root(value as int, root as int),
        root == root_of(value as int),
        root < 0x1_0000_0000,
{
    let mut low: u64 = 0;
    let mut high: u64 = 0x1_0000_0000;
    assert(0x1_0000_0000 * 0x1_0000_0000 > value) by (nonlinear_arith)
        requires
            value < 0x1_0000_0000_0000_0000,
    ;
    while high - low > 1
        invariant
            low < high <= 0x1_0000_0000,
            low * low <= value < high * high,
        decreases high - low,
    {
        let middle: u64 = low + (high - low) / 2;
        assert(middle * middle < 0x1_0000_0000 * 0x1_0000_0000) by (nonlinear_arith)
            requires
                0 <= middle < 0x1_0000_0000,
        ;
        if middle as u128 * middle as u128 <= value as u128 {
            low = middle;
        } else {
            high = middle;
        }
    }
    proof {
        let found = choose|root: int| is_root(value as int, root);
        assert(is_root(value as int, low as int));
        lemma_root_unique(value as int, low as int, found);
    }
    low
}

} // verus!
