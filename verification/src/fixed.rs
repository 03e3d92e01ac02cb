//! Fixed-point arithmetic for the simulation core.
//!
//! Continuous quantities (positions in grid-cell units, angles in radians,
//! distances) are carried as `i64` values scaled by [`FP`]: the value `v`
//! stands for the real number `v / FP`. All of the core's geometry is done
//! in this representation, so every computation is verified exactly as it
//! executes.

use vstd::prelude::*;

verus! {

/// Number of fixed-point units per grid cell / per radian: a value `v`
/// stands for `v / FP` cells (or radians).
pub const FP: i64 = 65536;

/// One quarter turn (pi/2 radians) in fixed-point units.
pub const HALF_PI: i64 = 102944;

/// One half turn (pi radians) in fixed-point units.
pub const PI_FP: i64 = 205887;

/// One full turn (2*pi radians) in fixed-point units. Headings are kept in
/// the range `[0, TWO_PI)`.
pub const TWO_PI: i64 = 411775;

/// Sine of `t` on the first quadrant, by a fixed-point Taylor polynomial
/// `t - t^3/6 + t^5/120`, clamped into `[0, FP]`.
pub open spec fn spec_sin_quarter(t: int) -> int {
    let f = FP as int;
    let t2 = (t * t) / f;
    let t3 = (t2 * t) / f;
    let t5 = (((t3 * t) / f) * t) / f;
    let raw = t - t3 / 6 + t5 / 120;
    if raw < 0 {
        0
    } else if raw > FP {
        FP as int
    } else {
        raw
    }
}

/// Cosine of `t` on the first quadrant, by a fixed-point Taylor polynomial
/// `1 - t^2/2 + t^4/24 - t^6/720`, clamped into `[0, FP]`.
pub open spec fn spec_cos_quarter(t: int) -> int {
    let f = FP as int;
    let t2 = (t * t) / f;
    let t4 = ((t2 * t2) / f);
    let t6 = ((t4 * t2) / f);
    let raw = FP - t2 / 2 + t4 / 24 - t6 / 720;
    if raw < 0 {
        0
    } else if raw > FP {
        FP as int
    } else {
        raw
    }
}

/// An angle folded into `[0, TWO_PI)`, assuming it starts within one turn
/// of that range.
pub open spec fn spec_normalize_angle(a: int) -> int {
    if a < 0 {
        a + TWO_PI
    } else if a >= TWO_PI {
        a - TWO_PI
    } else {
        a
    }
}

/// Sine of an angle already folded into `[0, TWO_PI)`, by quadrant
/// reduction onto [`spec_sin_quarter`].
pub open spec fn spec_sin_folded(a: int) -> int {
    if a < HALF_PI {
        spec_sin_quarter(a)
    } else if a < PI_FP {
        spec_sin_quarter(PI_FP - a)
    } else if a < PI_FP + HALF_PI {
        -spec_sin_quarter(a - PI_FP)
    } else {
        -spec_sin_quarter(TWO_PI - a)
    }
}

/// Cosine of an angle already folded into `[0, TWO_PI)`.
pub open spec fn spec_cos_folded(a: int) -> int {
    if a < HALF_PI {
        spec_cos_quarter(a)
    } else if a < PI_FP {
        -spec_cos_quarter(PI_FP - a)
    } else if a < PI_FP + HALF_PI {
        -spec_cos_quarter(a - PI_FP)
    } else {
        spec_cos_quarter(TWO_PI - a)
    }
}

/// Sine of an angle within two turns of `[0, TWO_PI)`.
pub open spec fn spec_sin(a: int) -> int {
    spec_sin_folded(spec_normalize_angle(a))
}

/// Cosine of an angle within two turns of `[0, TWO_PI)`.
pub open spec fn spec_cos(a: int) -> int {
    spec_cos_folded(spec_normalize_angle(a))
}

/// Fixed-point product `a * b / FP`, truncated toward zero as the machine
/// division does; `b` is nonnegative.
pub open spec fn spec_scale(a: int, b: int) -> int {
    if a >= 0 {
        (a * b) / (FP as int)
    } else {
        -(((-a) * b) / (FP as int))
    }
}

/// Fixed-point multiplication: scales `a` by the fixed-point factor `b`.
pub fn fix_scale(a: i64, b: i64) -> (r: i64)
    requires
        -0x8000_0000 <= a <= 0x8000_0000,
        0 <= b <= 0x8000_0000,
    ensures
        r == spec_scale(a as int, b as int),
{
    proof {
        assert(0 <= (if a >= 0 { a as int } else { -(a as int) }) * b <= 0x8000_0000 * 0x8000_0000)
            by (nonlinear_arith)
            requires
                -0x8000_0000 <= a <= 0x8000_0000 && 0 <= b <= 0x8000_0000,
        ;
    }
    if a >= 0 {
        (a * b) / FP
    } else {
        -(((-a) * b) / FP)
    }
}

/// Folds an angle into `[0, TWO_PI)`.
pub fn normalize_angle(a: i64) -> (r: i64)
    requires
        -TWO_PI <= a < 2 * TWO_PI,
    ensures
        r == spec_normalize_angle(a as int),
        0 <= r < TWO_PI,
{
    if a < 0 {
        a + TWO_PI
    } else if a >= TWO_PI {
        a - TWO_PI
    } else {
        a
    }
}

fn sin_quarter(t: i64) -> (r: i64)
    requires
        0 <= t <= HALF_PI,
    ensures
        r == spec_sin_quarter(t as int),
        0 <= r <= FP,
{
    proof {
        assert(0 <= t * t <= 102944 * 102944) by (nonlinear_arith)
            requires
                0 <= t <= 102944,
        ;
    }
    let t2 = (t * t) / FP;
    proof {
        assert(0 <= t2 * t <= 161704 * 102944) by (nonlinear_arith)
            requires
                0 <= t2 <= 161704 && 0 <= t <= 102944,
        ;
    }
    let t3 = (t2 * t) / FP;
    proof {
        assert(0 <= t3 * t <= 254008 * 102944) by (nonlinear_arith)
            requires
                0 <= t3 <= 254008 && 0 <= t <= 102944,
        ;
    }
    let t5a = (t3 * t) / FP;
    proof {
        assert(0 <= t5a * t <= 399003 * 102944) by (nonlinear_arith)
            requires
                0 <= t5a <= 399003 && 0 <= t <= 102944,
        ;
    }
    let t5 = (t5a * t) / FP;
    let raw = t - t3 / 6 + t5 / 120;
    if raw < 0 {
        0
    } else if raw > FP {
        FP
    } else {
        raw
    }
}

fn cos_quarter(t: i64) -> (r: i64)
    requires
        0 <= t <= HALF_PI,
    ensures
        r == spec_cos_quarter(t as int),
        0 <= r <= FP,
{
    proof {
        assert(0 <= t * t <= 102944 * 102944) by (nonlinear_arith)
            requires
                0 <= t <= 102944,
        ;
    }
    let t2 = (t * t) / FP;
    proof {
        assert(0 <= t2 * t2 <= 161704 * 161704) by (nonlinear_arith)
            requires
                0 <= t2 <= 161704,
        ;
    }
    let t4 = (t2 * t2) / FP;
    proof {
        assert(0 <= t4 * t2 <= 399004 * 161704) by (nonlinear_arith)
            requires
                0 <= t4 <= 399004 && 0 <= t2 <= 161704,
        ;
    }
    let t6 = (t4 * t2) / FP;
    let raw = FP - t2 / 2 + t4 / 24 - t6 / 720;
    if raw < 0 {
        0
    } else if raw > FP {
        FP
    } else {
        raw
    }
}

/// Fixed-point sine. Accepts any angle within two turns of `[0, TWO_PI)`,
/// as produced by heading arithmetic and the render column sweep.
pub fn sin_fix(a: i64) -> (r: i64)
    requires
        -TWO_PI <= a < 2 * TWO_PI,
    ensures
        r == spec_sin(a as int),
        -FP <= r <= FP,
{
    let f = normalize_angle(a);
    if f < HALF_PI {
        sin_quarter(f)
    } else if f < PI_FP {
        sin_quarter(PI_FP - f)
    } else if f < PI_FP + HALF_PI {
        -sin_quarter(f - PI_FP)
    } else {
        -sin_quarter(TWO_PI - f)
    }
}

/// Fixed-point cosine. Accepts any angle within two turns of `[0, TWO_PI)`.
pub fn cos_fix(a: i64) -> (r: i64)
    requires
        -TWO_PI <= a < 2 * TWO_PI,
    ensures
        r == spec_cos(a as int),
        -FP <= r <= FP,
{
    let f = normalize_angle(a);
    if f < HALF_PI {
        cos_quarter(f)
    } else if f < PI_FP {
        -cos_quarter(PI_FP - f)
    } else if f < PI_FP + HALF_PI {
        -cos_quarter(f - PI_FP)
    } else {
        cos_quarter(TWO_PI - f)
    }
}

} // verus!
