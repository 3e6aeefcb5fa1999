//! Easing curves over fixed-point progress.
//!
//! Progress and eased progress are measured in micro-units: `SCALE`
//! (one million) stands for 1.0. All curve formulas are evaluated in exact
//! integer arithmetic; the sine curve uses a fixed-point polynomial
//! approximation that is exact at 0, 1/2 and 1.

use vstd::prelude::*;

verus! {

/// Fixed-point unit: this many micro-units stand for a progress of 1.0.
pub const SCALE: u64 = 1_000_000;

/// Pi in micro-radians, rounded to the nearest micro-unit.
pub const PI_MICRO: u64 = 3_141_593;

/// A recognized easing curve.
#[derive(Clone, Copy, Debug, PartialEq, Eq, Structural)]
pub enum Easing {
    Linear,
    EaseIn,
    EaseOut,
    EaseInOut,
    Sine,
    Smooth,
    Smoother,
    Bezier { x1: i64, y1: i64, x2: i64, y2: i64 },
}

/// Largest accepted magnitude of a Bézier control-point component, in
/// micro-units (10.0). The bound keeps the fixed-point solver's
/// arithmetic in range; a descriptor with a larger component is treated
/// as malformed and eases linearly.
pub const CTRL_LIMIT: i64 = 10_000_000;

/// A curve whose parameters are within the accepted range.
pub open spec fn easing_wf(e: Easing) -> bool {
    match e {
        Easing::Bezier { x1, y1, x2, y2 } => -(CTRL_LIMIT as int) <= x1 <= CTRL_LIMIT as int
            && -(CTRL_LIMIT as int) <= y1 <= CTRL_LIMIT as int && -(CTRL_LIMIT as int) <= x2
            <= CTRL_LIMIT as int && -(CTRL_LIMIT as int) <= y2 <= CTRL_LIMIT as int,
        _ => true,
    }
}

/// Quadratic ease-in: t^2.
pub open spec fn ease_in_micro(t: int) -> int {
    (t * t) / (SCALE as int)
}

/// Quadratic ease-out: t * (2 - t).
pub open spec fn ease_out_micro(t: int) -> int {
    (t * (2 * (SCALE as int) - t)) / (SCALE as int)
}

/// Piecewise quadratic ease-in-out: 2t^2 below the midpoint,
/// (4 - 2t) * t - 1 at and above it.
pub open spec fn ease_in_out_micro(t: int) -> int {
    let s = SCALE as int;
    if 2 * t < s {
        (2 * t * t) / s
    } else {
        ((4 * s - 2 * t) * t) / s - s
    }
}

/// Cubic smoothstep: t^2 * (3 - 2t).
pub open spec fn smooth_micro(t: int) -> int {
    let s = SCALE as int;
    (t * t * (3 * s - 2 * t)) / (s * s)
}

/// Quintic smootherstep: t^3 * (6t^2 - 15t + 10).
pub open spec fn smoother_micro(t: int) -> int {
    let s = SCALE as int;
    (t * t * t * (6 * t * t - 15 * t * s + 10 * s * s)) / (s * s * s * s)
}

/// Half-range core of the sine curve: sin^2(pi*t/2) for t at or below the
/// midpoint, via a degree-7 Taylor polynomial of sin, clamped to 1/2.
pub open spec fn sine_core_micro(t: int) -> int {
    let s = SCALE as int;
    let y = ((PI_MICRO as int) * t) / (2 * s);
    let y2 = (y * y) / s;
    let y4 = (y2 * y2) / s;
    let y6 = (y4 * y2) / s;
    let p = s - y2 / 6 + y4 / 120 - y6 / 5040;
    let sn = (y * p) / s;
    let r = (sn * sn) / s;
    if r > s / 2 {
        s / 2
    } else {
        r
    }
}

/// Sinusoidal curve (1 - cos(pi*t)) / 2, built from `sine_core_micro` by the
/// symmetry f(1 - t) = 1 - f(t); exact at 0, 1/2 and 1.
pub open spec fn sine_micro(t: int) -> int {
    let s = SCALE as int;
    if t == s / 2 {
        s / 2
    } else if t < s / 2 {
        sine_core_micro(t)
    } else {
        s - sine_core_micro(s - t)
    }
}

/// Division that rounds toward zero, the rounding of every fixed-point
/// division in the Bézier solver; 0 when the divisor is 0.
pub open spec fn tdiv(a: int, b: int) -> int {
    if b == 0 {
        0
    } else {
        let q = (vstd::math::abs(a) / vstd::math::abs(b)) as int;
        if (a < 0) == (b < 0) {
            q
        } else {
            -q
        }
    }
}

/// Clamps `v` into [lo, hi].
pub open spec fn clamp_i(v: int, lo: int, hi: int) -> int {
    if v < lo {
        lo
    } else if v > hi {
        hi
    } else {
        v
    }
}

/// First Bézier polynomial coefficient (of t^3), scaled by `SCALE`.
pub open spec fn bz_coeff_a(p1: int, p2: int) -> int {
    (SCALE as int) - bz_coeff_c(p1) - bz_coeff_b(p1, p2)
}

/// Second Bézier polynomial coefficient (of t^2), scaled by `SCALE`.
pub open spec fn bz_coeff_b(p1: int, p2: int) -> int {
    3 * (p2 - p1) - bz_coeff_c(p1)
}

/// Third Bézier polynomial coefficient (of t), scaled by `SCALE`.
pub open spec fn bz_coeff_c(p1: int) -> int {
    3 * p1
}

/// One Bézier component ((c3*t + c2)*t + c1)*t in fixed point:
/// every product is rescaled by a truncating division.
pub open spec fn bz_poly(c3: int, c2: int, c1: int, t: int) -> int {
    let s = SCALE as int;
    tdiv((tdiv((tdiv(c3 * t, s) + c2) * t, s) + c1) * t, s)
}

/// Derivative (3*c3*t + 2*c2)*t + c1 of a Bézier component in fixed point.
pub open spec fn bz_deriv(c3: int, c2: int, c1: int, t: int) -> int {
    let s = SCALE as int;
    tdiv((tdiv(3 * c3 * t, s) + 2 * c2) * t, s) + c1
}

/// One range of the Newton iterate, wide enough for any accepted curve.
pub open spec fn bz_span() -> int {
    10 * (SCALE as int)
}

/// Newton-Raphson on the Bézier x component: runs `fuel` steps from `t`,
/// stops early when the fixed-point derivative vanishes, and keeps the
/// iterate within a bounded span.
pub open spec fn bz_newton(x: int, c3: int, c2: int, c1: int, t: int, fuel: nat) -> int
    decreases fuel,
{
    if fuel == 0 {
        t
    } else {
        let xt = bz_poly(c3, c2, c1, t);
        let dx = bz_deriv(c3, c2, c1, t);
        if dx == 0 {
            t
        } else {
            let tn = clamp_i(t - tdiv((xt - x) * (SCALE as int), dx), -bz_span(), bz_span());
            bz_newton(x, c3, c2, c1, tn, (fuel - 1) as nat)
        }
    }
}

/// Parametric cubic Bézier easing: solve the x component for the parameter
/// by 8 Newton steps starting at `t`, clamp the root to [0, 1], evaluate the
/// y component there, and clamp the value to [0, 1].
pub open spec fn bezier_micro(t: int, x1: int, yc1: int, x2: int, yc2: int) -> int {
    let s = SCALE as int;
    let ax = bz_coeff_a(x1, x2);
    let bx = bz_coeff_b(x1, x2);
    let cx = bz_coeff_c(x1);
    let ay = bz_coeff_a(yc1, yc2);
    let by = bz_coeff_b(yc1, yc2);
    let cy = bz_coeff_c(yc1);
    let root = clamp_i(bz_newton(t, ax, bx, cx, t, 8), 0, s);
    clamp_i(bz_poly(ay, by, cy, root), 0, s)
}

/// Eased progress in micro-units for progress `t` in micro-units.
pub open spec fn eased_micro(e: Easing, t: int) -> int {
    match e {
        Easing::Linear => t,
        Easing::EaseIn => ease_in_micro(t),
        Easing::EaseOut => ease_out_micro(t),
        Easing::EaseInOut => ease_in_out_micro(t),
        Easing::Sine => sine_micro(t),
        Easing::Smooth => smooth_micro(t),
        Easing::Smoother => smoother_micro(t),
        Easing::Bezier { x1, y1, x2, y2 } => bezier_micro(t, x1 as int, y1 as int, x2 as int, y2 as int),
    }
}

/// Every curve maps 0 to 0 and 1 to 1 exactly, and stays within [0, 1].
pub proof fn lemma_easing_bounds(e: Easing, t: int)
    requires
        0 <= t <= SCALE as int,
    ensures
        0 <= eased_micro(e, t) <= SCALE as int,
        t == 0 ==> eased_micro(e, t) == 0,
        t == SCALE as int ==> eased_micro(e, t) == SCALE as int,
{
    let s = SCALE as int;
    match e {
        Easing::Linear => {
            assert(eased_micro(e, t) == t);
        },
        Easing::EaseIn => {
            assert(t * t >= 0) by (nonlinear_arith);
            assert(t * t <= s * s) by (nonlinear_arith)
                requires 0 <= t <= s;
            assert(s * s == s * (SCALE as int));
            lemma_div_bound(t * t, s);
            if t == s {
                assert((s * s) / s == s) by (nonlinear_arith)
                    requires s == SCALE as int;
            }
        },
        Easing::EaseOut => {
            assert(t * (2 * s - t) >= 0) by (nonlinear_arith)
                requires 0 <= t <= s;
            assert(t * (2 * s - t) <= s * s) by (nonlinear_arith)
                requires 0 <= t <= s;
            lemma_div_bound(t * (2 * s - t), s);
            if t == s {
                assert((s * (2 * s - s)) / s == s) by (nonlinear_arith)
                    requires s == SCALE as int;
            }
        },
        Easing::EaseInOut => {
            if 2 * t < s {
                assert(2 * t * t >= 0) by (nonlinear_arith)
                    requires t >= 0;
                assert(2 * t * t <= s * s) by (nonlinear_arith)
                    requires 0 <= t, 2 * t < s;
                lemma_div_bound(2 * t * t, s);
            } else {
                assert((4 * s - 2 * t) * t >= s * s) by (nonlinear_arith)
                    requires s <= 2 * t, t <= s, s > 0;
                assert((4 * s - 2 * t) * t <= 2 * (s * s)) by (nonlinear_arith)
                    requires s <= 2 * t, t <= s, s > 0;
                assert(((4 * s - 2 * t) * t) / s >= s) by {
                    vstd::arithmetic::div_mod::lemma_div_is_ordered(s * s, (4 * s - 2 * t) * t, s);
                    assert((s * s) / s == s) by (nonlinear_arith)
                        requires s > 0;
                };
                assert(((4 * s - 2 * t) * t) / s <= 2 * s) by {
                    vstd::arithmetic::div_mod::lemma_div_is_ordered(
                        (4 * s - 2 * t) * t,
                        2 * (s * s),
                        s,
                    );
                    assert((2 * (s * s)) / s == 2 * s) by (nonlinear_arith)
                        requires s > 0;
                };
                if t == s {
                    assert(((4 * s - 2 * s) * s) / s - s == s) by (nonlinear_arith)
                        requires s == SCALE as int;
                }
            }
        },
        Easing::Smooth => {
            assert(t * t * (3 * s - 2 * t) >= 0) by (nonlinear_arith)
                requires 0 <= t <= s;
            assert(t * t * (3 * s - 2 * t) <= s * s * s) by (nonlinear_arith)
                requires 0 <= t <= s;
            assert(s * s * s == s * (s * s)) by (nonlinear_arith);
            lemma_div_bound(t * t * (3 * s - 2 * t), s * s);
            assert(s * s > 0) by (nonlinear_arith)
                requires s > 0;
            if t == s {
                assert((s * s * (3 * s - 2 * s)) / (s * s) == s) by (nonlinear_arith)
                    requires s == SCALE as int;
            }
        },
        Easing::Smoother => {
            let q = 6 * t * t - 15 * t * s + 10 * s * s;
            let num = t * t * t * q;
            assert(24 * q == (12 * t - 15 * s) * (12 * t - 15 * s) + 15 * (s * s))
                by (nonlinear_arith)
                requires q == 6 * t * t - 15 * t * s + 10 * s * s;
            assert((12 * t - 15 * s) * (12 * t - 15 * s) >= 0) by (nonlinear_arith);
            assert(s * s > 0) by (nonlinear_arith)
                requires s > 0;
            assert(num >= 0) by (nonlinear_arith)
                requires 0 <= t, q >= 0, num == t * t * t * q;
            assert(num <= s * s * s * s * s) by (nonlinear_arith)
                requires 0 <= t <= s, num == t * t * t * (6 * t * t - 15 * t * s + 10 * s * s);
            assert(s * s * s * s * s == s * (s * s * s * s)) by (nonlinear_arith);
            lemma_div_bound(num, s * s * s * s);
            assert(s * s * s * s > 0) by (nonlinear_arith)
                requires s > 0;
            if t == s {
                assert((s * s * s * (6 * s * s - 15 * s * s + 10 * s * s)) / (s * s * s * s) == s)
                    by (nonlinear_arith)
                    requires s == SCALE as int;
            }
        },
        Easing::Sine => {
            lemma_sine_bounds(t);
        },
        Easing::Bezier { x1, y1, x2, y2 } => {
            lemma_bezier_bounds(t, x1 as int, y1 as int, x2 as int, y2 as int);
        },
    }
}

/// The Bézier easing stays within [0, 1] and is exact at 0 and 1.
proof fn lemma_bezier_bounds(t: int, p1x: int, p1y: int, p2x: int, p2y: int)
    requires
        0 <= t <= SCALE as int,
    ensures
        0 <= bezier_micro(t, p1x, p1y, p2x, p2y) <= SCALE as int,
        t == 0 ==> bezier_micro(t, p1x, p1y, p2x, p2y) == 0,
        t == SCALE as int ==> bezier_micro(t, p1x, p1y, p2x, p2y) == SCALE as int,
{
    let s = SCALE as int;
    let ax = bz_coeff_a(p1x, p2x);
    let bx = bz_coeff_b(p1x, p2x);
    let cx = bz_coeff_c(p1x);
    let ay = bz_coeff_a(p1y, p2y);
    let by = bz_coeff_b(p1y, p2y);
    let cy = bz_coeff_c(p1y);
    if t == 0 {
        lemma_newton_zero(ax, bx, cx, 8);
        assert(clamp_i(0, 0, s) == 0);
        lemma_poly_zero(ay, by, cy);
    }
    if t == s {
        lemma_newton_one(ax, bx, cx, 8);
        assert(clamp_i(s, 0, s) == s);
        lemma_poly_one(ay, by, cy);
    }
}

/// Dividing zero truncates to zero.
proof fn lemma_tdiv_zero(b: int)
    ensures
        tdiv(0, b) == 0,
{
}

/// An exact multiple divides out: tdiv(k * m, m) == k for positive m.
proof fn lemma_tdiv_exact(k: int, m: int)
    requires
        m > 0,
    ensures
        tdiv(k * m, m) == k,
{
    if k >= 0 {
        assert(k * m >= 0) by (nonlinear_arith)
            requires k >= 0, m > 0;
        vstd::arithmetic::div_mod::lemma_div_by_multiple(k, m);
        assert(vstd::math::abs(k * m) == k * m);
        assert(tdiv(k * m, m) == (k * m) / m);
    } else {
        assert(k * m < 0) by (nonlinear_arith)
            requires k < 0, m > 0;
        assert(-(k * m) == (-k) * m) by (nonlinear_arith);
        vstd::arithmetic::div_mod::lemma_div_by_multiple(-k, m);
        assert(vstd::math::abs(k * m) == (-k) * m);
        assert(tdiv(k * m, m) == -(((-k) * m) / m));
    }
}

/// Every Bézier component vanishes at parameter 0.
proof fn lemma_poly_zero(c3: int, c2: int, c1: int)
    ensures
        bz_poly(c3, c2, c1, 0) == 0,
{
    let s = SCALE as int;
    assert(c3 * 0 == 0) by (nonlinear_arith);
    lemma_tdiv_zero(s);
    assert((tdiv(c3 * 0, s) + c2) * 0 == 0) by (nonlinear_arith);
    assert((tdiv((tdiv(c3 * 0, s) + c2) * 0, s) + c1) * 0 == 0) by (nonlinear_arith);
}

/// A Bézier component whose coefficients sum to 1 is exactly 1 at
/// parameter 1; the fixed-point divisions are exact there.
proof fn lemma_poly_one(c3: int, c2: int, c1: int)
    requires
        c3 + c2 + c1 == SCALE as int,
    ensures
        bz_poly(c3, c2, c1, SCALE as int) == SCALE as int,
{
    let s = SCALE as int;
    lemma_tdiv_exact(c3, s);
    lemma_tdiv_exact(c3 + c2, s);
    lemma_tdiv_exact(c3 + c2 + c1, s);
    assert((tdiv(c3 * s, s) + c2) * s == (c3 + c2) * s);
    assert((tdiv((c3 + c2) * s, s) + c1) * s == (c3 + c2 + c1) * s);
}

/// Newton iteration started at 0 with target 0 stays at 0.
proof fn lemma_newton_zero(c3: int, c2: int, c1: int, fuel: nat)
    ensures
        bz_newton(0, c3, c2, c1, 0, fuel) == 0,
    decreases fuel,
{
    if fuel > 0 {
        let s = SCALE as int;
        lemma_poly_zero(c3, c2, c1);
        let dx = bz_deriv(c3, c2, c1, 0);
        if dx != 0 {
            assert((bz_poly(c3, c2, c1, 0) - 0) * s == 0) by (nonlinear_arith)
                requires bz_poly(c3, c2, c1, 0) == 0;
            lemma_tdiv_zero(dx);
            assert(clamp_i(0 - 0, -bz_span(), bz_span()) == 0);
            lemma_newton_zero(c3, c2, c1, (fuel - 1) as nat);
        }
    }
}

/// Newton iteration started at 1 with target 1 stays at 1 when the
/// component's coefficients sum to 1.
proof fn lemma_newton_one(c3: int, c2: int, c1: int, fuel: nat)
    requires
        c3 + c2 + c1 == SCALE as int,
    ensures
        bz_newton(SCALE as int, c3, c2, c1, SCALE as int, fuel) == SCALE as int,
    decreases fuel,
{
    let s = SCALE as int;
    if fuel > 0 {
        lemma_poly_one(c3, c2, c1);
        let dx = bz_deriv(c3, c2, c1, s);
        if dx != 0 {
            assert((bz_poly(c3, c2, c1, s) - s) * s == 0) by (nonlinear_arith)
                requires bz_poly(c3, c2, c1, s) == s;
            lemma_tdiv_zero(dx);
            assert(clamp_i(s - 0, -bz_span(), bz_span()) == s);
            lemma_newton_one(c3, c2, c1, (fuel - 1) as nat);
        }
    }
}

/// 0 <= n / d <= d's multiple bound: if 0 <= n <= d * b then 0 <= n / d <= b.
proof fn lemma_div_bound(n: int, d: int)
    requires
        d > 0,
        0 <= n <= d * (SCALE as int),
    ensures
        0 <= n / d <= SCALE as int,
{
    assert(n / d >= 0) by (nonlinear_arith)
        requires d > 0, n >= 0;
    assert(n / d <= SCALE as int) by (nonlinear_arith)
        requires d > 0, n <= d * (SCALE as int);
}

/// Bounds and endpoint exactness of the sine curve.
proof fn lemma_sine_bounds(t: int)
    requires
        0 <= t <= SCALE as int,
    ensures
        0 <= sine_micro(t) <= SCALE as int,
        t == 0 ==> sine_micro(t) == 0,
        t == SCALE as int ==> sine_micro(t) == SCALE as int,
{
    let s = SCALE as int;
    if t < s / 2 {
        lemma_sine_core_bounds(t);
    } else if t > s / 2 {
        lemma_sine_core_bounds(s - t);
    }
    if t == 0 {
        lemma_sine_core_zero();
    }
    if t == s {
        lemma_sine_core_zero();
    }
}

/// The half-range core stays within [0, 1/2].
proof fn lemma_sine_core_bounds(t: int)
    requires
        0 <= t <= (SCALE as int) / 2,
    ensures
        0 <= sine_core_micro(t) <= (SCALE as int) / 2,
{
    let s = SCALE as int;
    let y = ((PI_MICRO as int) * t) / (2 * s);
    assert(y >= 0) by (nonlinear_arith)
        requires t >= 0, s > 0, y == ((PI_MICRO as int) * t) / (2 * s);
    let y2 = (y * y) / s;
    let y4 = (y2 * y2) / s;
    let y6 = (y4 * y2) / s;
    assert(y2 >= 0 && y4 >= 0 && y6 >= 0) by (nonlinear_arith)
        requires
            y >= 0,
            s > 0,
            y2 == (y * y) / s,
            y4 == (y2 * y2) / s,
            y6 == (y4 * y2) / s;
    let p = s - y2 / 6 + y4 / 120 - y6 / 5040;
    let sn = (y * p) / s;
    let r = (sn * sn) / s;
    assert(sn * sn >= 0) by (nonlinear_arith);
    assert(r >= 0) by (nonlinear_arith)
        requires s > 0, sn * sn >= 0, r == (sn * sn) / s;
}

/// The half-range core is exactly 0 at 0.
proof fn lemma_sine_core_zero()
    ensures
        sine_core_micro(0) == 0,
{
    let s = SCALE as int;
    assert((PI_MICRO as int) * 0 == 0) by (nonlinear_arith);
    assert(0int / (2 * s) == 0);
    assert(sine_core_micro(0) == 0);
}

/// Evaluates one curve at progress `t` micro-units; the result equals the
/// spec-level curve value exactly.
pub fn ease_eval(e: Easing, t: u64) -> (r: u64)
    requires
        t <= SCALE,
        easing_wf(e),
    ensures
        r as int == eased_micro(e, t as int),
        r <= SCALE,
{
    proof {
        lemma_easing_bounds(e, t as int);
    }
    match e {
        Easing::Linear => t,
        Easing::EaseIn => {
            proof {
                assert((t as int) * (t as int) <= 1_000_000 * 1_000_000) by (nonlinear_arith)
                    requires 0 <= t as int <= 1_000_000;
            }
            let n: u128 = (t as u128) * (t as u128);
            (n / (SCALE as u128)) as u64
        },
        Easing::EaseOut => {
            proof {
                assert((t as int) * (2 * (SCALE as int) - (t as int)) <= 1_000_000 * 2_000_000)
                    by (nonlinear_arith)
                    requires 0 <= t as int <= 1_000_000, SCALE as int == 1_000_000;
            }
            let n: u128 = (t as u128) * (2 * (SCALE as u128) - (t as u128));
            (n / (SCALE as u128)) as u64
        },
        Easing::EaseInOut => {
            if 2 * t < SCALE {
                proof {
                    assert(2 * ((t as int) * (t as int)) <= 2 * (1_000_000 * 1_000_000))
                        by (nonlinear_arith)
                        requires 0 <= t as int <= 1_000_000;
                }
                let n: u128 = 2 * ((t as u128) * (t as u128));
                proof {
                    assert(2 * ((t as int) * (t as int)) == 2 * (t as int) * (t as int))
                        by (nonlinear_arith);
                }
                (n / (SCALE as u128)) as u64
            } else {
                proof {
                    assert((4 * (SCALE as int) - 2 * (t as int)) * (t as int) <= 4_000_000
                        * 1_000_000) by (nonlinear_arith)
                        requires 0 <= t as int <= 1_000_000, SCALE as int == 1_000_000;
                }
                let n: u128 = (4 * (SCALE as u128) - 2 * (t as u128)) * (t as u128);
                let q: u128 = n / (SCALE as u128);
                proof {
                    let s = SCALE as int;
                    assert((4 * s - 2 * (t as int)) * (t as int) >= s * s) by (nonlinear_arith)
                        requires s <= 2 * (t as int), t as int <= s, s > 0;
                    vstd::arithmetic::div_mod::lemma_div_is_ordered(
                        s * s,
                        (4 * s - 2 * (t as int)) * (t as int),
                        s,
                    );
                    assert((s * s) / s == s) by (nonlinear_arith)
                        requires s > 0;
                }
                (q as u64) - SCALE
            }
        },
        Easing::Sine => ease_sine(t),
        Easing::Bezier { x1, y1, x2, y2 } => eval_bezier(t, x1, y1, x2, y2),
        Easing::Smooth => {
            proof {
                assert((t as int) * (t as int) <= 1_000_000 * 1_000_000) by (nonlinear_arith)
                    requires 0 <= t as int <= 1_000_000;
            }
            let tt: u128 = (t as u128) * (t as u128);
            proof {
                assert((tt as int) * (3 * (SCALE as int) - 2 * (t as int)) <= (1_000_000
                    * 1_000_000) * 3_000_000) by (nonlinear_arith)
                    requires
                        0 <= tt as int <= 1_000_000 * 1_000_000,
                        0 <= t as int <= 1_000_000,
                        SCALE as int == 1_000_000;
            }
            let n: u128 = tt * (3 * (SCALE as u128) - 2 * (t as u128));
            proof {
                let s = SCALE as int;
                let ti = t as int;
                assert((ti * ti) * (3 * s - 2 * ti) == ti * ti * (3 * s - 2 * ti))
                    by (nonlinear_arith);
            }
            (n / ((SCALE as u128) * (SCALE as u128))) as u64
        },
        Easing::Smoother => {
            let sc: u128 = SCALE as u128;
            proof {
                assert((t as int) * (t as int) <= 1_000_000 * 1_000_000) by (nonlinear_arith)
                    requires 0 <= t as int <= 1_000_000;
            }
            let tt: u128 = (t as u128) * (t as u128);
            proof {
                assert(15 * (t as int) * (SCALE as int) <= 6 * ((t as int) * (t as int)) + 10 * (
                SCALE as int) * (SCALE as int)) by (nonlinear_arith)
                    requires 0 <= t as int;
                assert(15 * ((t as int) * (SCALE as int)) == 15 * (t as int) * (SCALE as int))
                    by (nonlinear_arith);
                assert((t as int) * (SCALE as int) <= 1_000_000 * 1_000_000) by (nonlinear_arith)
                    requires 0 <= t as int <= 1_000_000, SCALE as int == 1_000_000;
            }
            let poly: u128 = 6 * tt + 10 * sc * sc - 15 * ((t as u128) * sc);
            proof {
                assert((tt as int) * (t as int) <= (1_000_000 * 1_000_000) * 1_000_000)
                    by (nonlinear_arith)
                    requires 0 <= tt as int <= 1_000_000 * 1_000_000, 0 <= t as int <= 1_000_000;
            }
            let ttt: u128 = tt * (t as u128);
            proof {
                assert(poly as int <= 10_000_000_000_000) by {
                    assert(6 * ((t as int) * (t as int)) <= 15 * (t as int) * (SCALE as int))
                        by (nonlinear_arith)
                        requires 0 <= t as int, SCALE as int == 1_000_000, t as int <= 1_000_000;
                };
                assert((ttt as int) * (poly as int) <= (1_000_000 * 1_000_000 * 1_000_000) * (10
                    * 1_000_000 * 1_000_000)) by (nonlinear_arith)
                    requires
                        0 <= ttt as int <= 1_000_000 * 1_000_000 * 1_000_000,
                        0 <= poly as int <= 10 * 1_000_000 * 1_000_000;
            }
            let num: u128 = ttt * poly;
            let den: u128 = sc * sc * sc * sc;
            proof {
                let s = SCALE as int;
                let ti = t as int;
                assert(num as int == ti * ti * ti * (6 * ti * ti - 15 * ti * s + 10 * s * s))
                    by (nonlinear_arith)
                    requires
                        num as int == (ttt as int) * (poly as int),
                        ttt as int == (tt as int) * ti,
                        tt as int == ti * ti,
                        poly as int == 6 * (tt as int) + 10 * s * s - 15 * (ti * s),
                        tt as int == ti * ti;
                assert(den as int == s * s * s * s) by (nonlinear_arith)
                    requires den as int == ((s * s) * s) * s;
            }
            (num / den) as u64
        },
    }
}

/// Sine curve in fixed point, mirroring `sine_micro`.
fn ease_sine(t: u64) -> (r: u64)
    requires
        t <= SCALE,
    ensures
        r as int == sine_micro(t as int),
        r <= SCALE,
{
    proof {
        lemma_sine_bounds(t as int);
    }
    let half: u64 = SCALE / 2;
    if t == half {
        half
    } else if t < half {
        ease_sine_core(t)
    } else {
        SCALE - ease_sine_core(SCALE - t)
    }
}

/// Half-range sine core in fixed point, mirroring `sine_core_micro`.
fn ease_sine_core(t: u64) -> (r: u64)
    requires
        t <= SCALE / 2,
    ensures
        r as int == sine_core_micro(t as int),
        r <= SCALE / 2,
{
    let sc: u128 = SCALE as u128;
    proof {
        assert((PI_MICRO as int) * (t as int) <= 3_141_593 * 500_000) by (nonlinear_arith)
            requires 0 <= t as int <= 500_000, PI_MICRO as int == 3_141_593;
    }
    let y: u128 = ((PI_MICRO as u128) * (t as u128)) / (2 * sc);
    proof {
        vstd::arithmetic::div_mod::lemma_div_is_ordered(
            (PI_MICRO as int) * (t as int),
            (3_141_593 * 500_000) as int,
            2 * (SCALE as int),
        );
        assert(y as int <= 785398);
        assert((y as int) * (y as int) <= 785398 * 785398) by (nonlinear_arith)
            requires 0 <= y as int <= 785398;
    }
    let y2: u128 = (y * y) / sc;
    proof {
        vstd::arithmetic::div_mod::lemma_div_is_ordered(
            (y as int) * (y as int),
            (785398 * 785398) as int,
            SCALE as int,
        );
        assert(y2 as int <= 616850);
        assert((y2 as int) * (y2 as int) <= 616850 * 616850) by (nonlinear_arith)
            requires 0 <= y2 as int <= 616850;
    }
    let y4: u128 = (y2 * y2) / sc;
    proof {
        vstd::arithmetic::div_mod::lemma_div_is_ordered(
            (y2 as int) * (y2 as int),
            (616850 * 616850) as int,
            SCALE as int,
        );
        assert(y4 as int <= 380504);
        assert((y4 as int) * (y2 as int) <= 380504 * 616850) by (nonlinear_arith)
            requires 0 <= y4 as int <= 380504, 0 <= y2 as int <= 616850;
    }
    let y6: u128 = (y4 * y2) / sc;
    proof {
        vstd::arithmetic::div_mod::lemma_div_is_ordered(
            (y4 as int) * (y2 as int),
            (380504 * 616850) as int,
            SCALE as int,
        );
        assert(y6 as int <= 234725);
    }
    let p: u128 = sc - y2 / 6 + y4 / 120 - y6 / 5040;
    proof {
        assert(p as int <= 1003171);
        assert((y as int) * (p as int) <= 785398 * 1003171) by (nonlinear_arith)
            requires 0 <= y as int <= 785398, 0 <= p as int <= 1003171;
    }
    let sn: u128 = (y * p) / sc;
    proof {
        vstd::arithmetic::div_mod::lemma_div_is_ordered(
            (y as int) * (p as int),
            (785398 * 1003171) as int,
            SCALE as int,
        );
        assert(sn as int <= 787889);
        assert((sn as int) * (sn as int) <= 787889 * 787889) by (nonlinear_arith)
            requires 0 <= sn as int <= 787889;
    }
    let r2: u128 = (sn * sn) / sc;
    let halfscale: u128 = sc / 2;
    if r2 > halfscale {
        halfscale as u64
    } else {
        r2 as u64
    }
}


/// Truncating division of bounded 128-bit values; matches `tdiv` exactly.
fn div_trunc(a: i128, b: i128) -> (r: i128)
    requires
        b != 0,
        -1000000000000000000000000000000 <= a <= 1000000000000000000000000000000,
        -1000000000000000000000000000000 <= b <= 1000000000000000000000000000000,
    ensures
        r as int == tdiv(a as int, b as int),
{
    let neg: bool = (a < 0) != (b < 0);
    let am: u128 = if a < 0 {
        (-a) as u128
    } else {
        a as u128
    };
    let bm: u128 = if b < 0 {
        (-b) as u128
    } else {
        b as u128
    };
    let q: u128 = am / bm;
    proof {
        assert(am as int == vstd::math::abs(a as int));
        assert(bm as int == vstd::math::abs(b as int));
        assert(q as int == vstd::math::abs(a as int) as int / vstd::math::abs(b as int) as int);
        assert(q <= am) by {
            vstd::arithmetic::div_mod::lemma_div_is_ordered_by_denominator(am as int, 1, bm as int);
            assert(am as int / 1 == am as int);
        };
    }
    if neg {
        -(q as i128)
    } else {
        q as i128
    }
}

/// If |a| is at most c * b then |tdiv(a, b)| is at most c.
proof fn lemma_tdiv_div_bound(a: int, b: int, c: int)
    requires
        b > 0,
        -(c * b) <= a <= c * b,
    ensures
        -c <= tdiv(a, b) <= c,
{
    assert(c >= 0) by (nonlinear_arith)
        requires b > 0, -(c * b) <= c * b;
    assert(vstd::math::abs(a) <= c * b);
    let q = (vstd::math::abs(a) / vstd::math::abs(b)) as int;
    assert(vstd::math::abs(b) == b);
    vstd::arithmetic::div_mod::lemma_div_is_ordered(vstd::math::abs(a) as int, c * b, b);
    vstd::arithmetic::div_mod::lemma_div_by_multiple(c, b);
    assert(q <= c);
    assert(q >= 0) by (nonlinear_arith)
        requires b > 0, q == vstd::math::abs(a) as int / vstd::math::abs(b) as int, vstd::math::abs(
            b,
        ) == b, vstd::math::abs(a) >= 0;
}

/// One Bézier component in fixed point; matches `bz_poly` exactly.
fn bz_poly_exec(c3: i128, c2: i128, c1: i128, t: i128) -> (r: i128)
    requires
        -200_000_000 <= c3 <= 200_000_000,
        -200_000_000 <= c2 <= 200_000_000,
        -200_000_000 <= c1 <= 200_000_000,
        -10_000_000 <= t <= 10_000_000,
    ensures
        r as int == bz_poly(c3 as int, c2 as int, c1 as int, t as int),
        -300_000_000_000 <= r <= 300_000_000_000,
{
    let s128: i128 = SCALE as i128;
    proof {
        assert(-(2_000_000_000 * 1_000_000) <= (c3 as int) * (t as int) <= 2_000_000_000
            * 1_000_000) by (nonlinear_arith)
            requires -200_000_000 <= c3 as int <= 200_000_000, -10_000_000 <= t as int <= 10_000_000;
    }
    let u1: i128 = div_trunc(c3 * t, s128);
    proof {
        lemma_tdiv_div_bound((c3 as int) * (t as int), SCALE as int, 2_000_000_000);
    }
    let u2: i128 = u1 + c2;
    proof {
        assert(-(22_000_000_000 * 1_000_000) <= (u2 as int) * (t as int) <= 22_000_000_000
            * 1_000_000) by (nonlinear_arith)
            requires
                -2_200_000_000 <= u2 as int <= 2_200_000_000,
                -10_000_000 <= t as int <= 10_000_000;
    }
    let u3: i128 = div_trunc(u2 * t, s128);
    proof {
        lemma_tdiv_div_bound((u2 as int) * (t as int), SCALE as int, 22_000_000_000);
    }
    let u4: i128 = u3 + c1;
    proof {
        assert(-(300_000_000_000 * 1_000_000) <= (u4 as int) * (t as int) <= 300_000_000_000
            * 1_000_000) by (nonlinear_arith)
            requires
                -22_200_000_000 <= u4 as int <= 22_200_000_000,
                -10_000_000 <= t as int <= 10_000_000;
    }
    let r: i128 = div_trunc(u4 * t, s128);
    proof {
        lemma_tdiv_div_bound((u4 as int) * (t as int), SCALE as int, 300_000_000_000);
    }
    r
}

/// Derivative of a Bézier component in fixed point; matches `bz_deriv`.
fn bz_deriv_exec(c3: i128, c2: i128, c1: i128, t: i128) -> (r: i128)
    requires
        -200_000_000 <= c3 <= 200_000_000,
        -200_000_000 <= c2 <= 200_000_000,
        -200_000_000 <= c1 <= 200_000_000,
        -10_000_000 <= t <= 10_000_000,
    ensures
        r as int == bz_deriv(c3 as int, c2 as int, c1 as int, t as int),
        -70_000_000_000 <= r <= 70_000_000_000,
{
    let s128: i128 = SCALE as i128;
    let v0: i128 = 3 * c3;
    proof {
        assert(-(6_000_000_000 * 1_000_000) <= (v0 as int) * (t as int) <= 6_000_000_000
            * 1_000_000) by (nonlinear_arith)
            requires -600_000_000 <= v0 as int <= 600_000_000, -10_000_000 <= t as int <= 10_000_000;
    }
    let v1: i128 = div_trunc(v0 * t, s128);
    proof {
        lemma_tdiv_div_bound((v0 as int) * (t as int), SCALE as int, 6_000_000_000);
        assert((v0 as int) * (t as int) == 3 * (c3 as int) * (t as int)) by (nonlinear_arith)
            requires v0 as int == 3 * (c3 as int);
    }
    let v2: i128 = v1 + 2 * c2;
    proof {
        assert(-(64_000_000_000 * 1_000_000) <= (v2 as int) * (t as int) <= 64_000_000_000
            * 1_000_000) by (nonlinear_arith)
            requires
                -6_400_000_000 <= v2 as int <= 6_400_000_000,
                -10_000_000 <= t as int <= 10_000_000;
    }
    let v3: i128 = div_trunc(v2 * t, s128);
    proof {
        lemma_tdiv_div_bound((v2 as int) * (t as int), SCALE as int, 64_000_000_000);
    }
    v3 + c1
}

/// Solves and evaluates the parametric Bézier curve in fixed point,
/// mirroring `bezier_micro` step by step.
fn eval_bezier(t: u64, p1x: i64, p1y: i64, p2x: i64, p2y: i64) -> (r: u64)
    requires
        t <= SCALE,
        -CTRL_LIMIT <= p1x <= CTRL_LIMIT,
        -CTRL_LIMIT <= p1y <= CTRL_LIMIT,
        -CTRL_LIMIT <= p2x <= CTRL_LIMIT,
        -CTRL_LIMIT <= p2y <= CTRL_LIMIT,
    ensures
        r as int == bezier_micro(t as int, p1x as int, p1y as int, p2x as int, p2y as int),
        r <= SCALE,
{
    let s128: i128 = SCALE as i128;
    let cxv: i128 = 3 * (p1x as i128);
    let bxv: i128 = 3 * ((p2x as i128) - (p1x as i128)) - cxv;
    let axv: i128 = s128 - cxv - bxv;
    let cyv: i128 = 3 * (p1y as i128);
    let byv: i128 = 3 * ((p2y as i128) - (p1y as i128)) - cyv;
    let ayv: i128 = s128 - cyv - byv;
    proof {
        assert(cxv as int == bz_coeff_c(p1x as int));
        assert(bxv as int == bz_coeff_b(p1x as int, p2x as int));
        assert(axv as int == bz_coeff_a(p1x as int, p2x as int));
        assert(cyv as int == bz_coeff_c(p1y as int));
        assert(byv as int == bz_coeff_b(p1y as int, p2y as int));
        assert(ayv as int == bz_coeff_a(p1y as int, p2y as int));
    }
    let ghost xi: int = t as int;
    let mut tc: i128 = t as i128;
    let mut i: u64 = 0;
    while i < 8
        invariant
            i <= 8,
            -10_000_000 <= tc <= 10_000_000,
            t <= SCALE,
            -200_000_000 <= axv <= 200_000_000,
            -200_000_000 <= bxv <= 200_000_000,
            -200_000_000 <= cxv <= 200_000_000,
            s128 == SCALE as i128,
            xi == t as int,
            bz_newton(xi, axv as int, bxv as int, cxv as int, tc as int, (8 - i) as nat)
                == bz_newton(xi, axv as int, bxv as int, cxv as int, xi, 8),
        decreases 8 - i,
    {
        let xt: i128 = bz_poly_exec(axv, bxv, cxv, tc);
        let dxv: i128 = bz_deriv_exec(axv, bxv, cxv, tc);
        if dxv == 0 {
            proof {
                assert(bz_newton(xi, axv as int, bxv as int, cxv as int, tc as int, (8 - i) as nat)
                    == tc as int);
            }
            i = 8;
        } else {
            let diff: i128 = xt - (t as i128);
            proof {
                assert(-310_000_000_000 <= diff as int <= 310_000_000_000);
                assert(s128 as int == 1_000_000);
                assert(-1000000000000000000000000000000 <= (diff as int) * (s128 as int)
                    <= 1000000000000000000000000000000) by (nonlinear_arith)
                    requires -310_000_000_000 <= diff as int <= 310_000_000_000, s128 as int
                        == 1_000_000;
            }
            let prod: i128 = diff * s128;
            let step: i128 = div_trunc(prod, dxv);
            proof {
                assert(vstd::math::abs(prod as int) <= 310_000_000_000 * 1_000_000) by {
                    assert(-(310_000_000_000 * 1_000_000) <= (diff as int) * (s128 as int) <= (
                    310_000_000_000 * 1_000_000)) by (nonlinear_arith)
                        requires -310_000_000_000 <= diff as int <= 310_000_000_000, s128 as int
                            == 1_000_000;
                };
                lemma_tdiv_div_bound_abs(prod as int, dxv as int);
                assert(prod as int == ((xt as int) - xi) * (SCALE as int));
            }
            let tn: i128 = tc - step;
            let tclamped: i128 = if tn < -10_000_000 {
                -10_000_000
            } else if tn > 10_000_000 {
                10_000_000
            } else {
                tn
            };
            proof {
                assert(tclamped as int == clamp_i(
                    (tc as int) - tdiv((xt as int - xi) * (SCALE as int), dxv as int),
                    -bz_span(),
                    bz_span(),
                ));
                assert(bz_newton(xi, axv as int, bxv as int, cxv as int, tc as int, (8 - i) as nat)
                    == bz_newton(
                    xi,
                    axv as int,
                    bxv as int,
                    cxv as int,
                    tclamped as int,
                    (8 - (i + 1)) as nat,
                ));
            }
            tc = tclamped;
            i = i + 1;
        }
    }
    proof {
        assert(bz_newton(xi, axv as int, bxv as int, cxv as int, tc as int, 0nat) == tc as int);
    }
    let root: i128 = if tc < 0 {
        0
    } else if tc > s128 {
        s128
    } else {
        tc
    };
    proof {
        assert(root as int == clamp_i(
            bz_newton(xi, axv as int, bxv as int, cxv as int, xi, 8),
            0,
            SCALE as int,
        ));
    }
    let val: i128 = bz_poly_exec(ayv, byv, cyv, root);
    let out: i128 = if val < 0 {
        0
    } else if val > s128 {
        s128
    } else {
        val
    };
    out as u64
}

/// The magnitude of a truncating quotient never exceeds the magnitude of
/// the dividend.
proof fn lemma_tdiv_div_bound_abs(a: int, b: int)
    requires
        b != 0,
    ensures
        vstd::math::abs(tdiv(a, b)) <= vstd::math::abs(a),
{
    let q = (vstd::math::abs(a) / vstd::math::abs(b)) as int;
    assert(vstd::math::abs(b) >= 1);
    assert(q <= vstd::math::abs(a)) by {
        vstd::arithmetic::div_mod::lemma_div_is_ordered_by_denominator(
            vstd::math::abs(a) as int,
            1,
            vstd::math::abs(b) as int,
        );
        assert(vstd::math::abs(a) as int / 1 == vstd::math::abs(a) as int);
    };
    assert(q >= 0) by (nonlinear_arith)
        requires q == vstd::math::abs(a) as int / vstd::math::abs(b) as int, vstd::math::abs(b)
            >= 1, vstd::math::abs(a) >= 0;
}

} // verus!
