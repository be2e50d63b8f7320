//! Fixed-point arithmetic core.
//!
//! Every quantity in the panel is an `i128` holding the underlying value
//! scaled by `SCALE` (six decimal places). The operations here are total:
//! divisions are guarded (a zero divisor yields zero) and quotients are
//! clamped to a fixed magnitude, so the pipeline can never panic or
//! overflow whatever the input data holds.

use vstd::prelude::*;

verus! {

/// Fixed-point scale: values carry six decimal places.
pub const SCALE: i128 = 1000000;

/// Largest magnitude a stored metric or ratio may take (10^12 before scaling).
pub const VAL_MAX: i128 = 1000000000000000000;

/// Largest magnitude a running price sum may take before saturating.
pub const SUM_MAX: i128 = 1000000000000000000000000000000000000;

/// Clamp bound for percent changes: ratios are scaled by a further 100.
pub const PCT_MAX: i128 = 100000000000000000000;

/// Bound under which all intermediate `i128` arithmetic here stays exact.
pub const CAP: i128 = 10000000000000000000000000000000000000;

pub open spec fn iabs(x: int) -> int {
    if x < 0 {
        -x
    } else {
        x
    }
}

/// Clamp `x` into `[-m, m]`.
pub open spec fn clamp_s(x: int, m: int) -> int {
    if x > m {
        m
    } else if x < -m {
        -m
    } else {
        x
    }
}

/// Truncating division (round toward zero), as machine division does it.
pub open spec fn div_t(a: int, b: int) -> int
    recommends
        b != 0,
{
    if (a < 0) == (b < 0) {
        iabs(a) / iabs(b)
    } else {
        -(iabs(a) / iabs(b))
    }
}

/// `|a| <= am` and `|b| <= bm` bound the product by `am * bm`.
proof fn lemma_mul_bound(a: int, b: int, am: int, bm: int)
    requires
        iabs(a) <= am,
        iabs(b) <= bm,
        0 <= am,
        0 <= bm,
    ensures
        iabs(a * b) <= am * bm,
{
    assert(iabs(a * b) <= am * bm) by (nonlinear_arith)
        requires
            iabs(a) <= am,
            iabs(b) <= bm,
            0 <= am,
            0 <= bm,
    ;
}

/// A truncating quotient is no larger in magnitude than its dividend.
proof fn lemma_div_le(a: int, b: int)
    requires
        b != 0,
    ensures
        iabs(div_t(a, b)) <= iabs(a),
{
    assert(iabs(a) / iabs(b) <= iabs(a)) by (nonlinear_arith)
        requires
            iabs(a) >= 0,
            iabs(b) >= 1,
    ;
}

/// Truncating division with the quotient clamped into `[-m, m]`.
fn div_clamped(a: i128, b: i128, m: i128) -> (r: i128)
    requires
        b != 0,
        iabs(a as int) <= CAP,
        iabs(b as int) <= CAP,
        0 < m <= CAP,
    ensures
        r as int == clamp_s(div_t(a as int, b as int), m as int),
{
    let neg: bool = (a < 0) != (b < 0);
    let am: u128 = if a < 0 {
        (-a) as u128
    } else {
        a as u128
    };
    let bm: u128 = if b < 0 {
        (-b) as u128
    } else {
        b as u128
    };
    let q: u128 = am / bm;
    let qc: u128 = if q > (m as u128) {
        m as u128
    } else {
        q
    };
    if neg {
        -(qc as i128)
    } else {
        qc as i128
    }
}

/// Guarded scaled ratio `a / b`: zero when `b` is zero, else the
/// fixed-point quotient clamped to `VAL_MAX`.
pub open spec fn ratio_s(a: int, b: int) -> int {
    if b == 0 {
        0
    } else {
        clamp_s(div_t(a * SCALE, b), VAL_MAX as int)
    }
}

pub fn ratio_guarded(a: i128, b: i128) -> (r: i128)
    requires
        iabs(a as int) <= 4 * VAL_MAX,
        iabs(b as int) <= SUM_MAX,
    ensures
        r as int == ratio_s(a as int, b as int),
        iabs(r as int) <= VAL_MAX,
{
    if b == 0 {
        0
    } else {
        proof {
            lemma_mul_bound(a as int, SCALE as int, 4 * VAL_MAX, SCALE as int);
        }
        div_clamped(a * SCALE, b, VAL_MAX)
    }
}

/// Return on assets from the guarded profit margin: `pm * revenue / assets`,
/// zero when `assets` is zero, clamped to `VAL_MAX`.
pub open spec fn roa_s(pm: int, revenue: int, assets: int) -> int {
    if assets == 0 {
        0
    } else {
        clamp_s(div_t(pm * revenue, assets), VAL_MAX as int)
    }
}

pub fn roa_from(pm: i128, revenue: i128, assets: i128) -> (r: i128)
    requires
        iabs(pm as int) <= VAL_MAX,
        iabs(revenue as int) <= VAL_MAX,
        iabs(assets as int) <= VAL_MAX,
    ensures
        r as int == roa_s(pm as int, revenue as int, assets as int),
        iabs(r as int) <= VAL_MAX,
{
    if assets == 0 {
        0
    } else {
        proof {
            lemma_mul_bound(pm as int, revenue as int, VAL_MAX as int, VAL_MAX as int);
        }
        div_clamped(pm * revenue, assets, VAL_MAX)
    }
}

/// Percent change from an early-bucket average to a late-bucket average:
/// `(la - fa) / fa * 100`, zero when `fa` is zero, clamped to `PCT_MAX`.
pub open spec fn pct_change_s(fa: int, la: int) -> int {
    if fa == 0 {
        0
    } else {
        clamp_s(div_t((la - fa) * (100 * SCALE), fa), PCT_MAX as int)
    }
}

pub fn pct_change(fa: i128, la: i128) -> (r: i128)
    requires
        iabs(fa as int) <= VAL_MAX,
        iabs(la as int) <= VAL_MAX,
    ensures
        r as int == pct_change_s(fa as int, la as int),
        iabs(r as int) <= PCT_MAX,
{
    if fa == 0 {
        0
    } else {
        proof {
            lemma_mul_bound((la - fa) as int, (100 * SCALE) as int, 2 * VAL_MAX, (100 * SCALE) as int);
        }
        div_clamped((la - fa) * (100 * SCALE), fa, PCT_MAX)
    }
}

/// Saturating addition for running sums, clamped to `SUM_MAX`.
pub open spec fn sat_add_s(a: int, b: int) -> int {
    clamp_s(a + b, SUM_MAX as int)
}

pub fn sat_add(a: i128, b: i128) -> (r: i128)
    requires
        iabs(a as int) <= SUM_MAX,
        iabs(b as int) <= SUM_MAX,
    ensures
        r as int == sat_add_s(a as int, b as int),
        iabs(r as int) <= SUM_MAX,
{
    let s: i128 = a + b;
    if s > SUM_MAX {
        SUM_MAX
    } else if s < -SUM_MAX {
        -SUM_MAX
    } else {
        s
    }
}

/// Average of a saturated sum over a positive count, clamped to `VAL_MAX`.
pub open spec fn avg_s(sum: int, cnt: int) -> int
    recommends
        cnt > 0,
{
    clamp_s(div_t(sum, cnt), VAL_MAX as int)
}

pub fn avg_clamped(sum: i128, cnt: i128) -> (r: i128)
    requires
        iabs(sum as int) <= SUM_MAX,
        0 < cnt <= CAP,
    ensures
        r as int == avg_s(sum as int, cnt as int),
        iabs(r as int) <= VAL_MAX,
{
    div_clamped(sum, cnt, VAL_MAX)
}

/// Fixed-point product of two deltas: `a * b / SCALE`, truncating.
pub open spec fn mul_fx_s(a: int, b: int) -> int {
    div_t(a * b, SCALE as int)
}

pub fn mul_fx(a: i128, b: i128) -> (r: i128)
    requires
        iabs(a as int) <= 2 * VAL_MAX,
        iabs(b as int) <= 2 * VAL_MAX,
    ensures
        r as int == mul_fx_s(a as int, b as int),
        iabs(r as int) <= CAP,
{
    proof {
        lemma_mul_bound(a as int, b as int, 2 * VAL_MAX, 2 * VAL_MAX);
        assert((2 * VAL_MAX as int) * (2 * VAL_MAX as int) <= CAP as int) by (nonlinear_arith);
        lemma_div_le((a * b) as int, SCALE as int);
    }
    div_clamped(a * b, SCALE, CAP)
}

} // verus!
