//! Exact rounding of fractional axial coordinates.
//!
//! A fractional axial coordinate is carried as an exact fraction ([`Frac`]),
//! so the snap-to-grid rounding of the hexagonal lattice can be computed and
//! reasoned about in integer arithmetic alone. [`axial_round`] is the
//! mathematical definition of the rounding step: round each of `q`, `r` and
//! `s = -q - r` to the nearest integer (ties away from zero, as the usual
//! floating-point `round` does), then recompute whichever of the three took
//! the largest rounding error from the other two, preferring to discard `q`
//! first, then `r`, then `s`. All comparisons between rounding errors are
//! phrased over cross-multiplied integers, never over quotients.

use vstd::arithmetic::div_mod::{
    lemma_div_denominator, lemma_div_multiples_vanish, lemma_fundamental_div_mod,
};
use vstd::prelude::*;

verus! {

/// Largest numerator magnitude a well-formed [`Frac`] may carry.
pub const NUM_MAX: i128 = 0x1000_0000_0000_0000_0000;

/// Largest denominator a well-formed [`Frac`] may carry.
pub const DEN_MAX: i128 = 0x8000_0000_0000;

/// An exact fraction `num / den`, used for fractional axial coordinates.
///
/// The bounds in [`Frac::wf`] keep every product formed while rounding a pair
/// of fractions (numerators times foreign denominators, and denominator
/// products) inside the 128-bit machine word.
#[derive(Debug, Clone, Copy)]
pub struct Frac {
    pub num: i128,
    pub den: i128,
}

impl Frac {
    /// A well-formed fraction: positive denominator, both fields bounded.
    pub open spec fn wf(self) -> bool {
        &&& 0 < self.den <= DEN_MAX
        &&& -NUM_MAX <= self.num <= NUM_MAX
    }

    /// The exact fraction `num / den`.
    ///
    /// The denominator bound keeps the cross products formed while rounding
    /// inside the 128-bit machine word.
    pub fn new(num: i64, den: i64) -> (f: Frac)
        requires
            0 < den <= DEN_MAX,
        ensures
            f.wf(),
            f.num == num,
            f.den == den,
    {
        Frac { num: num as i128, den: den as i128 }
    }
}

/// Absolute value, kept in `int`.
pub open spec fn iabs(n: int) -> int {
    if n >= 0 {
        n
    } else {
        -n
    }
}

/// `n / d` rounded to the nearest integer, ties away from zero.
pub open spec fn rhalf(n: int, d: int) -> int {
    if n >= 0 {
        (2 * n + d) / (2 * d)
    } else {
        -((2 * (-n) + d) / (2 * d))
    }
}

/// The hexagonal rounding of the fractional axial pair
/// `(qn / qd, rn / rd)`, as the pair of resulting integer coordinates.
pub open spec fn axial_round(qn: int, qd: int, rn: int, rd: int) -> (int, int) {
    let sn = -(qn * rd + rn * qd);
    let sd = qd * rd;
    let rq = rhalf(qn, qd);
    let rr = rhalf(rn, rd);
    let rs = rhalf(sn, sd);
    let eq = iabs(rq * qd - qn);
    let er = iabs(rr * rd - rn);
    let es = iabs(rs * sd - sn);
    if eq * rd > er * qd && eq * rd > es {
        (-rr - rs, rr)
    } else if er * qd > es {
        (rq, -rq - rs)
    } else {
        (rq, rr)
    }
}

/// Rounding to the nearest integer is off by at most one half:
/// `2 * |rhalf(n, d) * d - n| <= d`.
pub proof fn lemma_rhalf_near(n: int, d: int)
    requires
        0 < d,
    ensures
        2 * iabs(rhalf(n, d) * d - n) <= d,
{
    if n >= 0 {
        lemma_rhalf_near_nonneg(n, d);
    } else {
        lemma_rhalf_near_nonneg(-n, d);
        let a = rhalf(-n, d);
        assert(rhalf(n, d) == -a);
        assert((-a) * d - n == -(a * d - (-n))) by (nonlinear_arith);
    }
}

proof fn lemma_rhalf_near_nonneg(n: int, d: int)
    requires
        0 < d,
        0 <= n,
    ensures
        2 * iabs(rhalf(n, d) * d - n) <= d,
{
    let m = 2 * n + d;
    let dd = 2 * d;
    lemma_fundamental_div_mod(m, dd);
    let k = m / dd;
    let rem = m % dd;
    assert(m == dd * k + rem);
    assert(0 <= rem < dd);
    assert((2 * d) * k == 2 * (k * d)) by (nonlinear_arith);
    assert(2 * (k * d - n) == d - rem);
}

/// If `n / d` lies strictly below `h + 1/2` then it rounds to at most `h`.
pub proof fn lemma_rhalf_le(n: int, d: int, h: int)
    requires
        0 < d,
        2 * n < (2 * h + 1) * d,
    ensures
        rhalf(n, d) <= h,
{
    let v = rhalf(n, d);
    lemma_rhalf_near(n, d);
    assert(2 * (v * d) <= 2 * n + d);
    assert((2 * h + 1) * d + d == (2 * h + 2) * d) by (nonlinear_arith);
    assert(2 * (v * d) < (2 * h + 2) * d);
    assert(v < h + 1) by (nonlinear_arith)
        requires
            0 < d,
            2 * (v * d) < (2 * h + 2) * d,
    ;
}

/// If `n / d` lies strictly above `l - 1/2` then it rounds to at least `l`.
pub proof fn lemma_rhalf_ge(n: int, d: int, l: int)
    requires
        0 < d,
        2 * n > (2 * l - 1) * d,
    ensures
        rhalf(n, d) >= l,
{
    let v = rhalf(n, d);
    lemma_rhalf_near(n, d);
    assert(2 * (v * d) >= 2 * n - d);
    assert((2 * l - 1) * d - d == (2 * l - 2) * d) by (nonlinear_arith);
    assert(2 * (v * d) > (2 * l - 2) * d);
    assert(v > l - 1) by (nonlinear_arith)
        requires
            0 < d,
            2 * (v * d) > (2 * l - 2) * d,
    ;
}

/// A fraction strictly within one half of the integer `a` rounds to `a`.
pub proof fn lemma_rhalf_window(n: int, d: int, a: int)
    requires
        0 < d,
        2 * n > (2 * a - 1) * d,
        2 * n < (2 * a + 1) * d,
    ensures
        rhalf(n, d) == a,
{
    lemma_rhalf_le(n, d, a);
    lemma_rhalf_ge(n, d, a);
}

/// Rounding is unchanged by scaling numerator and denominator alike.
pub proof fn lemma_rhalf_scale(n: int, d: int, k: int)
    requires
        0 < d,
        0 < k,
    ensures
        rhalf(k * n, k * d) == rhalf(n, d),
{
    if n >= 0 {
        assert(k * n >= 0) by (nonlinear_arith)
            requires
                0 < k,
                0 <= n,
        ;
        lemma_rhalf_div_scale(2 * n + d, 2 * d, k);
        assert(2 * (k * n) + k * d == k * (2 * n + d)) by (nonlinear_arith);
        assert(2 * (k * d) == k * (2 * d)) by (nonlinear_arith);
    } else {
        assert(k * n < 0) by (nonlinear_arith)
            requires
                0 < k,
                n < 0,
        ;
        lemma_rhalf_div_scale(2 * (-n) + d, 2 * d, k);
        assert(2 * (-(k * n)) + k * d == k * (2 * (-n) + d)) by (nonlinear_arith);
        assert(2 * (k * d) == k * (2 * d)) by (nonlinear_arith);
    }
}

/// Bounds on a product from bounds on its factors.
pub proof fn lemma_mul_bounds(x: int, xb: int, y: int, yb: int)
    requires
        -xb <= x <= xb,
        0 <= y <= yb,
    ensures
        -(xb * yb) <= x * y <= xb * yb,
{
    assert(-(xb * yb) <= x * y <= xb * yb) by (nonlinear_arith)
        requires
            -xb <= x <= xb,
            0 <= y <= yb,
    ;
}

/// A value whose product with a positive `d` stays within `d / 2` of `n` is
/// itself no larger in magnitude than `|n| + d`.
pub proof fn lemma_near_value_bound(v: int, d: int, n: int)
    requires
        0 < d,
        2 * iabs(v * d - n) <= d,
    ensures
        iabs(v) <= iabs(n) + d,
{
    if v >= 0 {
        assert(v * 1 <= v * d) by (nonlinear_arith)
            requires
                v >= 0,
                1 <= d,
        ;
    } else {
        assert(v * d <= v * 1) by (nonlinear_arith)
            requires
                v < 0,
                1 <= d,
        ;
    }
}

/// Rounding a fractional axial pair whose `q` and `r` components lie
/// strictly within one half beyond the integer windows `[lo_q, hi_q]` and
/// `[lo_r, hi_r]` yields coordinates at most one step outside those windows:
/// the corrected candidate recombines two roundings, each off by at most one
/// half.
pub proof fn lemma_axial_round_in_window(
    qn: int,
    qd: int,
    rn: int,
    rd: int,
    lo_q: int,
    hi_q: int,
    lo_r: int,
    hi_r: int,
)
    requires
        0 < qd,
        0 < rd,
        2 * qn > (2 * lo_q - 1) * qd,
        2 * qn < (2 * hi_q + 1) * qd,
        2 * rn > (2 * lo_r - 1) * rd,
        2 * rn < (2 * hi_r + 1) * rd,
    ensures
        lo_q - 1 <= axial_round(qn, qd, rn, rd).0 <= hi_q + 1,
        lo_r - 1 <= axial_round(qn, qd, rn, rd).1 <= hi_r + 1,
{
    let sn = -(qn * rd + rn * qd);
    let sd = qd * rd;
    assert(0 < qd * rd) by (nonlinear_arith)
        requires
            0 < qd,
            0 < rd,
    ;
    let rq = rhalf(qn, qd);
    let rr = rhalf(rn, rd);
    let rs = rhalf(sn, sd);
    lemma_rhalf_le(qn, qd, hi_q);
    lemma_rhalf_ge(qn, qd, lo_q);
    lemma_rhalf_le(rn, rd, hi_r);
    lemma_rhalf_ge(rn, rd, lo_r);
    lemma_rhalf_near(qn, qd);
    lemma_rhalf_near(rn, rd);
    lemma_rhalf_near(sn, sd);
    // Scale the q and r rounding errors to the common denominator sd.
    assert(2 * (rq * sd - qn * rd) <= sd && -sd <= 2 * (rq * sd - qn * rd)) by (nonlinear_arith)
        requires
            0 < rd,
            sd == qd * rd,
            2 * (rq * qd - qn) <= qd,
            -qd <= 2 * (rq * qd - qn),
    ;
    assert(2 * (rr * sd - rn * qd) <= sd && -sd <= 2 * (rr * sd - rn * qd)) by (nonlinear_arith)
        requires
            0 < qd,
            sd == qd * rd,
            2 * (rr * rd - rn) <= rd,
            -rd <= 2 * (rr * rd - rn),
    ;
    // Scale the q and r windows to the common denominator sd.
    assert(2 * (qn * rd) > (2 * lo_q - 1) * sd && 2 * (qn * rd) < (2 * hi_q + 1) * sd)
        by (nonlinear_arith)
        requires
            0 < rd,
            sd == qd * rd,
            2 * qn > (2 * lo_q - 1) * qd,
            2 * qn < (2 * hi_q + 1) * qd,
    ;
    assert(2 * (rn * qd) > (2 * lo_r - 1) * sd && 2 * (rn * qd) < (2 * hi_r + 1) * sd)
        by (nonlinear_arith)
        requires
            0 < qd,
            sd == qd * rd,
            2 * rn > (2 * lo_r - 1) * rd,
            2 * rn < (2 * hi_r + 1) * rd,
    ;
    // The corrected q candidate recombines the r and s roundings.
    let cq = -rr - rs;
    assert((-rr - rs) * sd == -(rr * sd) - (rs * sd)) by (nonlinear_arith);
    assert(2 * (cq * sd) >= 2 * (qn * rd) - 2 * sd);
    assert(2 * (cq * sd) <= 2 * (qn * rd) + 2 * sd);
    assert((2 * lo_q - 1) * sd - 2 * sd == (2 * lo_q - 3) * sd) by (nonlinear_arith);
    assert((2 * hi_q + 1) * sd + 2 * sd == (2 * hi_q + 3) * sd) by (nonlinear_arith);
    assert(2 * cq > 2 * lo_q - 3 && 2 * cq < 2 * hi_q + 3) by (nonlinear_arith)
        requires
            0 < sd,
            2 * (cq * sd) > (2 * lo_q - 3) * sd,
            2 * (cq * sd) < (2 * hi_q + 3) * sd,
    ;
    assert(lo_q - 1 <= cq <= hi_q + 1);
    // The corrected r candidate recombines the q and s roundings.
    let cr = -rq - rs;
    assert((-rq - rs) * sd == -(rq * sd) - (rs * sd)) by (nonlinear_arith);
    assert(2 * (cr * sd) >= 2 * (rn * qd) - 2 * sd);
    assert(2 * (cr * sd) <= 2 * (rn * qd) + 2 * sd);
    assert((2 * lo_r - 1) * sd - 2 * sd == (2 * lo_r - 3) * sd) by (nonlinear_arith);
    assert((2 * hi_r + 1) * sd + 2 * sd == (2 * hi_r + 3) * sd) by (nonlinear_arith);
    assert(2 * cr > 2 * lo_r - 3 && 2 * cr < 2 * hi_r + 3) by (nonlinear_arith)
        requires
            0 < sd,
            2 * (cr * sd) > (2 * lo_r - 3) * sd,
            2 * (cr * sd) < (2 * hi_r + 3) * sd,
    ;
    assert(lo_r - 1 <= cr <= hi_r + 1);
}

/// `n / d` rounded to the nearest integer, ties away from zero, computed in
/// unsigned wide arithmetic.
pub(crate) fn rhalf_exec(n: i128, d: i128) -> (v: i128)
    requires
        0 < d <= 0x4000_0000_0000_0000_0000_0000,
        -0x1000_0000_0000_0000_0000_0000_0000_0000 <= n <= 0x1000_0000_0000_0000_0000_0000_0000_0000,
    ensures
        v == rhalf(n as int, d as int),
{
    if n >= 0 {
        let nu = n as u128;
        let du = d as u128;
        let k = (2 * nu + du) / (2 * du);
        proof {
            vstd::arithmetic::div_mod::lemma_div_nonincreasing(2 * nu + du, 2 * du);
            vstd::arithmetic::div_mod::lemma_div_pos_is_pos(2 * nu + du, 2 * du);
        }
        k as i128
    } else {
        let nu = (-n) as u128;
        let du = d as u128;
        let k = (2 * nu + du) / (2 * du);
        proof {
            vstd::arithmetic::div_mod::lemma_div_nonincreasing(2 * nu + du, 2 * du);
            vstd::arithmetic::div_mod::lemma_div_pos_is_pos(2 * nu + du, 2 * du);
        }
        -(k as i128)
    }
}

proof fn lemma_rhalf_div_scale(x: int, d: int, k: int)
    requires
        0 <= x,
        0 < d,
        0 < k,
    ensures
        (k * x) / (k * d) == x / d,
{
    lemma_div_multiples_vanish(x, k);
    assert(0 <= k * x) by (nonlinear_arith)
        requires
            0 < k,
            0 <= x,
    ;
    lemma_div_denominator(k * x, k, d);
}

} // verus!
