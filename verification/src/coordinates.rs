//! Axial coordinates on a hexagonal grid.
//!
//! A tile is addressed by the axial pair `(q, r)`; the implicit third cube
//! coordinate is `s = -q - r`, so that `q + r + s == 0` always holds. The
//! spec-level model of a coordinate is the pair of unbounded integers
//! obtained through its view.

use crate::message::{invalid_direction_message, invalid_direction_msg};
use crate::rounding::{
    axial_round, iabs, lemma_axial_round_in_window, lemma_mul_bounds, lemma_near_value_bound,
    lemma_rhalf_near, lemma_rhalf_scale, lemma_rhalf_window, rhalf, rhalf_exec, Frac, DEN_MAX,
    NUM_MAX,
};
use vstd::math::abs;
use vstd::math::max;
use vstd::math::min;
use vstd::prelude::*;

verus! {

/// An axial coordinate on the hexagonal grid: column `q`, row `r`.
#[derive(Debug, Clone, Copy, PartialEq, Eq, Structural)]
pub struct Coordinates {
    pub q: i32,
    pub r: i32,
}

impl View for Coordinates {
    type V = (int, int);

    open spec fn view(&self) -> (int, int) {
        (self.q as int, self.r as int)
    }
}

/// One of the six edges of a hex: the owning tile's coordinate plus an edge
/// index in `0..6`.
#[derive(Debug, Clone, Copy, PartialEq, Eq, Structural)]
pub struct EdgeCoordinates {
    pub coord: Coordinates,
    pub index: usize,
}

impl EdgeCoordinates {
    /// A valid edge identifier carries an index within `0..6`.
    pub open spec fn wf(self) -> bool {
        self.index < 6
    }
}

/// Component-wise sum of two axial pairs.
pub open spec fn add_spec(a: (int, int), b: (int, int)) -> (int, int) {
    (a.0 + b.0, a.1 + b.1)
}

/// Component-wise difference of two axial pairs.
pub open spec fn sub_spec(a: (int, int), b: (int, int)) -> (int, int) {
    (a.0 - b.0, a.1 - b.1)
}

/// An axial pair scaled by an integer factor.
pub open spec fn scale_spec(a: (int, int), k: int) -> (int, int) {
    (a.0 * k, a.1 * k)
}

/// Tile distance of the axial pair `(q, r)` from the origin: half the sum of
/// the absolute values of the three cube coordinates.
pub open spec fn length_spec(q: int, r: int) -> int {
    ((abs(q) + abs(r) + abs(q + r)) as int) / 2
}

/// Tile distance between two coordinates.
pub open spec fn distance_spec(a: (int, int), b: (int, int)) -> int {
    length_spec(a.0 - b.0, a.1 - b.1)
}

/// The six unit direction vectors, indexed counter-clockwise starting at
/// East: E, NE, NW, W, SW, SE.
pub open spec fn unit_spec(d: int) -> (int, int) {
    if d == 0 {
        (1, 0)
    } else if d == 1 {
        (1, -1)
    } else if d == 2 {
        (0, -1)
    } else if d == 3 {
        (-1, 0)
    } else if d == 4 {
        (-1, 1)
    } else {
        (0, 1)
    }
}

impl Coordinates {
    /// Create a new Coordinates at the specified location.
    pub fn at(q: i32, r: i32) -> (c: Coordinates)
        ensures
            c@ == (q as int, r as int),
    {
        Coordinates { q, r }
    }

    /// Component-wise sum of two coordinates.
    pub fn add(self, rhs: Coordinates) -> (c: Coordinates)
        requires
            i32::MIN <= self.q + rhs.q <= i32::MAX,
            i32::MIN <= self.r + rhs.r <= i32::MAX,
        ensures
            c@ == add_spec(self@, rhs@),
    {
        Coordinates { q: self.q + rhs.q, r: self.r + rhs.r }
    }

    /// Component-wise difference of two coordinates.
    pub fn sub(self, rhs: Coordinates) -> (c: Coordinates)
        requires
            i32::MIN <= self.q - rhs.q <= i32::MAX,
            i32::MIN <= self.r - rhs.r <= i32::MAX,
        ensures
            c@ == sub_spec(self@, rhs@),
    {
        Coordinates { q: self.q - rhs.q, r: self.r - rhs.r }
    }

    /// Both components scaled by an integer factor.
    pub fn mul(self, rhs: i32) -> (c: Coordinates)
        requires
            i32::MIN <= self.q * rhs <= i32::MAX,
            i32::MIN <= self.r * rhs <= i32::MAX,
        ensures
            c@ == scale_spec(self@, rhs as int),
    {
        Coordinates { q: self.q * rhs, r: self.r * rhs }
    }

    /// Obtain a unit vector, in direction 'd' (range 0..6).
    ///
    /// Out-of-range directions are rejected with a message naming the value.
    pub fn unit(d: usize) -> (u: Result<Coordinates, String>)
        ensures
            d < 6 ==> (u matches Ok(c) && c@ == unit_spec(d as int)),
            d >= 6 ==> (u matches Err(m) && m@ == invalid_direction_msg(d as int)),
    {
        if d < 6 {
            let c = if d == 0 {
                Coordinates { q: 1, r: 0 }
            } else if d == 1 {
                Coordinates { q: 1, r: -1 }
            } else if d == 2 {
                Coordinates { q: 0, r: -1 }
            } else if d == 3 {
                Coordinates { q: -1, r: 0 }
            } else if d == 4 {
                Coordinates { q: -1, r: 1 }
            } else {
                Coordinates { q: 0, r: 1 }
            };
            Ok(c)
        } else {
            Err(invalid_direction_message(d))
        }
    }

    /// Get a neighbour grid in direction 'd' (range 0..6).
    ///
    /// Out-of-range directions are rejected with the same message as
    /// [`Coordinates::unit`].
    pub fn neighbour(&self, d: usize) -> (n: Result<Coordinates, String>)
        requires
            d < 6 ==> i32::MIN <= self.q + unit_spec(d as int).0 <= i32::MAX,
            d < 6 ==> i32::MIN <= self.r + unit_spec(d as int).1 <= i32::MAX,
        ensures
            d < 6 ==> (n matches Ok(c) && c@ == add_spec(self@, unit_spec(d as int))),
            d >= 6 ==> (n matches Err(m) && m@ == invalid_direction_msg(d as int)),
    {
        match Coordinates::unit(d) {
            Ok(u) => Ok((*self).add(u)),
            Err(e) => Err(e),
        }
    }

    /// Snap a fractional axial coordinate onto the hexagonal lattice.
    ///
    /// Each of the cube components `q`, `r` and `s = -q - r` is rounded to
    /// its nearest integer (ties away from zero); whichever of the three took
    /// the largest rounding error is recomputed from the other two, `q` being
    /// discarded first on ties, then `r`, then `s`, so the resulting cube
    /// coordinates sum to zero again. [`axial_round`] states the outcome
    /// exactly.
    pub fn round(q: Frac, r: Frac) -> (c: Coordinates)
        requires
            q.wf(),
            r.wf(),
            i32::MIN <= axial_round(q.num as int, q.den as int, r.num as int, r.den as int).0
                <= i32::MAX,
            i32::MIN <= axial_round(q.num as int, q.den as int, r.num as int, r.den as int).1
                <= i32::MAX,
        ensures
            c@ == axial_round(q.num as int, q.den as int, r.num as int, r.den as int),
    {
        let qn = q.num;
        let qd = q.den;
        let rn = r.num;
        let rd = r.den;
        proof {
            lemma_mul_bounds(qn as int, NUM_MAX as int, rd as int, DEN_MAX as int);
            lemma_mul_bounds(rn as int, NUM_MAX as int, qd as int, DEN_MAX as int);
            lemma_mul_bounds(qd as int, DEN_MAX as int, rd as int, DEN_MAX as int);
            assert(0 < qd * rd) by (nonlinear_arith)
                requires
                    0 < qd,
                    0 < rd,
            ;
        }
        let sn = -(qn * rd + rn * qd);
        let sd = qd * rd;
        let rq = rhalf_exec(qn, qd);
        let rr = rhalf_exec(rn, rd);
        let rs = rhalf_exec(sn, sd);
        proof {
            lemma_rhalf_near(qn as int, qd as int);
            lemma_rhalf_near(rn as int, rd as int);
            lemma_rhalf_near(sn as int, sd as int);
            lemma_near_value_bound(rq as int, qd as int, qn as int);
            lemma_near_value_bound(rr as int, rd as int, rn as int);
            lemma_near_value_bound(rs as int, sd as int, sn as int);
        }
        let tq = rq * qd - qn;
        let eq = if tq >= 0 {
            tq
        } else {
            -tq
        };
        let tr = rr * rd - rn;
        let er = if tr >= 0 {
            tr
        } else {
            -tr
        };
        let ts = rs * sd - sn;
        let es = if ts >= 0 {
            ts
        } else {
            -ts
        };
        proof {
            lemma_mul_bounds(eq as int, DEN_MAX as int, rd as int, DEN_MAX as int);
            lemma_mul_bounds(er as int, DEN_MAX as int, qd as int, DEN_MAX as int);
        }
        let (cq, cr) = if eq * rd > er * qd && eq * rd > es {
            (-rr - rs, rr)
        } else if er * qd > es {
            (rq, -rq - rs)
        } else {
            (rq, rr)
        };
        proof {
            assert((cq as int, cr as int) == axial_round(
                qn as int,
                qd as int,
                rn as int,
                rd as int,
            ));
        }
        Coordinates { q: cq as i32, r: cr as i32 }
    }

    /// Coordinates sequence composing a line to the specified location.
    ///
    /// The line holds `self.distance_to(rhs) + 1` tiles, starts at `self`
    /// and ends at `rhs`; every tile is the exact interpolation between the
    /// endpoints snapped onto the lattice ([`line_point`]), with a
    /// one-millionth offset on the q component breaking edge ties
    /// deterministically. The distance cap keeps the interpolation
    /// numerators inside the machine word, and the one-tile margin on the
    /// endpoint components is needed because the lattice snap may overshoot
    /// the endpoint box by one tile.
    pub fn line_to(&self, rhs: Coordinates) -> (line: Vec<Coordinates>)
        requires
            distance_spec(self@, rhs@) <= 1000000,
            i32::MIN + 1 <= self.q <= i32::MAX - 1,
            i32::MIN + 1 <= self.r <= i32::MAX - 1,
            i32::MIN + 1 <= rhs.q <= i32::MAX - 1,
            i32::MIN + 1 <= rhs.r <= i32::MAX - 1,
        ensures
            line@.len() == distance_spec(self@, rhs@) + 1,
            line@[0] == *self,
            line@[distance_spec(self@, rhs@)] == rhs,
            forall|i: int|
                0 <= i <= distance_spec(self@, rhs@) && distance_spec(self@, rhs@) > 0
                    ==> (#[trigger] line@[i])@ == line_point(
                    self@,
                    rhs@,
                    distance_spec(self@, rhs@),
                    i,
                ),
    {
        let dist = self.distance_to(rhs);
        let mut line: Vec<Coordinates> = Vec::new();
        if dist == 0 {
            line.push(*self);
            return line;
        }
        let n = dist as i128;
        let e: i128 = 1000000;
        let qa = self.q as i128;
        let ra = self.r as i128;
        let dq = rhs.q as i128 - qa;
        let dr = rhs.r as i128 - ra;
        proof {
            lemma_span_le_distance(self@, rhs@);
        }
        let qden = n * e;
        let mut i: i128 = 0;
        while i <= n
            invariant
                1 <= n <= 1000000,
                n == distance_spec(self@, rhs@),
                qa == self.q,
                ra == self.r,
                dq == rhs.q - self.q,
                dr == rhs.r - self.r,
                iabs(dq as int) <= n,
                iabs(dr as int) <= n,
                e == 1000000,
                qden == n * 1000000,
                i32::MIN + 1 <= self.q <= i32::MAX - 1,
                i32::MIN + 1 <= self.r <= i32::MAX - 1,
                i32::MIN + 1 <= rhs.q <= i32::MAX - 1,
                i32::MIN + 1 <= rhs.r <= i32::MAX - 1,
                0 <= i <= n + 1,
                line@.len() == i,
                forall|j: int|
                    0 <= j < i ==> (#[trigger] line@[j])@ == line_point(
                        self@,
                        rhs@,
                        n as int,
                        j,
                    ),
            decreases n + 1 - i,
        {
            proof {
                assert(-0x8000_0000 * 1000000 <= qa * e <= 0x8000_0000 * 1000000)
                    by (nonlinear_arith)
                    requires
                        -0x8000_0000 <= qa <= 0x8000_0000,
                        e == 1000000,
                ;
                assert(-0x100_0000_0000_0000_0000 <= (qa * e + 1) * n <= 0x100_0000_0000_0000_0000)
                    by (nonlinear_arith)
                    requires
                        -0x8000_0000 * 1000000 - 1 <= qa * e <= 0x8000_0000 * 1000000 + 1,
                        1 <= n <= 1000000,
                ;
                assert(-0x1000_0000_0000_0000 <= dq * e * i <= 0x1000_0000_0000_0000)
                    by (nonlinear_arith)
                    requires
                        -1000000 <= dq <= 1000000,
                        e == 1000000,
                        0 <= i <= 1000001,
                ;
                assert(-0x1000_0000_0000_0000 <= ra * n <= 0x1000_0000_0000_0000)
                    by (nonlinear_arith)
                    requires
                        -0x8000_0000 <= ra <= 0x8000_0000,
                        1 <= n <= 1000000,
                ;
                assert(-0x1_0000_0000_0000 <= dr * i <= 0x1_0000_0000_0000) by (nonlinear_arith)
                    requires
                        -1000000 <= dr <= 1000000,
                        0 <= i <= 1000001,
                ;
            }
            let qnum = (qa * e + 1) * n + dq * e * i;
            let rnum = ra * n + dr * i;
            proof {
                lemma_line_point_in_range(self@, rhs@, n as int, i as int);
                assert(qnum == lerp_q_num(self@, rhs@, n as int, i as int));
                assert(rnum == lerp_r_num(self@, rhs@, n as int, i as int));
            }
            let c = Coordinates::round(
                Frac { num: qnum, den: qden },
                Frac { num: rnum, den: n },
            );
            line.push(c);
            i = i + 1;
        }
        proof {
            lemma_line_ends(self@, rhs@, n as int);
            assert(line@[0]@ == self@);
            assert(line@[n as int]@ == rhs@);
        }
        line
    }

    /// Get the distance from origin, in tiles.
    ///
    /// Non-negative, and zero exactly at the origin.
    pub fn length(&self) -> (l: i32)
        requires
            length_spec(self.q as int, self.r as int) <= i32::MAX,
        ensures
            l == length_spec(self.q as int, self.r as int),
            l >= 0,
            l == 0 <==> (self.q == 0 && self.r == 0),
    {
        let l = cube_norm(self.q as i64, self.r as i64);
        l as i32
    }

    /// Get the distance to another grid, in tiles.
    ///
    /// Non-negative, and zero exactly when the coordinates are equal.
    pub fn distance_to(&self, rhs: Coordinates) -> (d: i32)
        requires
            distance_spec(self@, rhs@) <= i32::MAX,
        ensures
            d == distance_spec(self@, rhs@),
            d >= 0,
            d == 0 <==> *self == rhs,
    {
        let d = cube_norm(self.q as i64 - rhs.q as i64, self.r as i64 - rhs.r as i64);
        d as i32
    }
}

/// Half the sum of the absolute values of the cube coordinates spanned by the
/// axial pair `(q, r)`, computed in wide arithmetic.
fn cube_norm(q: i64, r: i64) -> (l: i64)
    requires
        -0x1_0000_0000 <= q <= 0x1_0000_0000,
        -0x1_0000_0000 <= r <= 0x1_0000_0000,
    ensures
        l == length_spec(q as int, r as int),
        l >= 0,
        l == 0 <==> (q == 0 && r == 0),
{
    let s = -q - r;
    let aq = if q >= 0 { q } else { -q };
    let ar = if r >= 0 { r } else { -r };
    let as_ = if s >= 0 { s } else { -s };
    let sum = (aq + ar + as_) as u64;
    let l = (sum / 2) as i64;
    proof {
        assert(aq + ar + as_ == abs(q as int) + abs(r as int) + abs(q + r));
        assert(l == length_spec(q as int, r as int));
        assert((q != 0 || r != 0) ==> aq + ar + as_ >= 2);
    }
    l
}

/// Numerator of the q interpolation at step `i` of `n`, over the denominator
/// `n * 1000000`: the exact value `a.0 + 1/1000000 + (b.0 - a.0) * i / n`.
/// The added millionth is the deterministic tie-breaker that pushes
/// interpolated points falling exactly on a cell edge consistently to one
/// side; it is applied to the q component only.
pub open spec fn lerp_q_num(a: (int, int), b: (int, int), n: int, i: int) -> int {
    (a.0 * 1000000 + 1) * n + (b.0 - a.0) * 1000000 * i
}

/// Numerator of the r interpolation at step `i` of `n`, over the denominator
/// `n`: the exact value `a.1 + (b.1 - a.1) * i / n`.
pub open spec fn lerp_r_num(a: (int, int), b: (int, int), n: int, i: int) -> int {
    a.1 * n + (b.1 - a.1) * i
}

/// The `i`-th tile of the hexagonal line from `a` to `b`, drawn in `n`
/// steps: the exact interpolation between the endpoints, snapped onto the
/// lattice.
pub open spec fn line_point(a: (int, int), b: (int, int), n: int, i: int) -> (int, int) {
    axial_round(lerp_q_num(a, b, n, i), n * 1000000, lerp_r_num(a, b, n, i), n)
}

/// Neither axial component of the difference between two coordinates exceeds
/// their tile distance.
pub proof fn lemma_span_le_distance(a: (int, int), b: (int, int))
    ensures
        iabs(b.0 - a.0) <= distance_spec(a, b),
        iabs(b.1 - a.1) <= distance_spec(a, b),
{
    let s = (abs(a.0 - b.0) + abs(a.1 - b.1) + abs(a.0 - b.0 + (a.1 - b.1))) as int;
    assert(s >= 2 * iabs(b.0 - a.0));
    assert(s >= 2 * iabs(b.1 - a.1));
    vstd::arithmetic::div_mod::lemma_div_is_ordered(2 * iabs(b.0 - a.0), s, 2);
    vstd::arithmetic::div_mod::lemma_div_is_ordered(2 * iabs(b.1 - a.1), s, 2);
}

/// An integer lattice point carried to the interpolation fractions rounds
/// back to itself: each cube component of the fraction sits strictly within
/// half a tile of the lattice point's (the tie-breaking millionth being far
/// below one half).
proof fn lemma_lattice_point_rounds(v: (int, int), n: int)
    requires
        1 <= n,
    ensures
        axial_round((v.0 * 1000000 + 1) * n, n * 1000000, v.1 * n, n) == v,
{
    let qn = (v.0 * 1000000 + 1) * n;
    let qd = n * 1000000;
    let rn = v.1 * n;
    let rd = n;
    let sn = -(qn * rd + rn * qd);
    let sd = qd * rd;
    lemma_rhalf_scale(v.0 * 1000000 + 1, 1000000, n);
    lemma_rhalf_window(v.0 * 1000000 + 1, 1000000, v.0);
    assert(rhalf(qn, qd) == v.0);
    lemma_rhalf_scale(v.1, 1, n);
    lemma_rhalf_window(v.1, 1, v.1);
    assert(rhalf(rn, rd) == v.1);
    let c0 = -(v.0 * 1000000 + 1 + v.1 * 1000000);
    assert(-((((v.0 * 1000000 + 1) * n) * n) + ((v.1 * n) * (n * 1000000))) == (n * n) * (-(v.0
        * 1000000 + 1 + v.1 * 1000000))) by (nonlinear_arith);
    assert(sn == (n * n) * c0);
    assert((n * 1000000) * n == (n * n) * 1000000) by (nonlinear_arith);
    assert(sd == (n * n) * 1000000);
    assert(0 < n * n) by (nonlinear_arith)
        requires
            1 <= n,
    ;
    lemma_rhalf_scale(c0, 1000000, n * n);
    lemma_rhalf_window(c0, 1000000, -v.0 - v.1);
    assert(rhalf(sn, sd) == -v.0 - v.1);
    assert(axial_round(qn, qd, rn, rd) == (v.0, v.1));
}

/// The first and last tiles of a line are its endpoints.
pub proof fn lemma_line_ends(a: (int, int), b: (int, int), n: int)
    requires
        1 <= n,
    ensures
        line_point(a, b, n, 0) == a,
        line_point(a, b, n, n) == b,
{
    assert(lerp_q_num(a, b, n, 0) == (a.0 * 1000000 + 1) * n);
    assert(lerp_r_num(a, b, n, 0) == a.1 * n);
    lemma_lattice_point_rounds(a, n);
    assert((a.0 * 1000000 + 1) * n + (b.0 - a.0) * 1000000 * n == (b.0 * 1000000 + 1) * n)
        by (nonlinear_arith);
    assert(lerp_q_num(a, b, n, n) == (b.0 * 1000000 + 1) * n);
    assert(a.1 * n + (b.1 - a.1) * n == b.1 * n) by (nonlinear_arith);
    assert(lerp_r_num(a, b, n, n) == b.1 * n);
    lemma_lattice_point_rounds(b, n);
}

/// Every tile of a line lies within one step of the axial bounding box of
/// the endpoints: the interpolated fraction stays inside the box, and the
/// lattice snap moves a point by at most one tile in each component.
pub proof fn lemma_line_point_in_range(a: (int, int), b: (int, int), n: int, i: int)
    requires
        1 <= n,
        0 <= i <= n,
    ensures
        min(a.0, b.0) - 1 <= line_point(a, b, n, i).0 <= max(a.0, b.0) + 1,
        min(a.1, b.1) - 1 <= line_point(a, b, n, i).1 <= max(a.1, b.1) + 1,
{
    let lo_q = min(a.0, b.0);
    let hi_q = max(a.0, b.0);
    let lo_r = min(a.1, b.1);
    let hi_r = max(a.1, b.1);
    assert(2 * ((a.0 * 1000000 + 1) * n + (b.0 - a.0) * 1000000 * i) > (2 * lo_q - 1) * (n
        * 1000000) && 2 * ((a.0 * 1000000 + 1) * n + (b.0 - a.0) * 1000000 * i) < (2 * hi_q + 1) * (
    n * 1000000)) by (nonlinear_arith)
        requires
            1 <= n,
            0 <= i <= n,
            lo_q <= a.0 <= hi_q,
            lo_q <= b.0 <= hi_q,
    ;
    assert(2 * (a.1 * n + (b.1 - a.1) * i) > (2 * lo_r - 1) * n && 2 * (a.1 * n + (b.1 - a.1) * i)
        < (2 * hi_r + 1) * n) by (nonlinear_arith)
        requires
            1 <= n,
            0 <= i <= n,
            lo_r <= a.1 <= hi_r,
            lo_r <= b.1 <= hi_r,
    ;
    lemma_axial_round_in_window(
        lerp_q_num(a, b, n, i),
        n * 1000000,
        lerp_r_num(a, b, n, i),
        n,
        lo_q,
        hi_q,
        lo_r,
        hi_r,
    );
}

/// Adding a coordinate and then subtracting it again is the identity:
/// `(a + b) - b == a` for all axial pairs.
pub proof fn lemma_add_sub_cancel(a: (int, int), b: (int, int))
    ensures
        sub_spec(add_spec(a, b), b) == a,
{
}

/// Scaling by one changes nothing: `(a + b) * 1 == a + b` for all axial pairs.
pub proof fn lemma_scale_one(a: (int, int), b: (int, int))
    ensures
        scale_spec(add_spec(a, b), 1) == add_spec(a, b),
{
}

/// The distance from the origin is symmetric under negating both components:
/// the cube coordinates of `(-q, -r)` are the negated cube coordinates of
/// `(q, r)`, so their absolute values agree.
pub proof fn lemma_length_negate(q: int, r: int)
    ensures
        length_spec(-q, -r) == length_spec(q, r),
{
}

/// Tile distance is symmetric: `a.distance_to(b) == b.distance_to(a)`.
pub proof fn lemma_distance_symmetric(a: (int, int), b: (int, int))
    ensures
        distance_spec(a, b) == distance_spec(b, a),
{
    lemma_length_negate(a.0 - b.0, a.1 - b.1);
}

} // verus!
