//! Plane vectors in fixed-point coordinates, with the distance and
//! step arithmetic the filament walk is built on.

use vstd::arithmetic::div_mod::{lemma_div_is_ordered, lemma_div_multiples_vanish};
use vstd::arithmetic::mul::lemma_mul_inequality;
use vstd::prelude::*;

use crate::math::{isqrt, spec_clamp, sqrt_floor, MAX_COORD};

verus! {

/// A 2D vector (or position) in fixed-point coordinates.
#[derive(Clone, Copy, Debug, PartialEq, Eq, Structural)]
pub struct Vec2 {
    pub x: i64,
    pub y: i64,
}

/// Largest step magnitude (in coordinate steps) the walk ever takes at once.
pub const MAX_STEP: i64 = 1_000_000;

impl Vec2 {
    /// Both coordinates lie inside the simulation's coordinate square.
    pub open spec fn in_box(self) -> bool {
        -MAX_COORD <= self.x <= MAX_COORD && -MAX_COORD <= self.y <= MAX_COORD
    }

    pub fn new(x: i64, y: i64) -> (r: Vec2)
        ensures
            r.x == x && r.y == y,
    {
        Vec2 { x, y }
    }

    /// Pull both coordinates back into the coordinate square.
    pub fn clamped(self) -> (r: Vec2)
        ensures
            r.x == spec_clamp(self.x as int, -MAX_COORD as int, MAX_COORD as int),
            r.y == spec_clamp(self.y as int, -MAX_COORD as int, MAX_COORD as int),
            r.in_box(),
    {
        Vec2 { x: crate::math::clamp_i64(self.x, -MAX_COORD, MAX_COORD), y: crate::math::clamp_i64(self.y, -MAX_COORD, MAX_COORD) }
    }
}

/// Squared Euclidean distance between `a` and `b`.
pub open spec fn dist2(a: Vec2, b: Vec2) -> int {
    (a.x - b.x) * (a.x - b.x) + (a.y - b.y) * (a.y - b.y)
}

/// Euclidean distance between `a` and `b`, rounded down.
pub open spec fn dist(a: Vec2, b: Vec2) -> nat {
    sqrt_floor(dist2(a, b) as nat)
}

/// A square is never negative, so `dist2` is not either.
pub proof fn lemma_dist2_nonneg(a: Vec2, b: Vec2)
    ensures
        dist2(a, b) >= 0,
{
    let dx = a.x - b.x;
    let dy = a.y - b.y;
    assert(dx * dx >= 0 && dy * dy >= 0) by (nonlinear_arith);
}

/// The distance between two positions is at least the offset along each axis.
pub proof fn lemma_dist_ge_components(a: Vec2, b: Vec2)
    ensures
        dist(a, b) >= vstd::math::abs(a.x - b.x),
        dist(a, b) >= vstd::math::abs(a.y - b.y),
{
    let dx = a.x - b.x;
    let dy = a.y - b.y;
    let ax = vstd::math::abs(dx);
    let ay = vstd::math::abs(dy);
    assert(ax * ax == dx * dx && ay * ay == dy * dy && dx * dx >= 0 && dy * dy >= 0)
        by (nonlinear_arith)
        requires
            ax == dx || ax == -dx,
            ay == dy || ay == -dy,
    ;
    crate::math::lemma_sqrt_floor_of_square(ax);
    crate::math::lemma_sqrt_floor_of_square(ay);
    crate::math::lemma_sqrt_floor_monotone((ax * ax) as nat, dist2(a, b) as nat);
    crate::math::lemma_sqrt_floor_monotone((ay * ay) as nat, dist2(a, b) as nat);
}

/// Euclidean distance between two in-box positions, rounded down.
pub fn distance(a: Vec2, b: Vec2) -> (r: u64)
    requires
        a.in_box(),
        b.in_box(),
    ensures
        r == dist(a, b),
        r <= 3_000_000_000,
{
    let dx: i64 = a.x - b.x;
    let dy: i64 = a.y - b.y;
    proof {
        assert(0 <= dx * dx <= 4_000_000_000_000_000_000 && 0 <= dy * dy
            <= 4_000_000_000_000_000_000) by (nonlinear_arith)
            requires
                -2_000_000_000 <= dx <= 2_000_000_000,
                -2_000_000_000 <= dy <= 2_000_000_000,
        ;
    }
    let d2: u64 = (dx * dx) as u64 + (dy * dy) as u64;
    let r = isqrt(d2);
    proof {
        assert(r * r <= 8_000_000_000_000_000_000);
        assert(r <= 3_000_000_000) by (nonlinear_arith)
            requires
                r * r <= 8_000_000_000_000_000_000,
        ;
    }
    r
}

/// `s * delta / d`, computed on the magnitude of `delta` and given back with
/// `delta`'s sign: the length-`s` share of the offset `delta` relative to the
/// total length `d`.
pub open spec fn scaled_part(s: int, delta: int, d: int) -> int {
    if delta >= 0 {
        (s * delta) / d
    } else {
        -((s * (-delta)) / d)
    }
}

/// The scaled part never exceeds `s` in magnitude when `|delta| <= d`.
pub proof fn lemma_scaled_part_le_s(s: int, delta: int, d: int)
    requires
        0 < d,
        0 <= s,
        -d <= delta <= d,
    ensures
        -s <= scaled_part(s, delta, d) <= s,
        0 <= delta ==> 0 <= scaled_part(s, delta, d),
        delta <= 0 ==> scaled_part(s, delta, d) <= 0,
{
    let m = if delta >= 0 { delta } else { -delta };
    if delta == 0 {
        assert(s * delta == 0 && d * 0 == 0) by (nonlinear_arith)
            requires
                delta == 0,
        ;
        lemma_div_multiples_vanish(0, d);
    }
    lemma_mul_inequality(m, d, s);
    assert(s * m == m * s && s * d == d * s) by (nonlinear_arith);
    lemma_div_is_ordered(s * m, s * d, d);
    lemma_div_multiples_vanish(s, d);
    assert((s * m) / d >= 0) by {
        assert(s * m >= 0) by (nonlinear_arith)
            requires
                s >= 0 && m >= 0,
        ;
        vstd::arithmetic::div_mod::lemma_div_pos_is_pos(s * m, d);
    }
}

/// The scaled part never exceeds `delta` in magnitude when `s <= d`.
pub proof fn lemma_scaled_part_le_delta(s: int, delta: int, d: int)
    requires
        0 < d,
        0 <= s <= d,
    ensures
        0 <= delta ==> 0 <= scaled_part(s, delta, d) <= delta,
        delta <= 0 ==> delta <= scaled_part(s, delta, d) <= 0,
{
    let m = if delta >= 0 { delta } else { -delta };
    lemma_mul_inequality(s, d, m);
    assert(s * m == m * s && d * m == m * d) by (nonlinear_arith);
    lemma_div_is_ordered(s * m, d * m, d);
    lemma_div_multiples_vanish(m, d);
    assert((s * m) / d >= 0) by {
        assert(s * m >= 0) by (nonlinear_arith)
            requires
                s >= 0 && m >= 0,
        ;
        vstd::arithmetic::div_mod::lemma_div_pos_is_pos(s * m, d);
    }
}

/// Compute `scaled_part(s, delta, d)` on machine integers.
pub fn scaled_part_exec(s: i64, delta: i64, d: i64) -> (r: i64)
    requires
        0 < d,
        0 <= s <= MAX_STEP,
        -2 * MAX_COORD <= delta <= 2 * MAX_COORD,
    ensures
        r == scaled_part(s as int, delta as int, d as int),
{
    let m: i64 = if delta < 0 {
        -delta
    } else {
        delta
    };
    proof {
        assert(0 <= s * m <= 2_000_000_000_000_000) by (nonlinear_arith)
            requires
                0 <= s <= 1_000_000,
                0 <= m <= 2_000_000_000,
        ;
    }
    let q64: u64 = ((s as u64) * (m as u64)) / (d as u64);
    proof {
        assert(q64 <= s * m) by {
            vstd::arithmetic::div_mod::lemma_div_pos_is_pos(s as int * m as int, d as int);
            lemma_div_is_ordered(0, s as int * m as int, d as int);
            vstd::arithmetic::div_mod::lemma_div_is_ordered_by_denominator(
                s as int * m as int,
                1,
                d as int,
            );
        }
    }
    let q: i64 = q64 as i64;
    if delta < 0 {
        -q
    } else {
        q
    }
}

} // verus!
