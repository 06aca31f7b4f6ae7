//! Shared helpers: the triangle-wave oscillator that drives slowly varying
//! visual parameters, and the crate's randomness utilities.

use vstd::arithmetic::div_mod::{
    lemma_div_is_ordered, lemma_div_multiples_vanish, lemma_div_pos_is_pos,
    lemma_mod_add_multiples_vanish, lemma_mod_bound,
};
use vstd::arithmetic::mul::lemma_mul_inequality;
use vstd::prelude::*;

use crate::math::{isqrt, lemma_sqrt_floor_monotone, lemma_sqrt_floor_of_square, SCALE};
use crate::vec2::{lemma_scaled_part_le_s, scaled_part, scaled_part_exec, Vec2};

verus! {

/// Where in `[low, high]` the triangle wave stands at time `t` into a cycle
/// of length `p`: `high` at every cycle boundary, `low` at every cycle
/// midpoint, linear in between.
pub open spec fn cycle_spec(t: int, p: int, low: int, high: int) -> int {
    low + (vstd::math::abs(2 * (t % p) - p) * (high - low)) / p
}

/// The oscillator, on milliseconds of elapsed time. The wave starts at
/// `max_value`, falls linearly to `min_value` at half a cycle, and climbs
/// back. Cycle lengths up to `u32::MAX` milliseconds keep every fixed-point
/// product in range, hence the bound asked of callers.
pub fn cycle_value_over_time(current_ms: u64, cycle_ms: u64, min_value: i64, max_value: i64) -> (r:
    i64)
    requires
        0 < cycle_ms <= 0xffff_ffff,
        min_value <= max_value,
    ensures
        r == cycle_spec(current_ms as int, cycle_ms as int, min_value as int, max_value as int),
        min_value <= r <= max_value,
{
    let m: u64 = current_ms % cycle_ms;
    let two_m: u64 = 2 * m;
    let folded: u64 = if two_m >= cycle_ms {
        two_m - cycle_ms
    } else {
        cycle_ms - two_m
    };
    let diff: u128 = (max_value as i128 - min_value as i128) as u128;
    proof {
        assert((folded as int) * (diff as int) < 0x1_0000_0000_0000_0000_0000_0000)
            by (nonlinear_arith)
            requires
                0 <= folded <= 0x1_0000_0000u64,
                0 <= diff < 0x1_0000_0000_0000_0000u128,
        ;
    }
    let scaled: u128 = (folded as u128) * diff;
    let q: u128 = scaled / (cycle_ms as u128);
    proof {
        lemma_mul_inequality(folded as int, cycle_ms as int, diff as int);
        assert((folded as int) * (diff as int) == (diff as int) * (folded as int) && (cycle_ms
            as int) * (diff as int) == (diff as int) * (cycle_ms as int)) by (nonlinear_arith);
        lemma_div_is_ordered(
            (folded as int) * (diff as int),
            (cycle_ms as int) * (diff as int),
            cycle_ms as int,
        );
        lemma_div_multiples_vanish(diff as int, cycle_ms as int);
        assert(q <= diff);
    }
    let r: i64 = ((min_value as i128) + (q as i128)) as i64;
    proof {
        lemma_mod_bound(current_ms as int, cycle_ms as int);
    }
    r
}

/// The oscillator is periodic: one full cycle later the wave is back where
/// it was.
pub proof fn lemma_cycle_periodic(t: int, p: int, low: int, high: int)
    requires
        0 < p,
    ensures
        cycle_spec(t + p, p, low, high) == cycle_spec(t, p, low, high),
{
    lemma_mod_add_multiples_vanish(t, p);
}

/// The oscillator never leaves `[low, high]`.
pub proof fn lemma_cycle_in_range(t: int, p: int, low: int, high: int)
    requires
        0 < p,
        low <= high,
    ensures
        low <= cycle_spec(t, p, low, high) <= high,
{
    lemma_mod_bound(t, p);
    let f = vstd::math::abs(2 * (t % p) - p) as int;
    let diff = high - low;
    lemma_mul_inequality(f, p, diff);
    assert(f * diff == diff * f && p * diff == diff * p) by (nonlinear_arith);
    lemma_div_is_ordered(f * diff, p * diff, p);
    lemma_div_multiples_vanish(diff, p);
    assert(f * diff >= 0) by (nonlinear_arith)
        requires
            f >= 0 && diff >= 0,
    ;
    lemma_div_pos_is_pos(f * diff, p);
}

/// The oscillator with its cycle length and range fixed once, so a consumer
/// only supplies the elapsed time.
pub struct CycleValue {
    pub cycle_ms: u64,
    pub min_value: i64,
    pub max_value: i64,
}

impl CycleValue {
    /// The stored cycle parameters are ones the oscillator accepts.
    pub open spec fn wf(self) -> bool {
        0 < self.cycle_ms <= 0xffff_ffff && self.min_value <= self.max_value
    }

    /// The wave at `current_ms`, for the stored parameters.
    pub fn value_at(&self, current_ms: u64) -> (r: i64)
        requires
            self.wf(),
        ensures
            r == cycle_spec(
                current_ms as int,
                self.cycle_ms as int,
                self.min_value as int,
                self.max_value as int,
            ),
            self.min_value <= r <= self.max_value,
    {
        cycle_value_over_time(current_ms, self.cycle_ms, self.min_value, self.max_value)
    }
}

/// Fix the oscillator's cycle length and range once and for all.
pub fn cycle_value_factory(cycle_ms: u64, min_value: i64, max_value: i64) -> (f: CycleValue)
    requires
        0 < cycle_ms <= 0xffff_ffff,
        min_value <= max_value,
    ensures
        f.cycle_ms == cycle_ms,
        f.min_value == min_value,
        f.max_value == max_value,
        f.wf(),
{
    CycleValue { cycle_ms, min_value, max_value }
}

/// Relies on `rand::thread_rng` and `rand::Rng::gen_range` over `lo..=hi`:
/// the sample lies in the closed range, and the call panics only on an empty
/// range, which the precondition rules out.
#[verifier::external_body]
pub(crate) fn rand_i64_between(lo: i64, hi: i64) -> (r: i64)
    requires
        lo <= hi,
    ensures
        lo <= r <= hi,
{
    rand::Rng::gen_range(&mut rand::thread_rng(), lo..=hi)
}

/// A direction vector of roughly one display unit of length: no longer than
/// `SCALE` along either axis, and at least seven tenths of `SCALE` along its
/// dominant axis — in particular, never the zero vector.
pub open spec fn near_unit(v: Vec2) -> bool {
    &&& -SCALE <= v.x <= SCALE
    &&& -SCALE <= v.y <= SCALE
    &&& 700 <= vstd::math::max(
        vstd::math::abs(v.x as int) as int,
        vstd::math::abs(v.y as int) as int,
    )
}

/// A random direction vector of roughly unit length: the two draws are
/// scaled up before normalizing, so the rounding error stays tiny, and a
/// double zero draw falls back to a fixed unit direction.
pub fn rand_normalised_vec() -> (r: Vec2)
    ensures
        near_unit(r),
{
    let rand_amount: i64 = 100;
    let x = rand_i64_between(-rand_amount, rand_amount);
    let y = rand_i64_between(-rand_amount, rand_amount);
    if x == 0 && y == 0 {
        return Vec2::new(SCALE, 0);
    }
    let sx: i64 = x * SCALE;
    let sy: i64 = y * SCALE;
    proof {
        assert(0 <= sx * sx <= 10_000_000_000 && 0 <= sy * sy <= 10_000_000_000 && sx * sx + sy
            * sy > 0) by (nonlinear_arith)
            requires
                -100_000 <= sx <= 100_000,
                -100_000 <= sy <= 100_000,
                !(sx == 0 && sy == 0),
        ;
    }
    let d2: i64 = sx * sx + sy * sy;
    let du: u64 = isqrt(d2 as u64);
    proof {
        assert(du <= 141_421) by (nonlinear_arith)
            requires
                du * du <= 20_000_000_000,
        ;
        let ax = vstd::math::abs(sx as int) as int;
        let ay = vstd::math::abs(sy as int) as int;
        assert(ax * ax == sx * sx && ay * ay == sy * sy) by (nonlinear_arith)
            requires
                ax == sx || ax == -sx,
                ay == sy || ay == -sy,
        ;
        lemma_sqrt_floor_of_square(ax as nat);
        lemma_sqrt_floor_of_square(ay as nat);
        lemma_sqrt_floor_monotone((ax * ax) as nat, d2 as nat);
        lemma_sqrt_floor_monotone((ay * ay) as nat, d2 as nat);
        assert(ax <= du && ay <= du);
        assert(du >= 1);
        let am = vstd::math::max(ax, ay);
        assert(d2 <= 2 * (am * am)) by (nonlinear_arith)
            requires
                0 <= ax <= am,
                0 <= ay <= am,
                d2 == ax * ax + ay * ay,
        ;
        assert((700 * (du as int)) * (700 * (du as int)) <= (1000 * am) * (1000 * am))
            by (nonlinear_arith)
            requires
                (du as int) * (du as int) <= 2 * (am * am),
        ;
        assert(700 * (du as int) <= 1000 * am) by (nonlinear_arith)
            requires
                (700 * (du as int)) * (700 * (du as int)) <= (1000 * am) * (1000 * am),
                0 <= du,
                0 <= am,
        ;
        lemma_div_is_ordered(700 * (du as int), 1000 * am, du as int);
        assert(700 * (du as int) == (du as int) * 700) by (nonlinear_arith);
        lemma_div_multiples_vanish(700, du as int);
        assert((1000 * am) / (du as int) >= 700);
    }
    let d: i64 = du as i64;
    proof {
        lemma_scaled_part_le_s(SCALE as int, sx as int, d as int);
        lemma_scaled_part_le_s(SCALE as int, sy as int, d as int);
    }
    let nx = scaled_part_exec(SCALE, sx, d);
    let ny = scaled_part_exec(SCALE, sy, d);
    proof {
        let ax = vstd::math::abs(sx as int) as int;
        let ay = vstd::math::abs(sy as int) as int;
        if ax >= ay {
            if sx >= 0 {
                assert(nx == (1000 * sx) / (d as int));
                assert(1000 * sx == 1000 * ax);
            } else {
                assert(nx == -((1000 * (-sx)) / (d as int)));
                assert(1000 * (-sx) == 1000 * ax);
            }
            assert(vstd::math::abs(nx as int) >= 700);
        } else {
            if sy >= 0 {
                assert(ny == (1000 * sy) / (d as int));
                assert(1000 * sy == 1000 * ay);
            } else {
                assert(ny == -((1000 * (-sy)) / (d as int)));
                assert(1000 * (-sy) == 1000 * ay);
            }
            assert(vstd::math::abs(ny as int) >= 700);
        }
    }
    Vec2::new(nx, ny)
}

/// A uniformly random pick from a non-empty slice.
pub trait RandFromSlice<T> {
    fn rand_from_slice(slice: &[T]) -> T;
}

/// Pick one element of `slice` uniformly at random.
pub fn rand_from_slice<T: Copy>(slice: &[T]) -> (r: T)
    requires
        0 < slice@.len() < 0x8000_0000_0000_0000,
    ensures
        exists|i: int| 0 <= i < slice@.len() && r == slice@[i],
{
    let idx = rand_i64_between(0, (slice.len() - 1) as i64) as usize;
    slice[idx]
}

} // verus!
