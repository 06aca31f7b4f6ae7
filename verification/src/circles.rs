//! The pulsing-circle animation: each circle's radius swings between its
//! bounds on the shared oscillator, staggered by a per-circle phase offset.

use vstd::prelude::*;

use crate::helpers::{cycle_spec, cycle_value_over_time};
use crate::math::SCALE;

verus! {

/// Length of one radius cycle, in milliseconds.
pub const CYCLE_SECONDS_MS: u64 = 10_000;

/// Smallest radius a circle pulses down to, in coordinate steps.
pub const CIRCLE_MIN: i64 = 90 * SCALE;

/// Largest radius a circle pulses up to, in coordinate steps.
pub const CIRCLE_MAX: i64 = 225 * SCALE;

/// A circle whose radius follows the oscillator, phase-shifted by its
/// stagger (a fraction of the cycle, in thousandths).
pub struct Circle {
    pub current_radius: i64,
    pub min_radius: i64,
    pub max_radius: i64,
    pub stagger_milli: i64,
}

impl Circle {
    pub open spec fn wf(self) -> bool {
        &&& 0 <= self.min_radius <= self.max_radius
        &&& 0 <= self.stagger_milli <= 1000
    }

    /// A circle resting at its smallest radius.
    pub fn new(min_radius: i64, max_radius: i64, stagger_milli: i64) -> (r: Circle)
        requires
            0 <= min_radius <= max_radius,
            0 <= stagger_milli <= 1000,
        ensures
            r.current_radius == min_radius,
            r.min_radius == min_radius,
            r.max_radius == max_radius,
            r.stagger_milli == stagger_milli,
            r.wf(),
    {
        Circle { current_radius: min_radius, min_radius, max_radius, stagger_milli }
    }

    /// The oscillator time this circle reads at `since_start_ms`: the
    /// elapsed time advanced by the stagger's share of one cycle.
    pub open spec fn staggered_ms(self, since_start_ms: u64) -> int {
        since_start_ms + 10 * self.stagger_milli
    }

    /// Move the radius to where the staggered oscillator stands.
    pub fn calculate_circle_radius(&mut self, since_start_ms: u64)
        requires
            old(self).wf(),
            since_start_ms <= u64::MAX - 10_000,
        ensures
            final(self).min_radius == old(self).min_radius,
            final(self).max_radius == old(self).max_radius,
            final(self).stagger_milli == old(self).stagger_milli,
            final(self).current_radius == cycle_spec(
                old(self).staggered_ms(since_start_ms),
                CYCLE_SECONDS_MS as int,
                old(self).min_radius as int,
                old(self).max_radius as int,
            ),
            old(self).min_radius <= final(self).current_radius <= old(self).max_radius,
            final(self).wf(),
    {
        let offset: u64 = (10 * self.stagger_milli) as u64;
        self.current_radius = cycle_value_over_time(
            since_start_ms + offset,
            CYCLE_SECONDS_MS,
            self.min_radius,
            self.max_radius,
        );
    }

    /// The radius as of the last recalculation.
    pub fn radius(&self) -> (r: i64)
        ensures
            r == self.current_radius,
    {
        self.current_radius
    }
}

} // verus!
