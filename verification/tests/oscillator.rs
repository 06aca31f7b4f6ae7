use mycelium::circles::{Circle, CIRCLE_MAX, CIRCLE_MIN, CYCLE_SECONDS_MS};
use mycelium::helpers::{cycle_value_factory, cycle_value_over_time};

#[test]
fn cycle_is_high_at_boundary() {
    // fraction 0 folds to 0.5, the top of the range
    assert_eq!(cycle_value_over_time(0, 10_000, 0, 1000), 1000);
    assert_eq!(cycle_value_over_time(10_000, 10_000, 0, 1000), 1000);
    assert_eq!(cycle_value_over_time(0, 10_000, -500, 700), 700);
}

#[test]
fn cycle_is_low_at_midpoint() {
    assert_eq!(cycle_value_over_time(5_000, 10_000, 0, 1000), 0);
    assert_eq!(cycle_value_over_time(15_000, 10_000, -500, 700), -500);
}

#[test]
fn cycle_quarter_point_is_halfway() {
    // folded = |0.25 - 0.5| = 0.25, halfway up the range
    assert_eq!(cycle_value_over_time(2_500, 10_000, 0, 1000), 500);
    assert_eq!(cycle_value_over_time(7_500, 10_000, 0, 1000), 500);
    assert_eq!(cycle_value_over_time(2_500, 10_000, 200, 400), 300);
}

#[test]
fn cycle_is_periodic() {
    for t in [0u64, 137, 2_500, 4_999, 5_000, 9_999] {
        assert_eq!(
            cycle_value_over_time(t, 10_000, -123, 456),
            cycle_value_over_time(t + 10_000, 10_000, -123, 456),
        );
        assert_eq!(
            cycle_value_over_time(t, 7_777, 0, 999),
            cycle_value_over_time(t + 7_777, 7_777, 0, 999),
        );
    }
}

#[test]
fn cycle_stays_in_range() {
    for t in 0..30_000u64 {
        let v = cycle_value_over_time(t, 12_000, 1000, 8000);
        assert!(1000 <= v && v <= 8000);
    }
}

#[test]
fn cycle_factory_matches_direct_call() {
    let wave = cycle_value_factory(12_000, 1000, 8000);
    for t in [0u64, 1, 999, 6_000, 12_000, 30_000] {
        assert_eq!(wave.value_at(t), cycle_value_over_time(t, 12_000, 1000, 8000));
    }
}

#[test]
fn circle_starts_at_min_then_follows_wave() {
    let mut c = Circle::new(CIRCLE_MIN, CIRCLE_MAX, 0);
    assert_eq!(c.radius(), CIRCLE_MIN);
    c.calculate_circle_radius(0);
    assert_eq!(c.radius(), CIRCLE_MAX);
    c.calculate_circle_radius(CYCLE_SECONDS_MS / 2);
    assert_eq!(c.radius(), CIRCLE_MIN);
}

#[test]
fn circle_stagger_shifts_phase() {
    // half a cycle of stagger swaps the wave's ends
    let mut c = Circle::new(CIRCLE_MIN, CIRCLE_MAX, 500);
    c.calculate_circle_radius(0);
    assert_eq!(c.radius(), CIRCLE_MIN);
    c.calculate_circle_radius(CYCLE_SECONDS_MS / 2);
    assert_eq!(c.radius(), CIRCLE_MAX);
}

#[test]
fn circle_radius_stays_in_bounds() {
    let mut c = Circle::new(2_000, 9_000, 300);
    for t in (0..50_000u64).step_by(37) {
        c.calculate_circle_radius(t);
        assert!(2_000 <= c.radius() && c.radius() <= 9_000);
    }
}
