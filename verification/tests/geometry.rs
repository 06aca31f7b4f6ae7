use mycelium::helpers::{rand_from_slice, rand_normalised_vec};
use mycelium::math::{clamp_i64, isqrt, SCALE};
use mycelium::vec2::{distance, scaled_part_exec, Vec2};

fn v(x: i64, y: i64) -> Vec2 {
    Vec2 { x, y }
}

#[test]
fn isqrt_rounds_down() {
    assert_eq!(isqrt(0), 0);
    assert_eq!(isqrt(1), 1);
    assert_eq!(isqrt(2), 1);
    assert_eq!(isqrt(3), 1);
    assert_eq!(isqrt(4), 2);
    assert_eq!(isqrt(99), 9);
    assert_eq!(isqrt(100), 10);
    assert_eq!(isqrt(10_000_000_000), 100_000);
    assert_eq!(isqrt(u64::MAX), 4_294_967_295);
}

#[test]
fn distance_is_the_euclidean_floor() {
    assert_eq!(distance(v(0, 0), v(3, 4)), 5);
    assert_eq!(distance(v(0, 0), v(100_000, 100_000)), 141_421);
    assert_eq!(distance(v(-7, 0), v(7, 0)), 14);
    assert_eq!(distance(v(5, 5), v(5, 5)), 0);
}

#[test]
fn scaled_part_keeps_the_sign_of_the_offset() {
    assert_eq!(scaled_part_exec(1000, 3000, 5000), 600);
    assert_eq!(scaled_part_exec(1000, -3000, 5000), -600);
    assert_eq!(scaled_part_exec(0, 3000, 5000), 0);
    assert_eq!(scaled_part_exec(500, 10, 1000), 5);
}

#[test]
fn clamp_pulls_into_the_interval() {
    assert_eq!(clamp_i64(5, 0, 10), 5);
    assert_eq!(clamp_i64(-5, 0, 10), 0);
    assert_eq!(clamp_i64(15, 0, 10), 10);
}

#[test]
fn random_direction_is_roughly_one_unit_long() {
    for _ in 0..200 {
        let d = rand_normalised_vec();
        assert!(d.x.abs() <= SCALE);
        assert!(d.y.abs() <= SCALE);
        // the dominant axis carries at least seven tenths of a unit
        assert!(d.x.abs().max(d.y.abs()) >= 700);
        // with the draws scaled up before normalizing, the length stays in
        // a tight band around one unit
        let norm2 = d.x * d.x + d.y * d.y;
        assert!(norm2 >= (SCALE - 30) * (SCALE - 30), "norm2 {norm2}");
        assert!(norm2 <= (SCALE + 30) * (SCALE + 30), "norm2 {norm2}");
    }
}

#[test]
fn rand_from_slice_picks_a_member() {
    assert_eq!(rand_from_slice(&[42]), 42);
    for _ in 0..50 {
        let picked = rand_from_slice(&[1, 2, 3]);
        assert!(picked == 1 || picked == 2 || picked == 3);
    }
}
