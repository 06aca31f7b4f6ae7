use mycelium::growth::{Growth, Line, Point, Rgb, TERMINATION_RADIUS};
use mycelium::math::SCALE;
use mycelium::vec2::Vec2;

fn v(x: i64, y: i64) -> Vec2 {
    Vec2 { x, y }
}

/// Step with no jitter until the filament finishes; panics if it never does.
fn run_to_completion(line: &mut Line, step_length: i64) -> usize {
    let mut steps = 0usize;
    while !line.finished {
        line.step_line(step_length, 0);
        steps += 1;
        assert!(steps < 10_000, "filament did not terminate");
    }
    steps
}

#[test]
fn straight_filament_reaches_target_exactly() {
    // 100 units at 10 units per step, termination radius 2
    let mut line = Line::new(v(0, 0), v(100 * SCALE, 0));
    run_to_completion(&mut line, 10 * SCALE);
    assert!(line.finished);
    let last = line.points.last().unwrap();
    assert_eq!(last.pos, v(100 * SCALE, 0));
    // ceil(100 / 10) = 10 appended points, within one
    let appended = line.points.len() - 1;
    assert!(9 <= appended && appended <= 11, "appended {appended}");
}

#[test]
fn vertical_filament_reaches_target_exactly() {
    let mut line = Line::new(v(0, 0), v(0, 100 * SCALE));
    run_to_completion(&mut line, 10 * SCALE);
    let last = line.points.last().unwrap();
    assert_eq!(last.pos, v(0, 100 * SCALE));
    let appended = line.points.len() - 1;
    assert!(9 <= appended && appended <= 11, "appended {appended}");
}

#[test]
fn diagonal_filament_reaches_target_exactly() {
    let mut line = Line::new(v(100 * SCALE, 0), v(0, 100 * SCALE));
    run_to_completion(&mut line, 10 * SCALE);
    let last = line.points.last().unwrap();
    assert_eq!(last.pos, v(0, 100 * SCALE));
    // initial distance 141.42 units: ceil(141.42 / 10) = 15, within one
    let appended = line.points.len() - 1;
    assert!(14 <= appended && appended <= 16, "appended {appended}");
}

#[test]
fn finished_filament_never_changes_again() {
    let mut line = Line::new(v(0, 0), v(30 * SCALE, 0));
    run_to_completion(&mut line, 10 * SCALE);
    let len_before = line.points.len();
    let last_before = *line.points.last().unwrap();
    for _ in 0..20 {
        line.step_line(10 * SCALE, 500);
    }
    assert!(line.finished);
    assert_eq!(line.points.len(), len_before);
    assert_eq!(*line.points.last().unwrap(), last_before);
}

#[test]
fn termination_takes_two_steps_after_the_snap() {
    // inside the termination radius from the start
    let start = v(0, 0);
    let end = v(TERMINATION_RADIUS - 500, 0);
    let mut line = Line::new(start, end);
    line.step_line(10 * SCALE, 0);
    // first call snaps exactly onto the target but does not finish yet
    assert!(!line.finished);
    assert_eq!(line.points.len(), 2);
    assert_eq!(line.points[1].pos, end);
    assert_eq!(line.points[1].variation(), v(0, 0));
    line.step_line(10 * SCALE, 0);
    // the following call detects the tip on the target and freezes
    assert!(line.finished);
    assert_eq!(line.points.len(), 2);
}

#[test]
fn fresh_filament_holds_only_its_anchor() {
    let line = Line::new(v(5, 6), v(700, 800));
    assert!(!line.finished);
    assert_eq!(line.points.len(), 1);
    assert_eq!(line.points[0].pos, v(5, 6));
    assert_eq!(line.points[0].variation(), v(0, 0));
}

#[test]
fn growth_excludes_its_own_centre() {
    let centres = vec![v(0, 0), v(100 * SCALE, 0), v(0, 100 * SCALE)];
    let colour = Rgb { red: 1, green: 2, blue: 3 };
    for me in &centres {
        let g = Growth::new(*me, &centres, colour);
        // population of three: two filaments each
        assert_eq!(g.lines.len(), 2);
        for line in &g.lines {
            assert_eq!(line.start, *me);
            assert_ne!(line.end, *me);
            // each filament anchors at the centre with no variation
            assert_eq!(line.points[0].pos, *me);
            assert_eq!(line.points[0].variation(), v(0, 0));
        }
    }
}

#[test]
fn growth_finishes_when_all_filaments_do() {
    let centres = vec![v(0, 0), v(20 * SCALE, 0)];
    let mut g = Growth::new(v(0, 0), &centres, Rgb { red: 0, green: 0, blue: 0 });
    assert!(!g.is_finished());
    for _ in 0..100 {
        g.step_growth(10 * SCALE, 0);
    }
    assert!(g.is_finished());
    assert_eq!(g.lines[0].points.last().unwrap().pos, v(20 * SCALE, 0));
}

#[test]
fn growth_colour_carries_the_fixed_alpha() {
    let g = Growth::new(v(0, 0), &vec![v(100, 100)], Rgb { red: 10, green: 20, blue: 30 });
    assert_eq!(g.colour.red, 10);
    assert_eq!(g.colour.green, 20);
    assert_eq!(g.colour.blue, 30);
    assert_eq!(g.colour.alpha_milli, 100);
}

#[test]
fn vary_by_amount_displaces_along_the_variation_vector() {
    let p = Point { pos: v(1000, 2000), vary: v(SCALE, -SCALE / 2) };
    assert_eq!(p.vary_by_amount(0), v(1000, 2000));
    assert_eq!(p.vary_by_amount(500), v(1500, 1750));
    // negative amounts are treated as no displacement
    assert_eq!(p.vary_by_amount(-300), v(1000, 2000));
}

#[test]
fn render_points_applies_the_displacement_everywhere() {
    let mut line = Line::new(v(0, 0), v(40 * SCALE, 0));
    for _ in 0..3 {
        line.step_line(10 * SCALE, 0);
    }
    let plain = line.render_points(0);
    assert_eq!(plain.len(), line.points.len());
    for (r, p) in plain.iter().zip(line.points.iter()) {
        assert_eq!(*r, p.pos);
    }
}

#[test]
fn normalize_scales_the_position_to_unit_length() {
    let p = Point { pos: v(3000, 4000), vary: v(7, 8) };
    let n = p.normalize();
    assert_eq!(n.pos, v(600, 800));
    assert_eq!(n.variation(), v(7, 8));
    let origin = Point { pos: v(0, 0), vary: v(1, 2) };
    assert_eq!(origin.normalize().pos, v(0, 0));
}

#[test]
fn point_new_samples_a_near_unit_variation() {
    for _ in 0..50 {
        let p = Point::new(v(123, 456));
        assert_eq!(p.pos, v(123, 456));
        let var = p.variation();
        assert!(var.x.abs() <= SCALE && var.y.abs() <= SCALE);
        assert!(var.x.abs().max(var.y.abs()) >= 700);
    }
}

#[test]
fn jitter_never_outruns_the_bias_for_long() {
    // with the jitter bound below half the step, every move makes net
    // progress, so even a jittered filament reaches a far target
    let mut line = Line::new(v(0, 0), v(200 * SCALE, 150 * SCALE));
    let mut steps = 0usize;
    while !line.finished {
        line.step_line(2 * SCALE, 500);
        steps += 1;
        assert!(steps < 5_000, "filament with jitter did not terminate");
    }
    assert_eq!(line.points.last().unwrap().pos, v(200 * SCALE, 150 * SCALE));
}
