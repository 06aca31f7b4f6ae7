use mycelium::growth::{rgb_from_u32, Growth, Rgb};
use mycelium::math::SCALE;
use mycelium::population::{
    change_points, colours, create_new_growths, default_config, key_pressed, step_growths, update,
    Command, Model, Rect, CHAMPAGNE, FRENCH_GREY, NUM_GROWTHS, SPAWN_PADDING,
};
use mycelium::vec2::Vec2;

fn v(x: i64, y: i64) -> Vec2 {
    Vec2 { x, y }
}

#[test]
fn population_size_is_invariant_across_ticks() {
    let window = Rect::window();
    let mut model = Model::new(&window, 20);
    assert_eq!(model.growths.len(), 20);
    for tick in 0..1000u64 {
        update(&mut model, &window, tick * 16);
        assert_eq!(model.growths.len(), 20);
    }
}

#[test]
fn spawned_agents_sit_inside_the_padded_viewport() {
    let window = Rect::window();
    let growths = create_new_growths(&window, 12);
    assert_eq!(growths.len(), 12);
    for g in &growths {
        assert!(window.left - SPAWN_PADDING <= g.centre.x);
        assert!(g.centre.x <= window.right + SPAWN_PADDING);
        assert!(window.bottom - SPAWN_PADDING <= g.centre.y);
        assert!(g.centre.y <= window.top + SPAWN_PADDING);
        // one filament per other agent, none toward itself
        assert!(g.lines.len() <= 11);
        for line in &g.lines {
            assert_eq!(line.start, g.centre);
            assert_ne!(line.end, g.centre);
        }
    }
}

#[test]
fn empty_population_ticks_without_panicking() {
    let window = Rect::window();
    let mut model = Model::new(&window, 0);
    for tick in 0..5u64 {
        update(&mut model, &window, tick);
        assert_eq!(model.growths.len(), 0);
    }
}

#[test]
fn degenerate_viewport_is_handled() {
    let flat = Rect { left: 0, right: 0, bottom: 0, top: 0 };
    let growths = create_new_growths(&flat, 4);
    assert_eq!(growths.len(), 4);
}

#[test]
fn change_points_replaces_finished_agents() {
    let keeper = Growth::new(
        v(0, 0),
        &vec![v(0, 0), v(30 * SCALE, 0)],
        Rgb { red: 1, green: 1, blue: 1 },
    );
    // an agent with no filaments counts as finished and is culled
    let done = Growth { centre: v(9 * SCALE, 0), lines: Vec::new(), colour: keeper.colour };
    let mut growths = vec![keeper, done];
    let window = Rect::window();
    change_points(&mut growths, &window);
    assert_eq!(growths.len(), 2);
    // the unfinished agent is kept verbatim, in front
    assert_eq!(growths[0].centre, v(0, 0));
    assert_eq!(growths[0].lines.len(), 1);
    // the replacement is fresh and grows toward the survivor only
    assert!(growths[1].lines.len() <= 1);
    for line in &growths[1].lines {
        assert_eq!(line.end, v(0, 0));
        assert_eq!(line.points.len(), 1);
        assert!(!line.finished);
    }
}

#[test]
fn step_growths_advances_every_unfinished_filament() {
    let mut growths = vec![Growth::new(
        v(0, 0),
        &vec![v(0, 0), v(100 * SCALE, 0)],
        Rgb { red: 0, green: 0, blue: 0 },
    )];
    let config = default_config();
    step_growths(&mut growths, &config);
    assert_eq!(growths.len(), 1);
    assert_eq!(growths[0].lines[0].points.len(), 2);
}

#[test]
fn reseed_rebuilds_a_fresh_population_of_the_configured_size() {
    let window = Rect::window();
    let mut model = Model::new(&window, NUM_GROWTHS);
    for tick in 0..50u64 {
        update(&mut model, &window, tick * 16);
    }
    key_pressed(&mut model, &window, Command::IncreaseLarge);
    key_pressed(&mut model, &window, Command::Reseed);
    assert_eq!(model.growths.len(), NUM_GROWTHS);
    for g in &model.growths {
        for line in &g.lines {
            assert_eq!(line.points.len(), 1);
            assert!(!line.finished);
        }
    }
    // the store is back at its defaults
    assert_eq!(model.config.values, vec![8000, 8000, 1500]);
    assert_eq!(model.config.selected_value, 0);
}

#[test]
fn commands_drive_the_parameter_store() {
    let window = Rect::window();
    let mut model = Model::new(&window, 2);
    assert_eq!(model.config.get_with_default("max_vary_amount", -1), 8000);
    key_pressed(&mut model, &window, Command::IncreaseSmall);
    assert_eq!(model.config.values, vec![8100, 8000, 1500]);
    key_pressed(&mut model, &window, Command::SelectNext);
    key_pressed(&mut model, &window, Command::DecreaseLarge);
    assert_eq!(model.config.values, vec![8100, 7000, 1500]);
    key_pressed(&mut model, &window, Command::SelectPrevious);
    key_pressed(&mut model, &window, Command::DecreaseSmall);
    assert_eq!(model.config.values, vec![8000, 7000, 1500]);
}

#[test]
fn update_moves_the_display_wiggle_inside_its_range() {
    let window = Rect::window();
    let mut model = Model::new(&window, 3);
    for tick in 0..100u64 {
        update(&mut model, &window, tick * 160);
        assert!(SCALE <= model.vary_amount && model.vary_amount <= 8000);
    }
}

#[test]
fn palette_words_split_into_channels() {
    let grey = rgb_from_u32(FRENCH_GREY);
    assert_eq!((grey.red, grey.green, grey.blue), (0xC6, 0xBC, 0xC8));
    let champagne = rgb_from_u32(CHAMPAGNE);
    assert_eq!((champagne.red, champagne.green, champagne.blue), (0xFC, 0xE5, 0xC5));
    assert_eq!(colours().len(), 5);
}
