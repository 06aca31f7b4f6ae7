//! The population manager: spawns growth agents at random centres inside
//! the (slightly padded) viewport, steps them every tick, and replaces each
//! finished agent with a fresh one so the population size never changes.

use vstd::prelude::*;

use crate::config::{adjusted_config, next_sel, prev_sel, Config};
use crate::growth::{
    other_than, rgb_from_u32, rgb_of_word, rgba_with_line_alpha, Growth, Rgb, Rgba,
};
use crate::helpers::{cycle_value_over_time, rand_from_slice, rand_i64_between};
use crate::math::{MAX_COORD, SCALE};
use crate::vec2::Vec2;

verus! {

/// Window edge length, in coordinate steps.
pub const WINDOW_SIZE: i64 = 900 * SCALE;

/// Half the window edge, in coordinate steps.
pub const HALF_WINDOW: i64 = 450 * SCALE;

/// How many growth agents the population holds.
pub const NUM_GROWTHS: usize = 20;

/// Default filament step length ("step_amount"), in coordinate steps.
pub const DEFAULT_STEP_LENGTH: i64 = 8 * SCALE;

/// Default jitter magnitude ("rand_factor"), in coordinate steps.
pub const DEFAULT_RAND_FACTOR: i64 = 1500;

/// Default ceiling of the display wiggle ("max_vary_amount").
pub const DEFAULT_MAX_VARY: i64 = 8 * SCALE;

/// Cycle length of the display-wiggle oscillator, in milliseconds.
pub const VARY_CYCLE_MS: u64 = 12_000;

/// How far outside the viewport new centres may spawn, in coordinate steps.
pub const SPAWN_PADDING: i64 = 50 * SCALE;

/// The palette, as `0xRRGGBB` words.
pub const FRENCH_GREY: u32 = 0xC6BCC8;
pub const PINK_LAVENDAR: u32 = 0xD7ACCC;
pub const THISTLE: u32 = 0xD1B3BD;
pub const CHAMPAGNE: u32 = 0xFCE5C5;
pub const TEA_GREEN: u32 = 0xC5DCBC;

/// The palette in its fixed order.
pub open spec fn palette() -> Seq<u32> {
    seq![FRENCH_GREY, PINK_LAVENDAR, THISTLE, TEA_GREEN, CHAMPAGNE]
}

/// `c` is one of the palette's colours.
pub open spec fn is_palette_rgb(c: Rgb) -> bool {
    exists|i: int| 0 <= i < palette().len() && c == rgb_of_word(#[trigger] palette()[i])
}

/// `c` is a palette colour carrying the fixed filament translucency.
pub open spec fn is_palette_colour(c: Rgba) -> bool {
    exists|i: int|
        0 <= i < palette().len() && c == rgba_with_line_alpha(rgb_of_word(#[trigger] palette()[i]))
}

/// An agent built from a palette pick wears a palette colour.
pub proof fn lemma_palette_colour(base: Rgb, c: Rgba)
    requires
        is_palette_rgb(base),
        c == rgba_with_line_alpha(base),
    ensures
        is_palette_colour(c),
{
    let i = choose|i: int| 0 <= i < palette().len() && base == rgb_of_word(#[trigger] palette()[i]);
    assert(c == rgba_with_line_alpha(rgb_of_word(palette()[i])));
}

/// The palette in its fixed order, as the drawing side consumes it.
pub fn colours() -> (r: Vec<u32>)
    ensures
        r@ == palette(),
{
    let mut v: Vec<u32> = Vec::new();
    v.push(FRENCH_GREY);
    v.push(PINK_LAVENDAR);
    v.push(THISTLE);
    v.push(TEA_GREEN);
    v.push(CHAMPAGNE);
    proof {
        assert(v@ =~= palette());
    }
    v
}

/// Viewport bounds, with enough margin inside the coordinate square that
/// padded spawning cannot leave it.
#[derive(Clone, Copy, Debug, PartialEq, Eq, Structural)]
pub struct Rect {
    pub left: i64,
    pub right: i64,
    pub bottom: i64,
    pub top: i64,
}

impl Rect {
    pub open spec fn wf(self) -> bool {
        &&& self.left <= self.right
        &&& self.bottom <= self.top
        &&& -MAX_COORD + SPAWN_PADDING <= self.left
        &&& self.right <= MAX_COORD - SPAWN_PADDING
        &&& -MAX_COORD + SPAWN_PADDING <= self.bottom
        &&& self.top <= MAX_COORD - SPAWN_PADDING
    }

    /// The window the animation runs in, centred on the origin.
    pub fn window() -> (r: Rect)
        ensures
            r.left == -HALF_WINDOW,
            r.right == HALF_WINDOW,
            r.bottom == -HALF_WINDOW,
            r.top == HALF_WINDOW,
            r.wf(),
    {
        Rect { left: -HALF_WINDOW, right: HALF_WINDOW, bottom: -HALF_WINDOW, top: HALF_WINDOW }
    }

    /// `v` lies within these bounds, padded by the spawn margin.
    pub open spec fn holds_padded(self, v: Vec2) -> bool {
        &&& self.left - SPAWN_PADDING <= v.x <= self.right + SPAWN_PADDING
        &&& self.bottom - SPAWN_PADDING <= v.y <= self.top + SPAWN_PADDING
    }
}

/// A random centre inside `rect`, padded by the spawn margin.
fn random_centre(rect: &Rect) -> (r: Vec2)
    requires
        rect.wf(),
    ensures
        rect.holds_padded(r),
        r.in_box(),
{
    let x = rand_i64_between(rect.left - SPAWN_PADDING, rect.right + SPAWN_PADDING);
    let y = rand_i64_between(rect.bottom - SPAWN_PADDING, rect.top + SPAWN_PADDING);
    Vec2 { x, y }
}

/// A random palette colour.
fn random_colour() -> (r: Rgb)
    ensures
        is_palette_rgb(r),
{
    let swatches = colours();
    let word = rand_from_slice(swatches.as_slice());
    rgb_from_u32(word)
}

/// `gs` is a population spawned on the centre list `cs` inside `rect`:
/// agent `i` sits at `cs[i]` and grows one filament toward every listed
/// centre other than its own.
pub open spec fn spawned_population(gs: Seq<Growth>, cs: Seq<Vec2>, rect: Rect) -> bool {
    &&& gs.len() == cs.len()
    &&& forall|i: int| 0 <= i < cs.len() ==> rect.holds_padded(#[trigger] cs[i])
    &&& forall|i: int| 0 <= i < gs.len() ==> (#[trigger] gs[i]).centre == cs[i]
    &&& forall|i: int|
        0 <= i < gs.len() ==> (#[trigger] gs[i]).targets() == cs.filter(other_than(cs[i]))
    &&& forall|i: int| 0 <= i < gs.len() ==> is_palette_colour((#[trigger] gs[i]).colour)
}

/// Spawn `num_growths` fresh agents at random centres inside the padded
/// viewport; every agent grows toward every other agent's centre.
pub fn create_new_growths(rect: &Rect, num_growths: usize) -> (r: Vec<Growth>)
    requires
        rect.wf(),
    ensures
        r@.len() == num_growths,
        forall|i: int| 0 <= i < r@.len() ==> (#[trigger] r@[i]).wf(),
        forall|i: int| 0 <= i < r@.len() ==> (#[trigger] r@[i]).fresh(),
        exists|cs: Seq<Vec2>| spawned_population(r@, cs, *rect),
{
    let mut centres: Vec<Vec2> = Vec::new();
    let mut i: usize = 0;
    while i < num_growths
        invariant
            rect.wf(),
            i <= num_growths,
            centres@.len() == i,
            forall|j: int| 0 <= j < i ==> rect.holds_padded(#[trigger] centres@[j]),
            forall|j: int| 0 <= j < i ==> (#[trigger] centres@[j]).in_box(),
        decreases num_growths - i,
    {
        centres.push(random_centre(rect));
        i = i + 1;
    }
    let mut growths: Vec<Growth> = Vec::new();
    let mut k: usize = 0;
    while k < num_growths
        invariant
            rect.wf(),
            k <= num_growths,
            centres@.len() == num_growths,
            forall|j: int| 0 <= j < num_growths ==> rect.holds_padded(#[trigger] centres@[j]),
            forall|j: int| 0 <= j < num_growths ==> (#[trigger] centres@[j]).in_box(),
            growths@.len() == k,
            forall|j: int| 0 <= j < k ==> (#[trigger] growths@[j]).wf(),
            forall|j: int| 0 <= j < k ==> (#[trigger] growths@[j]).fresh(),
            forall|j: int| 0 <= j < k ==> (#[trigger] growths@[j]).centre == centres@[j],
            forall|j: int|
                0 <= j < k ==> (#[trigger] growths@[j]).targets() == centres@.filter(
                    other_than(centres@[j]),
                ),
            forall|j: int| 0 <= j < k ==> is_palette_colour((#[trigger] growths@[j]).colour),
        decreases num_growths - k,
    {
        let centre = centres[k];
        let base = random_colour();
        growths.push(Growth::new(centre, &centres, base));
        proof {
            lemma_palette_colour(base, growths@.last().colour);
        }
        k = k + 1;
    }
    proof {
        assert(spawned_population(growths@, centres@, *rect));
    }
    growths
}

/// Keeps every agent that still has an unfinished filament.
pub open spec fn unfinished_growth() -> spec_fn(Growth) -> bool {
    |g: Growth| !g.spec_is_finished()
}

/// An agent's centre.
pub open spec fn centre_of() -> spec_fn(Growth) -> Vec2 {
    |g: Growth| g.centre
}

/// `post` is `pre` with every agent stepped once, with the given tunables.
pub open spec fn stepped_all(
    pre: Seq<Growth>,
    post: Seq<Growth>,
    step_length: int,
    rand_factor: int,
) -> bool {
    &&& post.len() == pre.len()
    &&& forall|i: int|
        0 <= i < pre.len() ==> crate::growth::stepped_growth(
            pre[i],
            #[trigger] post[i],
            step_length,
            rand_factor,
        )
}

/// Step every agent once, with the step length and jitter magnitude read
/// from the parameter store (falling back to the built-in defaults).
pub fn step_growths(growths: &mut Vec<Growth>, config: &Config)
    requires
        config.wf(),
        forall|i: int| 0 <= i < old(growths)@.len() ==> (#[trigger] old(growths)@[i]).wf(),
    ensures
        stepped_all(
            old(growths)@,
            final(growths)@,
            config.spec_get_or("step_amount"@, DEFAULT_STEP_LENGTH) as int,
            config.spec_get_or("rand_factor"@, DEFAULT_RAND_FACTOR) as int,
        ),
{
    let step_length = config.get_with_default("step_amount", DEFAULT_STEP_LENGTH);
    let rand_factor = config.get_with_default("rand_factor", DEFAULT_RAND_FACTOR);
    let n = growths.len();
    let mut i: usize = 0;
    while i < n
        invariant
            n == growths@.len(),
            old(growths)@.len() == n,
            i <= n,
            forall|j: int| 0 <= j < n ==> (#[trigger] old(growths)@[j]).wf(),
            step_length == config.spec_get_or("step_amount"@, DEFAULT_STEP_LENGTH),
            rand_factor == config.spec_get_or("rand_factor"@, DEFAULT_RAND_FACTOR),
            forall|j: int|
                0 <= j < i ==> crate::growth::stepped_growth(
                    old(growths)@[j],
                    #[trigger] growths@[j],
                    step_length as int,
                    rand_factor as int,
                ),
            forall|j: int| i <= j < n ==> growths@[j] == old(growths)@[j],
        decreases n - i,
    {
        let ghost before = growths@;
        let mut g = growths.remove(i);
        g.step_growth(step_length, rand_factor);
        growths.insert(i, g);
        proof {
            assert(growths@ =~= before.update(i as int, g));
        }
        i = i + 1;
    }
}

/// `post` is `pre` with the finished agents culled and replaced: survivors
/// are kept verbatim and in order, and each finished agent is replaced by a
/// fresh one at a random padded centre, growing toward the survivors'
/// centres.
pub open spec fn culled_population(pre: Seq<Growth>, post: Seq<Growth>, rect: Rect) -> bool {
    let kept = pre.filter(unfinished_growth());
    let kept_centres = kept.map_values(centre_of());
    &&& post.len() == pre.len()
    &&& kept.len() <= pre.len()
    &&& post.take(kept.len() as int) == kept
    &&& forall|i: int|
        kept.len() <= i < post.len() ==> {
            &&& (#[trigger] post[i]).wf()
            &&& post[i].fresh()
            &&& rect.holds_padded(post[i].centre)
            &&& post[i].targets() == kept_centres.filter(other_than(post[i].centre))
            &&& is_palette_colour(post[i].colour)
        }
}

/// Cull and replace: keep every unfinished agent verbatim, and spawn one
/// fresh agent for every finished one, so the population size never
/// changes. Of the two known pacing policies this is the continuous
/// trickle: each finished agent is replaced on the tick it finishes, rather
/// than flushing the whole population at a completion threshold.
pub fn change_points(growths: &mut Vec<Growth>, rect: &Rect)
    requires
        rect.wf(),
        forall|i: int| 0 <= i < old(growths)@.len() ==> (#[trigger] old(growths)@[i]).wf(),
    ensures
        culled_population(old(growths)@, final(growths)@, *rect),
        forall|i: int| 0 <= i < final(growths)@.len() ==> (#[trigger] final(growths)@[i]).wf(),
{
    let total = growths.len();
    let mut kept: Vec<Growth> = Vec::new();
    let mut kept_centres: Vec<Vec2> = Vec::new();
    let mut idx: usize = 0;
    proof {
        reveal(Seq::filter);
        assert(old(growths)@.take(0).filter(unfinished_growth()) =~= Seq::<Growth>::empty());
        assert(kept@.map_values(centre_of()) =~= Seq::<Vec2>::empty());
    }
    while idx < total
        invariant
            rect.wf(),
            idx <= total,
            old(growths)@.len() == total,
            growths@ =~= old(growths)@.subrange(idx as int, total as int),
            forall|j: int| 0 <= j < old(growths)@.len() ==> (#[trigger] old(growths)@[j]).wf(),
            kept@ == old(growths)@.take(idx as int).filter(unfinished_growth()),
            kept_centres@ == kept@.map_values(centre_of()),
            forall|j: int| 0 <= j < kept@.len() ==> (#[trigger] kept@[j]).wf(),
            forall|j: int| 0 <= j < kept_centres@.len() ==> (#[trigger] kept_centres@[j]).in_box(),
        decreases total - idx,
    {
        let g = growths.remove(0);
        let ghost prev_kept = kept@;
        let ghost prev_centres = kept_centres@;
        let done = g.is_finished();
        if !done {
            kept_centres.push(g.centre);
            kept.push(g);
        }
        proof {
            reveal(Seq::filter);
            let t = old(growths)@.take(idx as int);
            let x = old(growths)@[idx as int];
            assert(old(growths)@.take(idx + 1) =~= t.push(x));
            assert(t.push(x).drop_last() =~= t);
            assert(t.push(x).drop_last() == t);
            assert(t.push(x).last() == x);
            if !done {
                assert(kept@ =~= prev_kept.push(x));
                assert(kept_centres@ =~= kept@.map_values(centre_of()));
            }
            assert(kept@ == old(growths)@.take(idx + 1).filter(unfinished_growth()));
        }
        idx = idx + 1;
    }
    proof {
        assert(old(growths)@.take(total as int) =~= old(growths)@);
    }
    let ghost survivors = old(growths)@.filter(unfinished_growth());
    let kept_count = kept.len();
    proof {
        assert(survivors.len() <= total) by {
            old(growths)@.lemma_filter_len(unfinished_growth());
        }
    }
    while kept.len() < total
        invariant
            rect.wf(),
            kept_count == survivors.len(),
            kept_count <= kept@.len() <= total,
            kept@.take(kept_count as int) == survivors,
            kept_centres@ == survivors.map_values(centre_of()),
            forall|j: int| 0 <= j < kept_centres@.len() ==> (#[trigger] kept_centres@[j]).in_box(),
            forall|j: int| 0 <= j < kept@.len() ==> (#[trigger] kept@[j]).wf(),
            forall|j: int|
                kept_count <= j < kept@.len() ==> {
                    &&& (#[trigger] kept@[j]).fresh()
                    &&& rect.holds_padded(kept@[j].centre)
                    &&& kept@[j].targets() == kept_centres@.filter(other_than(kept@[j].centre))
                    &&& is_palette_colour(kept@[j].colour)
                },
        decreases total - kept@.len(),
    {
        let ghost prev_kept = kept@;
        let centre = random_centre(rect);
        let base = random_colour();
        kept.push(Growth::new(centre, &kept_centres, base));
        proof {
            assert(kept@.take(kept_count as int) =~= prev_kept.take(kept_count as int));
            lemma_palette_colour(base, kept@.last().colour);
        }
    }
    *growths = kept;
}

/// The store holding the built-in tunables at their default values.
pub open spec fn is_default_config(c: Config) -> bool {
    &&& c.keys@.len() == 3
    &&& c.keys@[0]@ == "max_vary_amount"@
    &&& c.keys@[1]@ == "step_amount"@
    &&& c.keys@[2]@ == "rand_factor"@
    &&& c.values@ =~= seq![DEFAULT_MAX_VARY, DEFAULT_STEP_LENGTH, DEFAULT_RAND_FACTOR]
    &&& c.selected_value == 0
    &&& c.wf()
}

/// Build the parameter store with the built-in tunables.
pub fn default_config() -> (r: Config)
    ensures
        is_default_config(r),
{
    proof {
        reveal_strlit("max_vary_amount");
        reveal_strlit("step_amount");
        reveal_strlit("rand_factor");
    }
    let mut keys: Vec<String> = Vec::new();
    keys.push("max_vary_amount".to_owned());
    keys.push("step_amount".to_owned());
    keys.push("rand_factor".to_owned());
    let mut values: Vec<i64> = Vec::new();
    values.push(DEFAULT_MAX_VARY);
    values.push(DEFAULT_STEP_LENGTH);
    values.push(DEFAULT_RAND_FACTOR);
    proof {
        assert("max_vary_amount"@.len() == 15);
        assert("step_amount"@.len() == 11);
        assert("rand_factor"@.len() == 11);
        assert("step_amount"@[0] == 's' && "rand_factor"@[0] == 'r');
        assert(forall|i: int, j: int| 0 <= i < j < keys@.len() ==> keys@[i]@ != keys@[j]@) by {
            assert(keys@[0]@ != keys@[1]@);
            assert(keys@[0]@ != keys@[2]@);
            assert(keys@[1]@ != keys@[2]@);
        }
    }
    Config::new(keys, values)
}

/// The simulation context handed around the host loop: the population, the
/// parameter store, and the current display-wiggle amplitude.
pub struct Model {
    pub growths: Vec<Growth>,
    pub vary_amount: i64,
    pub config: Config,
}

impl Model {
    pub open spec fn wf(self) -> bool {
        &&& forall|i: int| 0 <= i < self.growths@.len() ==> (#[trigger] self.growths@[i]).wf()
        &&& self.config.wf()
    }

    /// A freshly seeded simulation: `num_growths` new agents inside the
    /// padded viewport and the parameter store at its defaults.
    pub fn new(rect: &Rect, num_growths: usize) -> (r: Model)
        requires
            rect.wf(),
        ensures
            r.wf(),
            r.growths@.len() == num_growths,
            forall|i: int| 0 <= i < r.growths@.len() ==> (#[trigger] r.growths@[i]).fresh(),
            exists|cs: Seq<Vec2>| spawned_population(r.growths@, cs, *rect),
            is_default_config(r.config),
            r.vary_amount == SCALE,
    {
        Model {
            growths: create_new_growths(rect, num_growths),
            vary_amount: SCALE,
            config: default_config(),
        }
    }
}

/// The ceiling the display wiggle oscillates up to: the stored
/// "max_vary_amount" (falling back to 1.5 display units), but never below
/// the wave's floor of one display unit.
pub open spec fn vary_ceiling(config: Config) -> int {
    let mv = config.spec_get_or("max_vary_amount"@, 1500);
    if mv < SCALE {
        SCALE as int
    } else {
        mv as int
    }
}

/// One simulation tick: step every agent, cull and replace the finished
/// ones, and move the display wiggle along its oscillator. The population
/// size never changes.
pub fn update(model: &mut Model, rect: &Rect, elapsed_ms: u64)
    requires
        old(model).wf(),
        rect.wf(),
    ensures
        final(model).wf(),
        final(model).config == old(model).config,
        final(model).growths@.len() == old(model).growths@.len(),
        exists|mid: Seq<Growth>|
            stepped_all(
                old(model).growths@,
                mid,
                old(model).config.spec_get_or("step_amount"@, DEFAULT_STEP_LENGTH) as int,
                old(model).config.spec_get_or("rand_factor"@, DEFAULT_RAND_FACTOR) as int,
            ) && culled_population(mid, final(model).growths@, *rect),
        final(model).vary_amount == crate::helpers::cycle_spec(
            elapsed_ms as int,
            VARY_CYCLE_MS as int,
            SCALE as int,
            vary_ceiling(old(model).config),
        ),
{
    step_growths(&mut model.growths, &model.config);
    let ghost mid = model.growths@;
    change_points(&mut model.growths, rect);
    let mv = model.config.get_with_default("max_vary_amount", 1500);
    let ceiling = if mv < SCALE {
        SCALE
    } else {
        mv
    };
    model.vary_amount = cycle_value_over_time(elapsed_ms, VARY_CYCLE_MS, SCALE, ceiling);
}

/// What the host loop may ask of the simulation between ticks.
#[derive(Clone, Copy, Debug, PartialEq, Eq, Structural)]
pub enum Command {
    Reseed,
    SelectPrevious,
    SelectNext,
    IncreaseSmall,
    DecreaseSmall,
    IncreaseLarge,
    DecreaseLarge,
}

/// Fine adjustment applied to the selected tunable, in fixed-point steps.
pub const SMALL_ADJUST: i64 = 100;

/// Coarse adjustment applied to the selected tunable, in fixed-point steps.
pub const LARGE_ADJUST: i64 = 1000;

/// Apply one user command: reseed the whole simulation, move the parameter
/// cursor, or adjust the selected parameter.
pub fn key_pressed(model: &mut Model, rect: &Rect, command: Command)
    requires
        old(model).wf(),
        rect.wf(),
    ensures
        final(model).wf(),
        match command {
            Command::Reseed => {
                &&& final(model).growths@.len() == NUM_GROWTHS
                &&& forall|i: int|
                    0 <= i < final(model).growths@.len()
                        ==> (#[trigger] final(model).growths@[i]).fresh()
                &&& exists|cs: Seq<Vec2>| spawned_population(final(model).growths@, cs, *rect)
                &&& is_default_config(final(model).config)
                &&& final(model).vary_amount == SCALE
            },
            Command::SelectPrevious => {
                &&& final(model).growths == old(model).growths
                &&& final(model).vary_amount == old(model).vary_amount
                &&& final(model).config.keys == old(model).config.keys
                &&& final(model).config.values == old(model).config.values
                &&& final(model).config.selected_value as int == prev_sel(
                    old(model).config.selected_value as int,
                    old(model).config.keys@.len() as int,
                )
            },
            Command::SelectNext => {
                &&& final(model).growths == old(model).growths
                &&& final(model).vary_amount == old(model).vary_amount
                &&& final(model).config.keys == old(model).config.keys
                &&& final(model).config.values == old(model).config.values
                &&& final(model).config.selected_value as int == next_sel(
                    old(model).config.selected_value as int,
                    old(model).config.keys@.len() as int,
                )
            },
            Command::IncreaseSmall => {
                &&& final(model).growths == old(model).growths
                &&& final(model).vary_amount == old(model).vary_amount
                &&& adjusted_config(old(model).config, final(model).config, SMALL_ADJUST as int)
            },
            Command::DecreaseSmall => {
                &&& final(model).growths == old(model).growths
                &&& final(model).vary_amount == old(model).vary_amount
                &&& adjusted_config(old(model).config, final(model).config, -SMALL_ADJUST as int)
            },
            Command::IncreaseLarge => {
                &&& final(model).growths == old(model).growths
                &&& final(model).vary_amount == old(model).vary_amount
                &&& adjusted_config(old(model).config, final(model).config, LARGE_ADJUST as int)
            },
            Command::DecreaseLarge => {
                &&& final(model).growths == old(model).growths
                &&& final(model).vary_amount == old(model).vary_amount
                &&& adjusted_config(old(model).config, final(model).config, -LARGE_ADJUST as int)
            },
        },
{
    match command {
        Command::Reseed => {
            *model = Model::new(rect, NUM_GROWTHS);
        },
        Command::SelectPrevious => {
            model.config.prev_key();
        },
        Command::SelectNext => {
            model.config.next_key();
        },
        Command::IncreaseSmall => {
            model.config.change_value(SMALL_ADJUST);
        },
        Command::DecreaseSmall => {
            model.config.change_value(-SMALL_ADJUST);
        },
        Command::IncreaseLarge => {
            model.config.change_value(LARGE_ADJUST);
        },
        Command::DecreaseLarge => {
            model.config.change_value(-LARGE_ADJUST);
        },
    }
}

} // verus!
