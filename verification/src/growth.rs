//! Filaments and growth agents: the per-filament state machine with its
//! biased-random-walk stepping, and the agent that owns one filament per
//! other centre in the population.

use vstd::prelude::*;

use crate::helpers::{near_unit, rand_normalised_vec};
use crate::math::{clamp_i64, spec_clamp, MAX_COORD, SCALE};
use crate::vec2::{
    dist, dist2, lemma_dist_ge_components, lemma_scaled_part_le_s, scaled_part, scaled_part_exec,
    distance, Vec2, MAX_STEP,
};

verus! {

/// A filament snaps to its target once within this many coordinate steps.
pub const TERMINATION_RADIUS: i64 = 2 * SCALE;

/// A position on a filament, together with its per-point variation vector:
/// a direction fixed at creation and used only to wiggle the displayed
/// position, never the simulated one.
#[derive(Clone, Copy, Debug, PartialEq, Eq, Structural)]
pub struct Point {
    pub pos: Vec2,
    pub vary: Vec2,
}

impl Point {
    /// The position is in the coordinate square and the variation vector is
    /// at most one display unit along each axis.
    pub open spec fn wf(self) -> bool {
        self.pos.in_box() && -SCALE <= self.vary.x <= SCALE && -SCALE <= self.vary.y <= SCALE
    }

    /// The point's variation vector.
    pub fn variation(&self) -> (r: Vec2)
        ensures
            r == self.vary,
    {
        self.vary
    }

    /// A point at `pos` with a freshly sampled random variation vector of
    /// roughly unit length.
    pub fn new(pos: Vec2) -> (r: Point)
        requires
            pos.in_box(),
        ensures
            r.pos == pos,
            near_unit(r.vary),
            r.wf(),
    {
        Point { pos, vary: rand_normalised_vec() }
    }

    /// A point at `pos` with no variation at all.
    pub fn anchored(pos: Vec2) -> (r: Point)
        requires
            pos.in_box(),
        ensures
            r == (Point { pos, vary: Vec2 { x: 0, y: 0 } }),
            r.wf(),
    {
        Point { pos, vary: Vec2 { x: 0, y: 0 } }
    }

    /// The position scaled to one display unit of length (left alone at the
    /// origin, where there is no direction to keep).
    pub fn normalize(&self) -> (r: Point)
        requires
            self.pos.in_box(),
        ensures
            r.vary == self.vary,
            self.pos == (Vec2 { x: 0, y: 0 }) ==> r.pos == self.pos,
            self.pos != (Vec2 { x: 0, y: 0 }) ==> {
                let d = dist(self.pos, Vec2 { x: 0, y: 0 }) as int;
                r.pos == (Vec2 {
                    x: scaled_part(SCALE as int, self.pos.x as int, d) as i64,
                    y: scaled_part(SCALE as int, self.pos.y as int, d) as i64,
                })
            },
    {
        let origin = Vec2 { x: 0, y: 0 };
        if self.pos == origin {
            return *self;
        }
        proof {
            lemma_dist_ge_components(self.pos, origin);
        }
        let d = distance(self.pos, origin) as i64;
        proof {
            lemma_scaled_part_le_s(SCALE as int, self.pos.x as int, d as int);
            lemma_scaled_part_le_s(SCALE as int, self.pos.y as int, d as int);
        }
        let nx = scaled_part_exec(SCALE, self.pos.x, d);
        let ny = scaled_part_exec(SCALE, self.pos.y, d);
        Point { pos: Vec2 { x: nx, y: ny }, vary: self.vary }
    }

    /// The displayed position: the simulated position displaced along the
    /// variation vector by `amount` coordinate steps (clamped to `[0,
    /// MAX_STEP]`), scaled down by the unit length of the variation vector.
    pub open spec fn spec_varied(self, amount: int) -> Vec2 {
        let a = spec_clamp(amount, 0, MAX_STEP as int);
        Vec2 {
            x: (self.pos.x + scaled_part(a, self.vary.x as int, SCALE as int)) as i64,
            y: (self.pos.y + scaled_part(a, self.vary.y as int, SCALE as int)) as i64,
        }
    }

    /// Displace the position along the variation vector by `amount`
    /// coordinate steps. A presentation transform only: simulation state is
    /// never fed from it.
    pub fn vary_by_amount(&self, amount: i64) -> (r: Vec2)
        requires
            self.wf(),
        ensures
            r == self.spec_varied(amount as int),
    {
        let a = clamp_i64(amount, 0, MAX_STEP);
        proof {
            lemma_scaled_part_le_s(a as int, self.vary.x as int, SCALE as int);
            lemma_scaled_part_le_s(a as int, self.vary.y as int, SCALE as int);
        }
        let ox = scaled_part_exec(a, self.vary.x, SCALE);
        let oy = scaled_part_exec(a, self.vary.y, SCALE);
        Vec2 { x: self.pos.x + ox, y: self.pos.y + oy }
    }
}

/// One directed filament: the growing polyline from `start` toward `end`,
/// and the flag that freezes it once the target is reached.
#[derive(Clone, Debug)]
pub struct Line {
    pub start: Vec2,
    pub end: Vec2,
    pub points: Vec<Point>,
    pub finished: bool,
}

/// Where a stepping move lands: from `last`, `step_length` coordinate steps
/// (clamped to `[0, MAX_STEP]`) toward `end`, displaced by the jitter vector
/// (clamped to `MAX_STEP` per axis), pulled back into the coordinate square.
pub open spec fn step_pos(last: Vec2, end: Vec2, step_length: int, jitter: Vec2) -> Vec2 {
    let d = dist(last, end) as int;
    let s = spec_clamp(step_length, 0, MAX_STEP as int);
    let jx = spec_clamp(jitter.x as int, -MAX_STEP as int, MAX_STEP as int);
    let jy = spec_clamp(jitter.y as int, -MAX_STEP as int, MAX_STEP as int);
    Vec2 {
        x: spec_clamp(
            last.x - scaled_part(s, last.x - end.x, d) - jx,
            -MAX_COORD as int,
            MAX_COORD as int,
        ) as i64,
        y: spec_clamp(
            last.y - scaled_part(s, last.y - end.y, d) - jy,
            -MAX_COORD as int,
            MAX_COORD as int,
        ) as i64,
    }
}

impl Line {
    /// Structural invariant: the polyline starts at `start`, every point is
    /// well formed, a finished filament ends exactly at `end`, and no
    /// filament ever runs from a point to itself.
    pub open spec fn wf(self) -> bool {
        &&& self.start.in_box()
        &&& self.end.in_box()
        &&& self.start != self.end
        &&& self.points@.len() >= 1
        &&& self.points@[0].pos == self.start
        &&& forall|i: int| 0 <= i < self.points@.len() ==> (#[trigger] self.points@[i]).wf()
        &&& self.finished ==> self.points@.last().pos == self.end
    }

    /// The filament's current tip.
    pub open spec fn last_pos(self) -> Vec2 {
        self.points@.last().pos
    }

    /// A fresh, unfinished filament from `start` to `end`, holding only its
    /// anchor point.
    pub fn new(start: Vec2, end: Vec2) -> (r: Line)
        requires
            start.in_box(),
            end.in_box(),
            start != end,
        ensures
            r.start == start,
            r.end == end,
            !r.finished,
            r.points@.len() == 1,
            r.points@[0] == (Point { pos: start, vary: Vec2 { x: 0, y: 0 } }),
            r.wf(),
    {
        let mut points: Vec<Point> = Vec::new();
        points.push(Point::anchored(start));
        Line { start, end, points, finished: false }
    }

    /// One simulation step with the jitter supplied by the caller, so the
    /// walk itself is a function of its arguments alone. Stopped filaments
    /// stay put; a tip already at `end` only flips `finished`; a tip within
    /// the termination radius snaps exactly onto `end`; any other tip takes
    /// one biased step toward `end` plus the jitter.
    pub fn step_line_with(&mut self, step_length: i64, jitter: Vec2)
        requires
            old(self).wf(),
        ensures
            final(self).wf(),
            final(self).start == old(self).start,
            final(self).end == old(self).end,
            old(self).finished ==> *final(self) == *old(self),
            !old(self).finished && old(self).last_pos() == old(self).end ==> final(self).finished
                && final(self).points == old(self).points,
            !old(self).finished && old(self).last_pos() != old(self).end ==> {
                &&& !final(self).finished
                &&& final(self).points@ == old(self).points@.push(final(self).points@.last())
                &&& dist(old(self).last_pos(), old(self).end) <= TERMINATION_RADIUS
                    ==> final(self).points@.last() == (Point {
                    pos: old(self).end,
                    vary: Vec2 { x: 0, y: 0 },
                })
                &&& dist(old(self).last_pos(), old(self).end) > TERMINATION_RADIUS
                    ==> final(self).points@.last().pos == step_pos(
                    old(self).last_pos(),
                    old(self).end,
                    step_length as int,
                    jitter,
                )
            },
    {
        if self.finished {
            return ;
        }
        let last = self.points[self.points.len() - 1];
        if last.pos == self.end {
            self.finished = true;
            return ;
        }
        let d = distance(last.pos, self.end);
        if d <= TERMINATION_RADIUS as u64 {
            self.points.push(Point::anchored(self.end));
            proof {
                assert(self.points@ == old(self).points@.push(self.points@.last()));
            }
            return ;
        }
        proof {
            lemma_dist_ge_components(last.pos, self.end);
            assert(last.pos.x != self.end.x || last.pos.y != self.end.y);
        }
        let s = clamp_i64(step_length, 0, MAX_STEP);
        let jx = clamp_i64(jitter.x, -MAX_STEP, MAX_STEP);
        let jy = clamp_i64(jitter.y, -MAX_STEP, MAX_STEP);
        let di = d as i64;
        let mx = scaled_part_exec(s, last.pos.x - self.end.x, di);
        let my = scaled_part_exec(s, last.pos.y - self.end.y, di);
        proof {
            lemma_scaled_part_le_s(s as int, (last.pos.x - self.end.x) as int, di as int);
            lemma_scaled_part_le_s(s as int, (last.pos.y - self.end.y) as int, di as int);
        }
        let next = Vec2 { x: last.pos.x - mx - jx, y: last.pos.y - my - jy }.clamped();
        self.points.push(Point::new(next));
        proof {
            assert(self.points@ == old(self).points@.push(self.points@.last()));
        }
    }

    /// One simulation step of `step_line_with`, with the jitter drawn at
    /// random: a random direction scaled by `rand_factor` (clamped to `[0,
    /// MAX_STEP]`). Everything stated holds whatever jitter was drawn.
    pub fn step_line(&mut self, step_length: i64, rand_factor: i64)
        requires
            old(self).wf(),
        ensures
            stepped_line(*old(self), *final(self), step_length as int, rand_factor as int),
    {
        let rf = clamp_i64(rand_factor, 0, MAX_STEP);
        let unit = rand_normalised_vec();
        proof {
            lemma_scaled_part_le_s(rf as int, unit.x as int, SCALE as int);
            lemma_scaled_part_le_s(rf as int, unit.y as int, SCALE as int);
        }
        let jitter = Vec2 {
            x: scaled_part_exec(rf, unit.x, SCALE),
            y: scaled_part_exec(rf, unit.y, SCALE),
        };
        self.step_line_with(step_length, jitter);
        proof {
            let pre = *old(self);
            let rfi = spec_clamp(rand_factor as int, 0, MAX_STEP as int);
            if !pre.finished && pre.last_pos() != pre.end && dist(pre.last_pos(), pre.end)
                > TERMINATION_RADIUS {
                assert(-rfi <= jitter.x as int <= rfi && -rfi <= jitter.y as int <= rfi
                    && self.points@.last().pos == step_pos(
                    pre.last_pos(),
                    pre.end,
                    step_length as int,
                    jitter,
                ));
            }
        }
    }

    /// Map every stored point to its displayed position, displaced along its
    /// variation vector by `amount` coordinate steps.
    pub fn render_points(&self, amount: i64) -> (r: Vec<Vec2>)
        requires
            self.wf(),
        ensures
            r@.len() == self.points@.len(),
            forall|i: int|
                0 <= i < r@.len() ==> r@[i] == self.points@[i].spec_varied(amount as int),
    {
        let mut out: Vec<Vec2> = Vec::new();
        let n = self.points.len();
        let mut i: usize = 0;
        while i < n
            invariant
                self.wf(),
                n == self.points@.len(),
                i <= n,
                out@.len() == i,
                forall|j: int|
                    0 <= j < i ==> out@[j] == self.points@[j].spec_varied(amount as int),
            decreases n - i,
        {
            let p = self.points[i];
            out.push(p.vary_by_amount(amount));
            i = i + 1;
        }
        out
    }
}

/// How an agent may change over one call of `step_growth`: centre and
/// colour are kept, and every filament takes one `step_line` step.
pub open spec fn stepped_growth(pre: Growth, post: Growth, step_length: int, rand_factor: int) -> bool {
    &&& post.wf()
    &&& post.centre == pre.centre
    &&& post.colour == pre.colour
    &&& post.lines@.len() == pre.lines@.len()
    &&& forall|i: int|
        0 <= i < pre.lines@.len() ==> stepped_line(
            pre.lines@[i],
            #[trigger] post.lines@[i],
            step_length,
            rand_factor,
        )
}

/// How a filament may change over one call of `step_line`: exactly as
/// `step_line_with` describes, for some jitter vector bounded per axis by
/// the clamped `rand_factor`.
pub open spec fn stepped_line(pre: Line, post: Line, step_length: int, rand_factor: int) -> bool {
    let rf = spec_clamp(rand_factor, 0, MAX_STEP as int);
    &&& post.wf()
    &&& post.start == pre.start
    &&& post.end == pre.end
    &&& (pre.finished ==> post == pre)
    &&& (!pre.finished && pre.last_pos() == pre.end ==> post.finished && post.points
        == pre.points)
    &&& (!pre.finished && pre.last_pos() != pre.end ==> {
        &&& !post.finished
        &&& post.points@ == pre.points@.push(post.points@.last())
        &&& (dist(pre.last_pos(), pre.end) <= TERMINATION_RADIUS ==> post.points@.last() == (
        Point { pos: pre.end, vary: Vec2 { x: 0, y: 0 } }))
        &&& (dist(pre.last_pos(), pre.end) > TERMINATION_RADIUS ==> exists|j: Vec2|
            -rf <= j.x as int <= rf && -rf <= j.y as int <= rf && post.points@.last().pos
                == #[trigger] step_pos(pre.last_pos(), pre.end, step_length, j))
    })
}

/// Progress of the walk: a stepping move that does not overshoot (the step
/// is at most the distance left) brings the tip no farther from the target
/// than twice the jitter bound plus one rounding step, whatever the jitter.
pub proof fn lemma_step_progress(last: Vec2, end: Vec2, step_length: int, jitter: Vec2, jb: int)
    requires
        last.in_box(),
        end.in_box(),
        last != end,
        0 <= step_length <= dist(last, end),
        0 <= jb,
        -jb <= jitter.x as int <= jb,
        -jb <= jitter.y as int <= jb,
    ensures
        dist(step_pos(last, end, step_length, jitter), end) <= dist(last, end) + 2 * jb + 1,
{
    let r = dist(last, end) as int;
    let d2 = dist2(last, end);
    crate::vec2::lemma_dist2_nonneg(last, end);
    crate::math::lemma_sqrt_floor_bounds(d2 as nat);
    assert((r + 1) * (r + 1) == r * r + 2 * r + 1) by (nonlinear_arith);
    lemma_dist_ge_components(last, end);
    let dx = last.x - end.x;
    let dy = last.y - end.y;
    let ax = if dx >= 0 { dx } else { -dx };
    let ay = if dy >= 0 { dy } else { -dy };
    assert(ax * ax == dx * dx && ay * ay == dy * dy) by (nonlinear_arith)
        requires
            ax == dx || ax == -dx,
            ay == dy || ay == -dy,
    ;
    assert(ax <= r && ay <= r && r >= 1);
    let s = spec_clamp(step_length, 0, MAX_STEP as int);
    crate::vec2::lemma_scaled_part_le_delta(s, dx, r);
    crate::vec2::lemma_scaled_part_le_delta(s, dy, r);
    let mx = scaled_part(s, dx, r);
    let my = scaled_part(s, dy, r);
    let jx = spec_clamp(jitter.x as int, -MAX_STEP as int, MAX_STEP as int);
    let jy = spec_clamp(jitter.y as int, -MAX_STEP as int, MAX_STEP as int);
    assert(-jb <= jx <= jb && -jb <= jy <= jb);
    let np = step_pos(last, end, step_length, jitter);
    assert(np.x == spec_clamp(last.x - mx - jx, -MAX_COORD as int, MAX_COORD as int));
    assert(np.y == spec_clamp(last.y - my - jy, -MAX_COORD as int, MAX_COORD as int));
    let dxn = np.x - end.x;
    let dyn_ = np.y - end.y;
    assert(-(ax + jb) <= dxn <= ax + jb);
    assert(-(ay + jb) <= dyn_ <= ay + jb);
    let b = r + 2 * jb + 1;
    assert(dxn * dxn <= (ax + jb) * (ax + jb)) by (nonlinear_arith)
        requires
            -(ax + jb) <= dxn <= ax + jb,
    ;
    assert(dyn_ * dyn_ <= (ay + jb) * (ay + jb)) by (nonlinear_arith)
        requires
            -(ay + jb) <= dyn_ <= ay + jb,
    ;
    assert((ax + jb) * (ax + jb) == ax * ax + 2 * (ax * jb) + jb * jb) by (nonlinear_arith);
    assert((ay + jb) * (ay + jb) == ay * ay + 2 * (ay * jb) + jb * jb) by (nonlinear_arith);
    assert(b * b == r * r + 4 * (jb * jb) + 4 * (r * jb) + 2 * r + 4 * jb + 1) by (nonlinear_arith)
        requires
            b == r + 2 * jb + 1,
    ;
    assert(ax * jb <= r * jb && ay * jb <= r * jb && jb * jb >= 0) by (nonlinear_arith)
        requires
            0 <= jb,
            ax <= r,
            ay <= r,
    ;
    assert(dxn * dxn + dyn_ * dyn_ <= b * b);
    assert(dist2(np, end) == dxn * dxn + dyn_ * dyn_);
    crate::vec2::lemma_dist2_nonneg(np, end);
    crate::math::lemma_sqrt_floor_monotone(dist2(np, end) as nat, (b * b) as nat);
    crate::math::lemma_sqrt_floor_of_square(b as nat);
}

/// Progress at the filament level: across one `step_line` call whose step
/// does not overshoot, the tip ends at most twice the jitter bound plus one
/// rounding step farther from the target than it began; the snap and
/// finishing steps only bring it closer. The appended point sequence is
/// thus non-decreasing in progress, up to that known bound.
pub proof fn lemma_line_step_progress(pre: Line, post: Line, step_length: int, rand_factor: int)
    requires
        pre.wf(),
        stepped_line(pre, post, step_length, rand_factor),
        !pre.finished,
        0 <= step_length <= dist(pre.last_pos(), pre.end),
    ensures
        dist(post.last_pos(), post.end) <= dist(pre.last_pos(), pre.end) + 2 * spec_clamp(
            rand_factor,
            0,
            MAX_STEP as int,
        ) + 1,
{
    let rf = spec_clamp(rand_factor, 0, MAX_STEP as int);
    assert(pre.points@.last().wf());
    if pre.last_pos() == pre.end {
        assert(post.points == pre.points);
    } else if dist(pre.last_pos(), pre.end) <= TERMINATION_RADIUS {
        assert(post.points@.last().pos == pre.end);
        assert(dist2(pre.end, pre.end) == 0) by (nonlinear_arith);
        assert(crate::math::sqrt_floor(0) == 0);
    } else {
        let j = choose|j: Vec2|
            -rf <= j.x as int <= rf && -rf <= j.y as int <= rf && post.points@.last().pos
                == #[trigger] step_pos(pre.last_pos(), pre.end, step_length, j);
        lemma_step_progress(pre.last_pos(), pre.end, step_length, j, rf);
    }
}

/// A palette colour, fully opaque.
#[derive(Clone, Copy, Debug, PartialEq, Eq, Structural)]
pub struct Rgb {
    pub red: u8,
    pub green: u8,
    pub blue: u8,
}

/// A display colour with its translucency in thousandths.
#[derive(Clone, Copy, Debug, PartialEq, Eq, Structural)]
pub struct Rgba {
    pub red: u8,
    pub green: u8,
    pub blue: u8,
    pub alpha_milli: u16,
}

/// The low, fixed translucency every filament is drawn with.
pub const LINE_ALPHA_MILLI: u16 = 100;

/// The channels of a `0xRRGGBB` colour word.
pub open spec fn rgb_of_word(w: u32) -> Rgb {
    Rgb {
        red: (w / 0x10000 % 0x100) as u8,
        green: (w / 0x100 % 0x100) as u8,
        blue: (w % 0x100) as u8,
    }
}

/// `c` with the fixed filament translucency attached.
pub open spec fn rgba_with_line_alpha(c: Rgb) -> Rgba {
    Rgba { red: c.red, green: c.green, blue: c.blue, alpha_milli: LINE_ALPHA_MILLI }
}

/// Split a `0xRRGGBB` colour word into its channels.
pub fn rgb_from_u32(c: u32) -> (r: Rgb)
    ensures
        r == rgb_of_word(c),
        r.red == c / 0x10000 % 0x100,
        r.green == c / 0x100 % 0x100,
        r.blue == c % 0x100,
{
    Rgb { red: (c / 0x10000 % 0x100) as u8, green: (c / 0x100 % 0x100) as u8, blue: (c
        % 0x100) as u8 }
}

/// Keeps every centre other than `centre` itself.
pub open spec fn other_than(centre: Vec2) -> spec_fn(Vec2) -> bool {
    |c: Vec2| c != centre
}

/// Where `me` does not occur, the self-exclusion filter keeps everything.
pub proof fn lemma_other_than_keeps_all(cs: Seq<Vec2>, me: Vec2)
    requires
        !cs.contains(me),
    ensures
        cs.filter(other_than(me)) == cs,
    decreases cs.len(),
{
    reveal(Seq::filter);
    if cs.len() > 0 {
        let rest = cs.drop_last();
        assert(!rest.contains(me)) by {
            assert(forall|i: int| 0 <= i < rest.len() ==> rest[i] == cs[i]);
        }
        lemma_other_than_keeps_all(rest, me);
        assert(cs.filter(other_than(me)) =~= cs);
    }
}

/// Self-exclusion over a distinct centre list that includes the agent's own
/// centre drops exactly that one entry: each agent grows one filament per
/// other agent, population size minus one in all.
pub proof fn lemma_filament_count(cs: Seq<Vec2>, me: Vec2)
    requires
        cs.contains(me),
        forall|i: int, j: int| 0 <= i < j < cs.len() ==> cs[i] != cs[j],
    ensures
        cs.filter(other_than(me)).len() == cs.len() - 1,
    decreases cs.len(),
{
    reveal(Seq::filter);
    let rest = cs.drop_last();
    if cs.last() == me {
        assert(!rest.contains(me)) by {
            assert(forall|i: int|
                0 <= i < rest.len() ==> rest[i] == cs[i] && cs[i] != cs[cs.len() - 1]);
        }
        lemma_other_than_keeps_all(rest, me);
    } else {
        assert(rest.contains(me)) by {
            let k = choose|i: int| 0 <= i < cs.len() && cs[i] == me;
            assert(k < cs.len() - 1);
            assert(rest[k] == me);
        }
        lemma_filament_count(rest, me);
    }
}

/// A growth agent: a centre point, one filament toward every other agent's
/// centre, and the colour its filaments are drawn in.
#[derive(Clone, Debug)]
pub struct Growth {
    pub centre: Vec2,
    pub lines: Vec<Line>,
    pub colour: Rgba,
}

impl Growth {
    /// Structural invariant: every filament is well formed and anchored at
    /// this agent's centre.
    pub open spec fn wf(self) -> bool {
        &&& self.centre.in_box()
        &&& forall|i: int| 0 <= i < self.lines@.len() ==> (#[trigger] self.lines@[i]).wf()
        &&& forall|i: int|
            0 <= i < self.lines@.len() ==> (#[trigger] self.lines@[i]).start == self.centre
    }

    /// Every filament still holds only its variation-free anchor point at
    /// this agent's centre, and none is finished.
    pub open spec fn fresh(self) -> bool {
        forall|i: int|
            0 <= i < self.lines@.len() ==> {
                &&& !(#[trigger] self.lines@[i]).finished
                &&& self.lines@[i].points@.len() == 1
                &&& self.lines@[i].points@[0] == (Point {
                    pos: self.centre,
                    vary: Vec2 { x: 0, y: 0 },
                })
            }
    }

    /// The filament targets, in order.
    pub open spec fn targets(self) -> Seq<Vec2> {
        self.lines@.map_values(|l: Line| l.end)
    }

    /// The agent is done exactly when all its filaments are.
    pub open spec fn spec_is_finished(self) -> bool {
        forall|i: int| 0 <= i < self.lines@.len() ==> (#[trigger] self.lines@[i]).finished
    }

    /// A fresh agent at `centre` with one filament toward every entry of
    /// `other_growths` other than `centre` itself: an agent never grows a
    /// filament toward its own centre.
    pub fn new(centre: Vec2, other_growths: &Vec<Vec2>, colour: Rgb) -> (r: Growth)
        requires
            centre.in_box(),
            forall|i: int|
                0 <= i < other_growths@.len() ==> (#[trigger] other_growths@[i]).in_box(),
        ensures
            r.centre == centre,
            r.colour == rgba_with_line_alpha(colour),
            r.targets() == other_growths@.filter(other_than(centre)),
            r.wf(),
            r.fresh(),
    {
        let mut lines: Vec<Line> = Vec::new();
        let n = other_growths.len();
        let mut i: usize = 0;
        proof {
            reveal(Seq::filter);
            assert(lines@.map_values(|l: Line| l.end) =~= other_growths@.take(0).filter(
                other_than(centre),
            ));
        }
        while i < n
            invariant
                n == other_growths@.len(),
                i <= n,
                centre.in_box(),
                forall|k: int|
                    0 <= k < other_growths@.len() ==> (#[trigger] other_growths@[k]).in_box(),
                lines@.map_values(|l: Line| l.end) == other_growths@.take(i as int).filter(
                    other_than(centre),
                ),
                forall|j: int| 0 <= j < lines@.len() ==> (#[trigger] lines@[j]).wf(),
                forall|j: int| 0 <= j < lines@.len() ==> (#[trigger] lines@[j]).start == centre,
                forall|j: int|
                    0 <= j < lines@.len() ==> {
                        &&& !(#[trigger] lines@[j]).finished
                        &&& lines@[j].points@.len() == 1
                        &&& lines@[j].points@[0] == (Point {
                            pos: centre,
                            vary: Vec2 { x: 0, y: 0 },
                        })
                    },
            decreases n - i,
        {
            let target = other_growths[i];
            let ghost prev_map = lines@.map_values(|l: Line| l.end);
            if !(target == centre) {
                lines.push(Line::new(centre, target));
            }
            proof {
                reveal(Seq::filter);
                let t = other_growths@.take(i as int);
                let x = other_growths@[i as int];
                assert(other_growths@.take(i + 1) =~= t.push(x));
                assert(t.push(x).drop_last() =~= t);
                assert(t.push(x).drop_last() == t);
                assert(t.push(x).last() == x);
                if x != centre {
                    assert(lines@.map_values(|l: Line| l.end) =~= prev_map.push(x));
                    assert(t.push(x).filter(other_than(centre)) == t.filter(
                        other_than(centre),
                    ).push(x));
                } else {
                    assert(t.push(x).filter(other_than(centre)) == t.filter(other_than(centre)));
                }
                assert(lines@.map_values(|l: Line| l.end) == other_growths@.take(i + 1).filter(
                    other_than(centre),
                ));
            }
            i = i + 1;
        }
        proof {
            assert(other_growths@.take(n as int) =~= other_growths@);
        }
        Growth {
            centre,
            lines,
            colour: Rgba {
                red: colour.red,
                green: colour.green,
                blue: colour.blue,
                alpha_milli: LINE_ALPHA_MILLI,
            },
        }
    }

    /// Whether every filament has reached its target.
    pub fn is_finished(&self) -> (r: bool)
        ensures
            r == self.spec_is_finished(),
    {
        let n = self.lines.len();
        let mut acc = true;
        let mut i: usize = 0;
        while i < n
            invariant
                n == self.lines@.len(),
                i <= n,
                acc == (forall|j: int| 0 <= j < i ==> (#[trigger] self.lines@[j]).finished),
            decreases n - i,
        {
            acc = acc && self.lines[i].finished;
            i = i + 1;
        }
        acc
    }

    /// Step every owned filament once.
    pub fn step_growth(&mut self, step_length: i64, rand_factor: i64)
        requires
            old(self).wf(),
        ensures
            stepped_growth(*old(self), *final(self), step_length as int, rand_factor as int),
    {
        let n = self.lines.len();
        let mut i: usize = 0;
        while i < n
            invariant
                n == self.lines@.len(),
                old(self).lines@.len() == n,
                i <= n,
                self.centre == old(self).centre,
                self.colour == old(self).colour,
                old(self).wf(),
                forall|j: int|
                    0 <= j < i ==> stepped_line(
                        old(self).lines@[j],
                        #[trigger] self.lines@[j],
                        step_length as int,
                        rand_factor as int,
                    ),
                forall|j: int| i <= j < n ==> self.lines@[j] == old(self).lines@[j],
            decreases n - i,
        {
            let ghost before = self.lines@;
            let mut line = self.lines.remove(i);
            line.step_line(step_length, rand_factor);
            self.lines.insert(i, line);
            proof {
                assert(self.lines@ =~= before.update(i as int, line));
            }
            i = i + 1;
        }
    }

    /// The displayed polylines of every filament, displaced along each
    /// point's variation vector by `amount` coordinate steps.
    pub fn render_points(&self, amount: i64) -> (r: Vec<Vec<Vec2>>)
        requires
            self.wf(),
        ensures
            r@.len() == self.lines@.len(),
            forall|i: int|
                0 <= i < r@.len() ==> (#[trigger] r@[i])@.len() == self.lines@[i].points@.len(),
            forall|i: int, k: int|
                0 <= i < r@.len() && 0 <= k < r@[i]@.len() ==> (#[trigger] r@[i]@[k])
                    == self.lines@[i].points@[k].spec_varied(amount as int),
    {
        let mut out: Vec<Vec<Vec2>> = Vec::new();
        let n = self.lines.len();
        let mut i: usize = 0;
        while i < n
            invariant
                self.wf(),
                n == self.lines@.len(),
                i <= n,
                out@.len() == i,
                forall|j: int|
                    0 <= j < i ==> (#[trigger] out@[j])@.len() == self.lines@[j].points@.len(),
                forall|j: int, k: int|
                    0 <= j < i && 0 <= k < out@[j]@.len() ==> (#[trigger] out@[j]@[k])
                        == self.lines@[j].points@[k].spec_varied(amount as int),
            decreases n - i,
        {
            out.push(self.lines[i].render_points(amount));
            i = i + 1;
        }
        out
    }
}

} // verus!
