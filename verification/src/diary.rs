//! The diary's page: what it does with pen input and with the passing of
//! time. Write on the page; after a pause the diary drinks the ink, asks the
//! oracle, writes the answer in a flowing hand, lets it linger, and fades it.
//!
//! Time is a millisecond count from a monotonic clock. The caller performs
//! the actions the page asks for (drawing, panel updates, the oracle).

use vstd::prelude::*;
use crate::panel::Model;
use crate::pen::{PenSample, Tool, MAX_PRESSURE, clamp};
use vstd::arithmetic::div_mod::{lemma_div_is_ordered, lemma_div_pos_is_pos};

verus! {

/// A pause this long after the pen lifts commits the page.
pub const IDLE_COMMIT_MS: u64 = 2800;
/// A raw sample writes when touching with more pressure than this.
pub const WRITE_PRESSURE: i32 = 40;
/// The eraser's radius in pixels.
pub const ERASER_RADIUS: i32 = 22;
/// Dissolve passes while the diary drinks the ink.
pub const DRINK_STAGES: u32 = 14;
pub const DRINK_STEP_MS: u64 = 70;
/// The thinking blot blinks with this period.
pub const PULSE_MS: u64 = 600;
/// Reply points drawn per step.
pub const REPLY_BUDGET: usize = 26;
pub const REPLY_STEP_MS: u64 = 14;
/// The reply lingers this long plus a little per point, at most `LINGER_MAX_MS`.
pub const LINGER_BASE_MS: u64 = 4000;
pub const LINGER_PER_POINT_MS: u64 = 2;
pub const LINGER_MAX_MS: u64 = 20_000;
/// Dissolve passes while the reply fades.
pub const FADE_STAGES: u32 = 10;
pub const FADE_STEP_MS: u64 = 80;
/// Ink flush period: takeover swaps are cheap, qtfb needs coalescing.
pub const FLUSH_TAKEOVER_MS: u64 = 8;
pub const FLUSH_WINDOWED_MS: u64 = 35;
/// Radius of the reply's pen, and the margin its dirty box keeps.
pub const REPLY_RADIUS: i32 = 2;
pub const REPLY_DIRTY_PAD: i32 = 4;

/// Half the side of the square the thinking blot lives in.
pub const BLOT_HALF: i32 = 14;
/// Radius of the thinking blot.
pub const BLOT_RADIUS: i32 = 9;

/// The thinking blot's centre: the middle of the screen.
pub fn blot_center(model: Model) -> (c: (i32, i32))
    ensures
        c == ((model.spec_screen_w() / 2) as i32, (model.spec_screen_h() / 2) as i32),
{
    (model.screen_w() / 2, model.screen_h() / 2)
}

/// The square `(x, y, w, h)` the blot is drawn in, erased from and pushed.
pub fn blot_square(model: Model) -> (r: (i32, i32, i32, i32))
    ensures
        r == (
            (model.spec_screen_w() / 2 - BLOT_HALF) as i32,
            (model.spec_screen_h() / 2 - BLOT_HALF) as i32,
            (2 * BLOT_HALF) as i32,
            (2 * BLOT_HALF) as i32,
        ),
{
    let (cx, cy) = blot_center(model);
    (cx - BLOT_HALF, cy - BLOT_HALF, 2 * BLOT_HALF, 2 * BLOT_HALF)
}

/// One stroke segment of the reply.
#[derive(Clone, Copy, Debug, PartialEq, Eq)]
pub enum DrawOp {
    /// A brush line from the previous point of the stroke to this one.
    Line((i32, i32), (i32, i32)),
    /// The first point of a stroke.
    Stamp((i32, i32)),
}

/// The reply as screen-space strokes, with a cursor of what is drawn.
#[derive(Debug, PartialEq, Eq)]
pub struct WritePlan<R> {
    pub strokes: Vec<Vec<(i32, i32)>>,
    pub stroke_i: usize,
    pub point_i: usize,
    pub region: R,
}

/// The drawing step for point `pi` of `stroke`.
pub open spec fn op_at(stroke: Seq<(i32, i32)>, pi: int) -> DrawOp {
    if pi > 0 {
        DrawOp::Line(stroke[pi - 1], stroke[pi])
    } else {
        DrawOp::Stamp(stroke[pi])
    }
}

/// Everything still to draw from the cursor `(si, pi)` on, in order.
pub open spec fn pending_from(lines: Seq<Seq<(i32, i32)>>, si: int, pi: int) -> Seq<DrawOp>
    decreases lines.len() - si, lines[si].len() - pi,
    when si >= 0 && pi >= 0
{
    if si >= lines.len() {
        Seq::empty()
    } else if pi >= lines[si].len() {
        pending_from(lines, si + 1, 0)
    } else {
        seq![op_at(lines[si], pi)] + pending_from(lines, si, pi + 1)
    }
}

/// The number of points of all strokes.
pub open spec fn total_points(lines: Seq<Seq<(i32, i32)>>) -> nat
    decreases lines.len(),
{
    if lines.len() == 0 {
        0
    } else {
        total_points(lines.drop_last()) + lines.last().len()
    }
}

/// How long a reply of `points` points lingers.
pub open spec fn linger_ms(points: nat) -> int {
    let l = LINGER_BASE_MS + LINGER_PER_POINT_MS * points;
    if l < LINGER_MAX_MS { l } else { LINGER_MAX_MS as int }
}

pub open spec fn min(a: int, b: int) -> int {
    if a < b { a } else { b }
}

impl<R> WritePlan<R> {
    pub open spec fn lines(&self) -> Seq<Seq<(i32, i32)>> {
        self.strokes@.map_values(|s: Vec<(i32, i32)>| s@)
    }

    pub open spec fn pending(&self) -> Seq<DrawOp> {
        pending_from(self.lines(), self.stroke_i as int, self.point_i as int)
    }

    pub open spec fn spec_finished(&self) -> bool {
        self.stroke_i >= self.strokes@.len()
    }

    /// A plan for `strokes` with nothing drawn yet.
    pub fn new(strokes: Vec<Vec<(i32, i32)>>, region: R) -> (r: WritePlan<R>)
        ensures
            r.strokes == strokes,
            r.region == region,
            r.stroke_i == 0,
            r.point_i == 0,
    {
        WritePlan { strokes, stroke_i: 0, point_i: 0, region }
    }

    /// Every stroke has been walked.
    #[verifier::when_used_as_spec(spec_finished)]
    pub fn finished(&self) -> (r: bool)
        ensures
            r == self.spec_finished(),
    {
        self.stroke_i >= self.strokes.len()
    }

    /// Draw the next `REPLY_BUDGET` points (fewer at the end); returns their
    /// drawing steps. The walk is finished when fewer than a budget's worth
    /// were pending.
    pub fn step(&mut self) -> (ops: Vec<DrawOp>)
        ensures
            final(self).strokes == old(self).strokes,
            final(self).region == old(self).region,
            ops@ == old(self).pending().take(min(REPLY_BUDGET as int, old(self).pending().len() as int)),
            final(self).pending() == old(self).pending().skip(
                min(REPLY_BUDGET as int, old(self).pending().len() as int),
            ),
            final(self).spec_finished() <==> old(self).pending().len() < REPLY_BUDGET,
    {
        let ghost start = self.pending();
        let mut ops: Vec<DrawOp> = Vec::new();
        let mut budget: usize = REPLY_BUDGET;
        while budget > 0 && self.stroke_i < self.strokes.len()
            invariant
                self.strokes == old(self).strokes,
                self.region == old(self).region,
                start == old(self).pending(),
                budget <= REPLY_BUDGET,
                ops@.len() + budget == REPLY_BUDGET,
                ops@ + self.pending() == start,
                budget == 0 ==> self.stroke_i < self.strokes@.len(),
            decreases budget, self.strokes@.len() - self.stroke_i,
        {
            let si = self.stroke_i;
            let pi = self.point_i;
            let ghost lines = self.lines();
            assert(lines[si as int] == self.strokes@[si as int]@);
            let n = self.strokes[si].len();
            if pi >= n {
                assert(pending_from(lines, si as int, pi as int) == pending_from(lines, si + 1, 0));
                self.stroke_i = si + 1;
                self.point_i = 0;
            } else {
                let p = self.strokes[si][pi];
                let op = if pi > 0 {
                    DrawOp::Line(self.strokes[si][pi - 1], p)
                } else {
                    DrawOp::Stamp(p)
                };
                assert(op == op_at(lines[si as int], pi as int));
                assert(pending_from(lines, si as int, pi as int) == seq![op] + pending_from(
                    lines,
                    si as int,
                    pi + 1,
                ));
                ops.push(op);
                self.point_i = pi + 1;
                budget = budget - 1;
                assert(ops@ + self.pending() =~= start);
            }
        }
        proof {
            if self.stroke_i >= self.strokes@.len() {
                assert(self.pending() =~= Seq::<DrawOp>::empty());
                assert(ops@ =~= start);
            }
            let k = min(REPLY_BUDGET as int, start.len() as int);
            assert(ops@.len() == k);
            assert(ops@ =~= start.take(k));
            assert(self.pending() =~= start.skip(k));
        }
        ops
    }

    /// How long the whole reply lingers once written.
    pub fn linger(&self) -> (ms: u64)
        ensures
            ms == linger_ms(total_points(self.lines())),
    {
        let mut points: u64 = 0;
        let mut i: usize = 0;
        while i < self.strokes.len()
            invariant
                i <= self.strokes@.len(),
                points == min(total_points(self.lines().take(i as int)) as int, u64::MAX as int),
            decreases self.strokes@.len() - i,
        {
            assert(self.lines().take(i + 1).drop_last() =~= self.lines().take(i as int));
            let n = self.strokes[i].len() as u64;
            points = points.saturating_add(n);
            i = i + 1;
        }
        assert(self.lines().take(self.strokes@.len() as int) =~= self.lines());
        if points >= LINGER_MAX_MS {
            return LINGER_MAX_MS;
        }
        let l = LINGER_BASE_MS + points * LINGER_PER_POINT_MS;
        if l < LINGER_MAX_MS {
            l
        } else {
            LINGER_MAX_MS
        }
    }
}


/// Where the page is.
#[derive(Debug, PartialEq, Eq)]
pub enum State<R> {
    /// Taking ink; `last_pen` is when the pen last wrote or lifted.
    Listening { last_pen: Option<u64> },
    /// Drinking the ink: dissolve pass `stage` is due at `next`.
    Drinking { stage: u32, next: u64, region: R },
    /// Waiting for the oracle; the blot last blinked at `pulse`.
    Thinking { pulse: u64, blot_on: bool },
    /// Writing the answer; the next batch is due at `next`.
    Replying { plan: WritePlan<R>, next: u64 },
    /// Showing the answer until `until`.
    Lingering { until: u64, region: R },
    /// Fading the answer: dissolve pass `stage` is due at `next`.
    FadingReply { stage: u32, next: u64, region: R },
}

/// What the oracle channel holds when the page looks.
#[derive(Debug, PartialEq, Eq)]
pub enum OracleNews<R> {
    /// Nothing yet.
    Waiting,
    /// The oracle is gone.
    Gone,
    /// An answer arrived, laid out as strokes.
    Answer(WritePlan<R>),
}

/// Work the page asks the caller to do, in order.
#[derive(Debug, PartialEq, Eq)]
pub enum Action<R> {
    /// Rasterize the ink to the page image the oracle reads.
    SavePage,
    /// Dissolve pass `(region, stage, stages)`, then push the region (fast).
    Dissolve(R, u32, u32),
    /// Forget the user's ink.
    ClearInk,
    /// Hand the page image to the oracle.
    AskOracle,
    /// Paint the thinking blot white and push it.
    EraseBlot,
    /// Stamp the thinking blot and push it.
    DrawBlot,
    /// Draw reply steps (black, `REPLY_RADIUS`), then push their dirty box if any.
    Write(Vec<DrawOp>),
    /// Flashing refresh of the whole panel.
    FullRefresh,
}

/// What to do with the user's ink for one pen input.
#[derive(Clone, Copy, Debug, PartialEq, Eq, Structural)]
pub enum InkOp {
    Nothing,
    /// The pen lifted: end the stroke.
    Lift,
    /// Ink a point `(x, y, radius)`.
    Pen(i32, i32, i32),
    /// Erase around `(x, y, radius)`.
    Erase(i32, i32, i32),
}

/// A window-system pen event (used when no raw pen device is available).
#[derive(Clone, Copy, Debug, PartialEq, Eq, Structural)]
pub enum QtfbPen {
    Press,
    Update,
    Release,
}

/// The page and whether the pen is down on it.
#[derive(Debug, PartialEq, Eq)]
pub struct Diary<R> {
    pub state: State<R>,
    pub pen_down: bool,
}

/// A raw sample writes: the tip touches with enough pressure.
pub open spec fn writes(s: PenSample) -> bool {
    s.touching && s.pressure > WRITE_PRESSURE
}

/// The ink radius for a pressure: 2 px plus up to 3 px with pressure.
pub open spec fn pen_radius(pressure: i32) -> int {
    2 + (pressure * 3) / (MAX_PRESSURE as int)
}

/// The ink radius for a window-system pen event's pressure field.
pub open spec fn qtfb_radius(d: i32) -> int {
    2 + clamp(d as int, 0, 100) / 45
}

/// The ink flush period for the display kind.
pub open spec fn spec_flush_interval(takeover: bool) -> u64 {
    if takeover { FLUSH_TAKEOVER_MS } else { FLUSH_WINDOWED_MS }
}

/// Ink flush period: short when swaps are cheap (takeover), longer under qtfb.
pub fn flush_interval(takeover: bool) -> (ms: u64)
    ensures
        ms == spec_flush_interval(takeover),
{
    if takeover {
        FLUSH_TAKEOVER_MS
    } else {
        FLUSH_WINDOWED_MS
    }
}

/// Whether pending ink should be pushed now: there is some, and the last
/// push is at least a flush period old.
pub fn flush_due(dirty: bool, now: u64, last_flush: u64, takeover: bool) -> (r: bool)
    ensures
        r == (dirty && now - last_flush >= spec_flush_interval(takeover)),
{
    dirty && now >= last_flush && now - last_flush >= flush_interval(takeover)
}

impl<R: Copy> Diary<R> {
    /// Drinking and fading stay within their passes.
    pub open spec fn wf(&self) -> bool {
        match self.state {
            State::Drinking { stage, .. } => stage < DRINK_STAGES,
            State::FadingReply { stage, .. } => stage < FADE_STAGES,
            _ => true,
        }
    }

    /// A blank page, pen up.
    pub fn new() -> (d: Diary<R>)
        ensures
            d.wf(),
            d.state == (State::<R>::Listening { last_pen: None }),
            !d.pen_down,
    {
        Diary { state: State::Listening { last_pen: None }, pen_down: false }
    }

    /// The page after pen activity at `now`: a listening page remembers it.
    pub open spec fn touched(&self, now: u64) -> State<R> {
        match self.state {
            State::Listening { .. } => State::Listening { last_pen: Some(now) },
            _ => self.state,
        }
    }

    /// The sample's ink radius fits `i32` wherever it is computed.
    pub open spec fn accepts_sample(&self, s: PenSample) -> bool {
        (self.state is Listening && writes(s) && s.tool == Tool::Pen) ==> s.pressure * 3 <= i32::MAX
    }

    /// Whether `accepts_sample` holds.
    pub fn can_take_sample(&self, s: PenSample) -> (r: bool)
        ensures
            r == self.accepts_sample(s),
    {
        match self.state {
            State::Listening { .. } => !(s.touching && s.pressure > WRITE_PRESSURE && s.tool == Tool::Pen)
                || s.pressure <= i32::MAX / 3,
            _ => true,
        }
    }

    /// A raw pen sample at `now`. Writing on a listening page inks (or
    /// erases) and marks the pen down; writing while the answer lingers
    /// starts its fade; a sample that does not write lifts a down pen.
    pub fn pen_sample(&mut self, s: PenSample, now: u64) -> (op: InkOp)
        requires
            old(self).wf(),
            old(self).accepts_sample(s),
        ensures
            final(self).wf(),
            !writes(s) ==> if old(self).pen_down {
                &&& op == InkOp::Lift
                &&& !final(self).pen_down
                &&& final(self).state == old(self).touched(now)
            } else {
                &&& op == InkOp::Nothing
                &&& *final(self) == *old(self)
            },
            writes(s) ==> match old(self).state {
                State::Listening { .. } => {
                    &&& final(self).pen_down
                    &&& final(self).state == old(self).touched(now)
                    &&& op == if s.tool == Tool::Pen {
                        InkOp::Pen(s.x, s.y, pen_radius(s.pressure) as i32)
                    } else {
                        InkOp::Erase(s.x, s.y, ERASER_RADIUS)
                    }
                },
                State::Lingering { region, .. } => {
                    &&& final(self).pen_down == old(self).pen_down
                    &&& final(self).state == (State::FadingReply { stage: 0, next: now, region })
                    &&& op == InkOp::Nothing
                },
                _ => {
                    &&& op == InkOp::Nothing
                    &&& *final(self) == *old(self)
                },
            },
    {
        let writing = s.touching && s.pressure > WRITE_PRESSURE;
        if !writing {
            if self.pen_down {
                self.pen_down = false;
                if let State::Listening { .. } = self.state {
                    self.state = State::Listening { last_pen: Some(now) };
                }
                return InkOp::Lift;
            }
            return InkOp::Nothing;
        }
        let fade = match &self.state {
            State::Listening { .. } => None,
            State::Lingering { region, .. } => Some(Some(*region)),
            _ => Some(None),
        };
        match fade {
            None => {
                self.pen_down = true;
                self.state = State::Listening { last_pen: Some(now) };
                match s.tool {
                    Tool::Pen => InkOp::Pen(s.x, s.y, 2 + s.pressure * 3 / MAX_PRESSURE),
                    Tool::Eraser => InkOp::Erase(s.x, s.y, ERASER_RADIUS),
                }
            },
            Some(Some(region)) => {
                self.state = State::FadingReply { stage: 0, next: now, region };
                InkOp::Nothing
            },
            Some(None) => InkOp::Nothing,
        }
    }

    /// A window-system pen event at `(x, y)` with pressure field `d`, at
    /// `now`: press and update ink a listening page (or start the fade of a
    /// lingering answer); release lifts a down pen.
    pub fn qtfb_pen(&mut self, kind: QtfbPen, x: i32, y: i32, d: i32, now: u64) -> (op: InkOp)
        requires
            old(self).wf(),
        ensures
            final(self).wf(),
            kind == QtfbPen::Release ==> if old(self).pen_down {
                &&& op == InkOp::Lift
                &&& !final(self).pen_down
                &&& final(self).state == old(self).touched(now)
            } else {
                &&& op == InkOp::Nothing
                &&& *final(self) == *old(self)
            },
            kind != QtfbPen::Release ==> match old(self).state {
                State::Listening { .. } => {
                    &&& final(self).pen_down
                    &&& final(self).state == old(self).touched(now)
                    &&& op == InkOp::Pen(x, y, qtfb_radius(d) as i32)
                },
                State::Lingering { region, .. } => {
                    &&& final(self).pen_down == old(self).pen_down
                    &&& final(self).state == (State::FadingReply { stage: 0, next: now, region })
                    &&& op == InkOp::Nothing
                },
                _ => {
                    &&& op == InkOp::Nothing
                    &&& *final(self) == *old(self)
                },
            },
    {
        if let QtfbPen::Release = kind {
            if self.pen_down {
                self.pen_down = false;
                if let State::Listening { .. } = self.state {
                    self.state = State::Listening { last_pen: Some(now) };
                }
                return InkOp::Lift;
            }
            return InkOp::Nothing;
        }
        let fade = match &self.state {
            State::Listening { .. } => None,
            State::Lingering { region, .. } => Some(Some(*region)),
            _ => Some(None),
        };
        match fade {
            None => {
                self.pen_down = true;
                self.state = State::Listening { last_pen: Some(now) };
                let c = if d < 0 { 0 } else if d > 100 { 100 } else { d };
                InkOp::Pen(x, y, 2 + c / 45)
            },
            Some(Some(region)) => {
                self.state = State::FadingReply { stage: 0, next: now, region };
                InkOp::Nothing
            },
            Some(None) => InkOp::Nothing,
        }
    }
}


impl<R: Copy> Diary<R> {
    /// A listening page commits: the pen lifted at least `IDLE_COMMIT_MS`
    /// ago and there is ink.
    pub open spec fn commits(&self, now: u64, ink: Option<R>) -> bool {
        match self.state {
            State::Listening { last_pen } => {
                &&& last_pen is Some
                &&& !self.pen_down
                &&& now - last_pen->0 >= IDLE_COMMIT_MS
                &&& ink is Some
            },
            _ => false,
        }
    }

    /// Let time pass to `now`. `ink` is the bounding region of the user's
    /// ink, if there is any; `news` is what the oracle channel holds (only
    /// looked at while thinking). Returns the page after this moment and the
    /// work to do, in order.
    pub fn tick(self, now: u64, ink: Option<R>, news: OracleNews<R>) -> (r: (Diary<R>, Vec<Action<R>>))
        requires
            self.wf(),
            now <= u64::MAX - LINGER_MAX_MS,
        ensures
            r.0.wf(),
            r.0.pen_down == self.pen_down,
            match self.state {
                State::Listening { .. } => if self.commits(now, ink) {
                    &&& r.0.state == (State::Drinking { stage: 0, next: now, region: ink->0 })
                    &&& r.1@ == seq![Action::<R>::SavePage]
                } else {
                    &&& r.0.state == self.state
                    &&& r.1@.len() == 0
                },
                State::Drinking { stage, next, region } => if now < next {
                    &&& r.0.state == self.state
                    &&& r.1@.len() == 0
                } else if stage + 1 >= DRINK_STAGES {
                    &&& r.0.state == (State::<R>::Thinking { pulse: now, blot_on: false })
                    &&& r.1@ == seq![
                        Action::Dissolve(region, stage, DRINK_STAGES),
                        Action::ClearInk,
                        Action::AskOracle,
                    ]
                } else {
                    &&& r.0.state == (State::Drinking { stage: (stage + 1) as u32, next: (now + DRINK_STEP_MS) as u64, region })
                    &&& r.1@ == seq![Action::Dissolve(region, stage, DRINK_STAGES)]
                },
                State::Thinking { pulse, blot_on } => match news {
                    OracleNews::Answer(plan) => {
                        &&& r.0.state == (State::Replying { plan, next: now })
                        &&& r.1@ == seq![Action::<R>::EraseBlot]
                    },
                    OracleNews::Gone => {
                        &&& r.0.state == (State::<R>::Listening { last_pen: None })
                        &&& r.1@.len() == 0
                    },
                    OracleNews::Waiting => if now - pulse >= PULSE_MS {
                        &&& r.0.state == (State::<R>::Thinking { pulse: now, blot_on: !blot_on })
                        &&& r.1@ == seq![if blot_on { Action::<R>::EraseBlot } else { Action::<R>::DrawBlot }]
                    } else {
                        &&& r.0.state == self.state
                        &&& r.1@.len() == 0
                    },
                },
                State::Replying { plan, next } => if now < next {
                    &&& r.0.state == self.state
                    &&& r.1@.len() == 0
                } else {
                    let k = min(REPLY_BUDGET as int, plan.pending().len() as int);
                    &&& r.1@.len() == 1
                    &&& r.1@[0] matches Action::Write(ops) && ops@ == plan.pending().take(k)
                    &&& if plan.pending().len() < REPLY_BUDGET {
                        r.0.state == (State::Lingering {
                            until: (now + linger_ms(total_points(plan.lines()))) as u64,
                            region: plan.region,
                        })
                    } else {
                        &&& r.0.state matches State::Replying { plan: p, next: n }
                        &&& n == now + REPLY_STEP_MS
                        &&& p.strokes == plan.strokes
                        &&& p.region == plan.region
                        &&& p.pending() == plan.pending().skip(k)
                    }
                },
                State::Lingering { until, region } => if now < until {
                    &&& r.0.state == self.state
                    &&& r.1@.len() == 0
                } else {
                    &&& r.0.state == (State::FadingReply { stage: 0, next: now, region })
                    &&& r.1@.len() == 0
                },
                State::FadingReply { stage, next, region } => if now < next {
                    &&& r.0.state == self.state
                    &&& r.1@.len() == 0
                } else if stage + 1 >= FADE_STAGES {
                    &&& r.0.state == (State::<R>::Listening { last_pen: None })
                    &&& r.1@ == seq![Action::Dissolve(region, stage, FADE_STAGES), Action::FullRefresh]
                } else {
                    &&& r.0.state == (State::FadingReply { stage: (stage + 1) as u32, next: (now + FADE_STEP_MS) as u64, region })
                    &&& r.1@ == seq![Action::Dissolve(region, stage, FADE_STAGES)]
                },
            },
    {
        let pen_down = self.pen_down;
        let mut acts: Vec<Action<R>> = Vec::new();
        let state = match self.state {
            State::Listening { last_pen } => {
                let due = match last_pen {
                    Some(t) => !pen_down && now >= t && now - t >= IDLE_COMMIT_MS,
                    None => false,
                };
                match ink {
                    Some(region) if due => {
                        acts.push(Action::SavePage);
                        State::Drinking { stage: 0, next: now, region }
                    },
                    _ => State::Listening { last_pen },
                }
            },
            State::Drinking { stage, next, region } => {
                if now >= next {
                    acts.push(Action::Dissolve(region, stage, DRINK_STAGES));
                    if stage + 1 >= DRINK_STAGES {
                        acts.push(Action::ClearInk);
                        acts.push(Action::AskOracle);
                        State::Thinking { pulse: now, blot_on: false }
                    } else {
                        State::Drinking { stage: stage + 1, next: now + DRINK_STEP_MS, region }
                    }
                } else {
                    State::Drinking { stage, next, region }
                }
            },
            State::Thinking { pulse, blot_on } => match news {
                OracleNews::Answer(plan) => {
                    acts.push(Action::EraseBlot);
                    State::Replying { plan, next: now }
                },
                OracleNews::Gone => State::Listening { last_pen: None },
                OracleNews::Waiting => {
                    if now >= pulse && now - pulse >= PULSE_MS {
                        if blot_on {
                            acts.push(Action::EraseBlot);
                        } else {
                            acts.push(Action::DrawBlot);
                        }
                        State::Thinking { pulse: now, blot_on: !blot_on }
                    } else {
                        State::Thinking { pulse, blot_on }
                    }
                },
            },
            State::Replying { mut plan, next } => {
                if now >= next {
                    let ops = plan.step();
                    acts.push(Action::Write(ops));
                    if plan.finished() {
                        let linger = plan.linger();
                        State::Lingering { until: now + linger, region: plan.region }
                    } else {
                        State::Replying { plan, next: now + REPLY_STEP_MS }
                    }
                } else {
                    State::Replying { plan, next }
                }
            },
            State::Lingering { until, region } => {
                if now >= until {
                    State::FadingReply { stage: 0, next: now, region }
                } else {
                    State::Lingering { until, region }
                }
            },
            State::FadingReply { stage, next, region } => {
                if now >= next {
                    acts.push(Action::Dissolve(region, stage, FADE_STAGES));
                    if stage + 1 >= FADE_STAGES {
                        acts.push(Action::FullRefresh);
                        State::Listening { last_pen: None }
                    } else {
                        State::FadingReply { stage: stage + 1, next: now + FADE_STEP_MS, region }
                    }
                } else {
                    State::FadingReply { stage, next, region }
                }
            },
        };
        (Diary { state, pen_down }, acts)
    }
}


/// The drawing steps of one whole stroke: its first point stamped, every
/// later point joined to the one before by a line.
pub open spec fn stroke_ops(stroke: Seq<(i32, i32)>) -> Seq<DrawOp> {
    Seq::new(stroke.len(), |i: int| op_at(stroke, i))
}

/// The rest of a stroke from point `pi`, then the strokes after it.
proof fn lemma_pending_rest_of_stroke(lines: Seq<Seq<(i32, i32)>>, si: int, pi: int)
    requires
        0 <= si < lines.len(),
        0 <= pi <= lines[si].len(),
    ensures
        pending_from(lines, si, pi) == stroke_ops(lines[si]).skip(pi) + pending_from(lines, si + 1, 0),
    decreases lines[si].len() - pi,
{
    if pi < lines[si].len() {
        lemma_pending_rest_of_stroke(lines, si, pi + 1);
        assert(stroke_ops(lines[si]).skip(pi) =~= seq![op_at(lines[si], pi)] + stroke_ops(lines[si]).skip(pi + 1));
        assert(pending_from(lines, si, pi) =~= stroke_ops(lines[si]).skip(pi) + pending_from(lines, si + 1, 0));
    } else {
        assert(stroke_ops(lines[si]).skip(pi) =~= Seq::<DrawOp>::empty());
        assert(pending_from(lines, si, pi) =~= stroke_ops(lines[si]).skip(pi) + pending_from(lines, si + 1, 0));
    }
}

/// The whole reply, in order: every stroke's steps, one stroke after another.
pub open spec fn reply_ops(lines: Seq<Seq<(i32, i32)>>, si: int) -> Seq<DrawOp>
    decreases lines.len() - si,
    when 0 <= si
{
    if si >= lines.len() {
        Seq::empty()
    } else {
        stroke_ops(lines[si]) + reply_ops(lines, si + 1)
    }
}

/// An unstarted plan draws every point of every stroke exactly once, in
/// order: each stroke's first point stamped, the others joined by lines.
pub proof fn lemma_fresh_plan_draws_every_point(lines: Seq<Seq<(i32, i32)>>, si: int)
    requires
        0 <= si,
    ensures
        pending_from(lines, si, 0) == reply_ops(lines, si),
    decreases lines.len() - si,
{
    if si < lines.len() {
        lemma_pending_rest_of_stroke(lines, si, 0);
        lemma_fresh_plan_draws_every_point(lines, si + 1);
        assert(stroke_ops(lines[si]).skip(0) =~= stroke_ops(lines[si]));
    }
}

/// One `WritePlan::step`: the batch it drew and the plan it left, as its
/// contract states them.
pub open spec fn is_step<R>(before: WritePlan<R>, batch: Seq<DrawOp>, after: WritePlan<R>) -> bool {
    let k = min(REPLY_BUDGET as int, before.pending().len() as int);
    &&& after.strokes == before.strokes
    &&& batch == before.pending().take(k)
    &&& after.pending() == before.pending().skip(k)
}

/// The batches of a run of steps, joined.
pub open spec fn joined(batches: Seq<Seq<DrawOp>>) -> Seq<DrawOp>
    decreases batches.len(),
{
    if batches.len() == 0 {
        Seq::empty()
    } else {
        joined(batches.drop_last()) + batches.last()
    }
}

/// Across any run of steps, the batches drawn followed by what is still
/// pending are exactly what was pending at the start: nothing is drawn
/// twice, skipped, or reordered.
pub proof fn lemma_steps_draw_in_order<R>(plans: Seq<WritePlan<R>>, batches: Seq<Seq<DrawOp>>)
    requires
        plans.len() == batches.len() + 1,
        forall|i: int| 0 <= i < batches.len() ==> is_step(plans[i], #[trigger] batches[i], plans[i + 1]),
    ensures
        joined(batches) + plans.last().pending() == plans[0].pending(),
    decreases batches.len(),
{
    if batches.len() > 0 {
        let n = batches.len() - 1;
        lemma_steps_draw_in_order(plans.drop_last(), batches.drop_last());
        assert(is_step(plans[n], batches[n], plans[n + 1]));
        let before = plans[n].pending();
        let k = min(REPLY_BUDGET as int, before.len() as int);
        assert(before =~= before.take(k) + before.skip(k));
        assert(joined(batches) + plans.last().pending() =~= joined(batches.drop_last()) + before);
    }
}

/// Each step draws a full batch while at least one is pending, and a run
/// of steps that reaches a finished plan has drawn everything.
pub proof fn lemma_step_batch_size<R>(before: WritePlan<R>, batch: Seq<DrawOp>, after: WritePlan<R>)
    requires
        is_step(before, batch, after),
    ensures
        batch.len() == min(REPLY_BUDGET as int, before.pending().len() as int),
        batch.len() <= REPLY_BUDGET,
        after.pending().len() == before.pending().len() - batch.len(),
{
}

/// A reply lingers at least `LINGER_BASE_MS` and at most `LINGER_MAX_MS`,
/// longer for longer replies.
pub proof fn lemma_linger_bounds(a: nat, b: nat)
    requires
        a <= b,
    ensures
        LINGER_BASE_MS <= linger_ms(a) <= LINGER_MAX_MS,
        linger_ms(a) <= linger_ms(b),
{
}


/// Strokes are drawn joined: the first point of a stroke is stamped, and
/// every later point is drawn as a line from the point before it.
pub proof fn lemma_points_are_joined(stroke: Seq<(i32, i32)>, i: int)
    requires
        0 <= i < stroke.len(),
    ensures
        i == 0 ==> stroke_ops(stroke)[i] == DrawOp::Stamp(stroke[0]),
        i > 0 ==> stroke_ops(stroke)[i] == DrawOp::Line(stroke[i - 1], stroke[i]),
{
}

/// Walking a plan from any cursor inside a stroke draws that point next:
/// joined to the point before it, or stamped if it starts the stroke.
pub proof fn lemma_next_step_joins(lines: Seq<Seq<(i32, i32)>>, si: int, pi: int)
    requires
        0 <= si < lines.len(),
        0 <= pi < lines[si].len(),
    ensures
        pending_from(lines, si, pi).len() > 0,
        pi > 0 ==> pending_from(lines, si, pi)[0] == DrawOp::Line(lines[si][pi - 1], lines[si][pi]),
        pi == 0 ==> pending_from(lines, si, pi)[0] == DrawOp::Stamp(lines[si][0]),
{
}

/// Every drawing step of a whole reply: for each stroke `k` and point `i`,
/// the step at that point's place in the walk joins it to point `i - 1`
/// (or stamps it when `i == 0`).
pub proof fn lemma_reply_draws_joined_strokes(lines: Seq<Seq<(i32, i32)>>, k: int, i: int)
    requires
        0 <= k < lines.len(),
        0 <= i < lines[k].len(),
    ensures
        i > 0 ==> pending_from(lines, k, i)[0] == DrawOp::Line(lines[k][i - 1], lines[k][i]),
        i == 0 ==> pending_from(lines, k, 0)[0] == DrawOp::Stamp(lines[k][0]),
        reply_ops(lines, k) == stroke_ops(lines[k]) + reply_ops(lines, k + 1),
{
    lemma_next_step_joins(lines, k, i);
}

/// The ink radius grows with pressure: 2 px for a light touch, 5 px at
/// full pressure, never thinner for a harder press.
pub proof fn lemma_pen_radius_grows(p1: i32, p2: i32)
    requires
        0 <= p1 <= p2,
        p2 * 3 <= i32::MAX,
    ensures
        pen_radius(p1) <= pen_radius(p2),
        2 <= pen_radius(p1),
        p2 <= MAX_PRESSURE ==> pen_radius(p2) <= 5,
        pen_radius(MAX_PRESSURE) == 5,
        p1 * 3 < MAX_PRESSURE ==> pen_radius(p1) == 2,
{
    assert(p1 * 3 <= p2 * 3) by (nonlinear_arith)
        requires
            p1 <= p2,
    ;
    lemma_div_is_ordered(p1 * 3, p2 * 3, MAX_PRESSURE as int);
    lemma_div_pos_is_pos(p1 * 3, MAX_PRESSURE as int);
    if p2 <= MAX_PRESSURE {
        lemma_div_is_ordered(p2 * 3, MAX_PRESSURE * 3, MAX_PRESSURE as int);
    }
}

/// The window-system pen's radius grows with its pressure field too: 2 px
/// at most up to 44, 4 px from 90 on.
pub proof fn lemma_qtfb_radius_grows(d1: i32, d2: i32)
    requires
        d1 <= d2,
    ensures
        qtfb_radius(d1) <= qtfb_radius(d2),
        2 <= qtfb_radius(d1) <= 4,
        d1 < 45 ==> qtfb_radius(d1) == 2,
        d2 >= 90 ==> qtfb_radius(d2) == 4,
{
    let c1 = clamp(d1 as int, 0, 100);
    let c2 = clamp(d2 as int, 0, 100);
    lemma_div_is_ordered(c1, c2, 45);
    lemma_div_pos_is_pos(c1, 45);
    lemma_div_is_ordered(c2, 100, 45);
}

} // verus!
