//! Placing the answer on the page: the lines stack from a third of the way
//! down, each line centred, each with a small vertical wobble from a fixed
//! pseudo-random sequence so the hand does not look mechanical.

use vstd::prelude::*;
use crate::panel::Model;
use crate::pen::trunc_div;
use vstd::arithmetic::div_mod::{lemma_add_mod_noop, lemma_mod_bound};

verus! {

/// Margin the reply's region keeps around every stroke point.
pub const REPLY_REGION_PAD: i32 = 5;
/// The first line never starts higher than this.
pub const TOP_MARGIN: i32 = 60;
/// The wobble generator's starting seed.
pub const JITTER_SEED: u32 = 0x1234;
pub const LCG_MUL: u32 = 1664525;
pub const LCG_ADD: u32 = 1013904223;

/// The generator state after one draw.
pub open spec fn next_seed(seed: u32) -> u32 {
    ((seed * LCG_MUL + LCG_ADD) % 0x1_0000_0000) as u32
}

/// The wobble a state yields: its high half reduced to `-3..=3`.
pub open spec fn wobble_of(seed: u32) -> int {
    (seed / 0x10000) % 7 - 3
}

/// A linear congruential generator of line wobbles.
#[derive(Debug)]
pub struct Jitter {
    seed: u32,
}

impl Jitter {
    pub closed spec fn spec_seed(&self) -> u32 {
        self.seed
    }

    pub fn new() -> (j: Jitter)
        ensures
            j.spec_seed() == JITTER_SEED,
    {
        Jitter { seed: JITTER_SEED }
    }

    /// Advance the generator and return the next wobble.
    pub fn next(&mut self) -> (w: i32)
        ensures
            final(self).spec_seed() == next_seed(old(self).spec_seed()),
            w == wobble_of(final(self).spec_seed()),
    {
        let s = self.seed;
        let m = s.wrapping_mul(LCG_MUL);
        let t = m.wrapping_add(LCG_ADD);
        proof {
            lemma_add_mod_noop(s * LCG_MUL, LCG_ADD as int, 0x1_0000_0000);
            lemma_mod_bound(LCG_ADD as int, 0x1_0000_0000);
            assert(t == next_seed(s));
        }
        self.seed = t;
        let h = t >> 16u32;
        assert(h == t / 0x10000) by (bit_vector)
            requires
                h == t >> 16u32,
        ;
        (h % 7) as i32 - 3
    }
}

/// Every wobble lies in `-3..=3`.
pub proof fn lemma_wobble_bounded(seed: u32)
    ensures
        -3 <= wobble_of(seed) <= 3,
{
}

/// The top of the first line: a third of the space left below the text
/// block, but never above `TOP_MARGIN`.
pub open spec fn spec_first_line_y(model: Model, line_h: i32, lines: usize) -> int {
    let total = line_h * (lines as i32);
    let y = trunc_div(model.spec_screen_h() - total, 3);
    if y < TOP_MARGIN { TOP_MARGIN as int } else { y }
}

/// `spec_first_line_y` can be computed within `i32`.
pub open spec fn first_line_ok(model: Model, line_h: i32, lines: usize) -> bool {
    &&& i32::MIN <= line_h * (lines as i32) <= i32::MAX
    &&& i32::MIN <= model.spec_screen_h() - line_h * (lines as i32) <= i32::MAX
}

/// The top of the first of `lines` lines of height `line_h`.
pub fn first_line_y(model: Model, line_h: i32, lines: usize) -> (y: i32)
    requires
        first_line_ok(model, line_h, lines),
    ensures
        y == spec_first_line_y(model, line_h, lines),
{
    let n = lines as i32;
    let total = line_h * n;
    let y = (model.screen_h() - total) / 3;
    if y < TOP_MARGIN {
        TOP_MARGIN
    } else {
        y
    }
}

/// The left edge of a line `width` pixels wide, centred on the screen.
pub fn line_x(model: Model, width: usize) -> (x: i32)
    requires
        i32::MIN <= model.spec_screen_w() - (width as i32) <= i32::MAX,
    ensures
        x == trunc_div(model.spec_screen_w() - (width as i32), 2),
{
    (model.screen_w() - width as i32) / 2
}

/// A stroke traced in line coordinates, moved to the line's place: right by
/// `x0`, down by `y` plus the line's wobble.
pub open spec fn spec_place(stroke: Seq<(i32, i32)>, x0: i32, y: i32, wobble: i32) -> Seq<(i32, i32)> {
    Seq::new(stroke.len(), |i: int| ((x0 + stroke[i].0) as i32, (y + stroke[i].1 + wobble) as i32))
}

/// Every point of the stroke can be moved without leaving `i32`.
pub open spec fn place_ok(stroke: Seq<(i32, i32)>, x0: i32, y: i32, wobble: i32) -> bool {
    forall|i: int|
        0 <= i < stroke.len() ==> {
            &&& i32::MIN <= x0 + (#[trigger] stroke[i]).0 <= i32::MAX
            &&& i32::MIN <= y + stroke[i].1 <= i32::MAX
            &&& i32::MIN <= y + stroke[i].1 + wobble <= i32::MAX
        }
}

/// Move a traced stroke to its place on the page.
pub fn place_stroke(stroke: &Vec<(i32, i32)>, x0: i32, y: i32, wobble: i32) -> (r: Vec<(i32, i32)>)
    requires
        place_ok(stroke@, x0, y, wobble),
    ensures
        r@ == spec_place(stroke@, x0, y, wobble),
{
    let mut out: Vec<(i32, i32)> = Vec::new();
    let mut i: usize = 0;
    while i < stroke.len()
        invariant
            i <= stroke@.len(),
            place_ok(stroke@, x0, y, wobble),
            out@ == spec_place(stroke@, x0, y, wobble).take(i as int),
        decreases stroke@.len() - i,
    {
        let (sx, sy) = stroke[i];
        assert(i32::MIN <= x0 + stroke@[i as int].0 <= i32::MAX);
        out.push((x0 + sx, y + sy + wobble));
        i = i + 1;
        assert(out@ =~= spec_place(stroke@, x0, y, wobble).take(i as int));
    }
    assert(out@ =~= spec_place(stroke@, x0, y, wobble));
    out
}


/// One line of the answer as traced: its raster's width and its strokes in
/// line coordinates.
pub struct TracedLine {
    pub width: usize,
    pub strokes: Vec<Vec<(i32, i32)>>,
}

/// The strokes of a traced line as sequences.
pub open spec fn traced(line: TracedLine) -> Seq<Seq<(i32, i32)>> {
    line.strokes@.map_values(|s: Vec<(i32, i32)>| s@)
}

/// Vectors of points as sequences.
pub open spec fn deep(v: Seq<Vec<(i32, i32)>>) -> Seq<Seq<(i32, i32)>> {
    v.map_values(|s: Vec<(i32, i32)>| s@)
}

/// The generator state after `n` draws from a fresh one.
pub open spec fn seed_after(n: nat) -> u32
    decreases n,
{
    if n == 0 { JITTER_SEED } else { next_seed(seed_after((n - 1) as nat)) }
}

/// The wobble of line `i`: the generator's `i + 1`-th draw.
pub open spec fn line_wobble(i: nat) -> int {
    wobble_of(seed_after(i + 1))
}

/// The top of line `i`.
pub open spec fn line_top(y0: i32, line_h: i32, i: int) -> int {
    y0 + i * line_h
}

/// The left edge of a line `width` pixels wide.
pub open spec fn line_left(model: Model, width: usize) -> int {
    trunc_div(model.spec_screen_w() - (width as i32), 2)
}

/// The strokes of line `i`, moved to its place.
pub open spec fn placed_line(model: Model, line: TracedLine, y0: i32, line_h: i32, i: nat) -> Seq<Seq<(i32, i32)>> {
    traced(line).map_values(
        |s: Seq<(i32, i32)>|
            spec_place(
                s,
                line_left(model, line.width) as i32,
                line_top(y0, line_h, i as int) as i32,
                line_wobble(i) as i32,
            ),
    )
}

/// The strokes of all lines, moved to their places, line after line.
pub open spec fn placed(model: Model, lines: Seq<TracedLine>, y0: i32, line_h: i32) -> Seq<Seq<(i32, i32)>>
    decreases lines.len(),
{
    if lines.len() == 0 {
        Seq::empty()
    } else {
        placed(model, lines.drop_last(), y0, line_h) + placed_line(
            model,
            lines.last(),
            y0,
            line_h,
            (lines.len() - 1) as nat,
        )
    }
}

/// Every line can be placed without leaving `i32`, and so can the top
/// below the last line.
pub open spec fn lines_ok(model: Model, lines: Seq<TracedLine>, y0: i32, line_h: i32) -> bool {
    &&& forall|i: int| 0 <= i <= lines.len() ==> i32::MIN <= #[trigger] line_top(y0, line_h, i) <= i32::MAX
    &&& forall|i: int|
        0 <= i < lines.len() ==> i32::MIN <= model.spec_screen_w() - ((#[trigger] lines[i]).width as i32)
            <= i32::MAX
    &&& forall|i: int, k: int|
        0 <= i < lines.len() && 0 <= k < traced(lines[i]).len() ==> place_ok(
            #[trigger] traced(lines[i])[k],
            line_left(model, lines[i].width) as i32,
            line_top(y0, line_h, i) as i32,
            line_wobble(i as nat) as i32,
        )
}

/// Place the answer's traced lines: line `i` centred, its top `i` line
/// heights below `y0`, moved down by the `i`-th wobble.
pub fn place_lines(model: Model, lines: &Vec<TracedLine>, y0: i32, line_h: i32) -> (r: Vec<Vec<(i32, i32)>>)
    requires
        lines_ok(model, lines@, y0, line_h),
    ensures
        deep(r@) == placed(model, lines@, y0, line_h),
{
    let mut jitter = Jitter::new();
    let mut y = y0;
    let mut out: Vec<Vec<(i32, i32)>> = Vec::new();
    let mut i: usize = 0;
    assert(line_top(y0, line_h, 0) == y0);
    while i < lines.len()
        invariant
            i <= lines@.len(),
            lines_ok(model, lines@, y0, line_h),
            jitter.spec_seed() == seed_after(i as nat),
            y == line_top(y0, line_h, i as int),
            deep(out@) == placed(model, lines@.take(i as int), y0, line_h),
        decreases lines@.len() - i,
    {
        let line = &lines[i];
        let x0 = line_x(model, line.width);
        let wobble = jitter.next();
        proof {
            lemma_wobble_bounded(jitter.spec_seed());
        }
        assert(x0 == line_left(model, line.width));
        assert(wobble == line_wobble(i as nat));
        let ghost before = deep(out@);
        let mut k: usize = 0;
        while k < line.strokes.len()
            invariant
                i < lines@.len(),
                line == lines@[i as int],
                k <= line.strokes@.len(),
                lines_ok(model, lines@, y0, line_h),
                x0 == line_left(model, line.width),
                wobble == line_wobble(i as nat),
                y == line_top(y0, line_h, i as int),
                deep(out@) == before + placed_line(model, *line, y0, line_h, i as nat).take(k as int),
            decreases line.strokes@.len() - k,
        {
            assert(traced(lines@[i as int])[k as int] == line.strokes@[k as int]@);
            assert(place_ok(traced(lines@[i as int])[k as int], x0, y, wobble));
            let placed_stroke = place_stroke(&line.strokes[k], x0, y, wobble);
            assert(placed_line(model, *line, y0, line_h, i as nat)[k as int] == spec_place(
                traced(*line)[k as int],
                x0,
                y,
                wobble,
            ));
            assert(placed_stroke@ == placed_line(model, *line, y0, line_h, i as nat)[k as int]);
            let ghost prev = deep(out@);
            let ghost row = placed_line(model, *line, y0, line_h, i as nat);
            out.push(placed_stroke);
            assert(deep(out@) =~= prev.push(row[k as int]));
            assert(row.take(k + 1) =~= row.take(k as int).push(row[k as int]));
            k = k + 1;
            assert(deep(out@) =~= before + placed_line(model, *line, y0, line_h, i as nat).take(k as int));
        }
        assert(placed_line(model, *line, y0, line_h, i as nat).take(k as int) =~= placed_line(
            model,
            *line,
            y0,
            line_h,
            i as nat,
        ));
        assert(lines@.take(i + 1).drop_last() =~= lines@.take(i as int));
        assert(deep(out@) =~= placed(model, lines@.take(i + 1), y0, line_h));
        assert(line_top(y0, line_h, i + 1) == y + line_h) by (nonlinear_arith)
            requires
                y == line_top(y0, line_h, i as int),
        ;
        assert(i32::MIN <= line_top(y0, line_h, i + 1) <= i32::MAX);
        y = y + line_h;
        i = i + 1;
    }
    assert(lines@.take(lines@.len() as int) =~= lines@);
    out
}


/// Whether every point of `stroke` can be moved by `(x0, y + wobble)`.
fn stroke_fits(stroke: &Vec<(i32, i32)>, x0: i32, y: i32, wobble: i32) -> (r: bool)
    ensures
        r == place_ok(stroke@, x0, y, wobble),
{
    let lo = i32::MIN as i64;
    let hi = i32::MAX as i64;
    let mut j: usize = 0;
    while j < stroke.len()
        invariant
            j <= stroke@.len(),
            lo == i32::MIN,
            hi == i32::MAX,
            forall|m: int|
                0 <= m < j ==> {
                    &&& i32::MIN <= x0 + (#[trigger] stroke@[m]).0 <= i32::MAX
                    &&& i32::MIN <= y + stroke@[m].1 <= i32::MAX
                    &&& i32::MIN <= y + stroke@[m].1 + wobble <= i32::MAX
                },
        decreases stroke@.len() - j,
    {
        let (sx, sy) = stroke[j];
        let px = x0 as i64 + sx as i64;
        let py = y as i64 + sy as i64;
        let pw = py + wobble as i64;
        if !(lo <= px && px <= hi && lo <= py && py <= hi && lo <= pw && pw <= hi) {
            assert(stroke@[j as int] == (sx, sy));
            return false;
        }
        j = j + 1;
    }
    true
}

/// Whether `lines_ok` holds: the answer can be placed without overflow.
pub fn lines_fit(model: Model, lines: &Vec<TracedLine>, y0: i32, line_h: i32) -> (r: bool)
    ensures
        r == lines_ok(model, lines@, y0, line_h),
{
    let lo = i32::MIN as i64;
    let hi = i32::MAX as i64;
    let mut jitter = Jitter::new();
    let mut top: i64 = y0 as i64;
    let mut i: usize = 0;
    assert(line_top(y0, line_h, 0) == y0);
    while i < lines.len()
        invariant
            i <= lines@.len(),
            lo == i32::MIN,
            hi == i32::MAX,
            jitter.spec_seed() == seed_after(i as nat),
            top == line_top(y0, line_h, i as int),
            i32::MIN as i64 - 0x8000_0000 <= top <= i32::MAX as i64 + 0x8000_0000,
            forall|j: int| 0 <= j < i ==> i32::MIN <= #[trigger] line_top(y0, line_h, j) <= i32::MAX,
            forall|j: int|
                0 <= j < i ==> i32::MIN <= model.spec_screen_w() - ((#[trigger] lines@[j]).width as i32)
                    <= i32::MAX,
            forall|j: int, k: int|
                0 <= j < i && 0 <= k < traced(lines@[j]).len() ==> place_ok(
                    #[trigger] traced(lines@[j])[k],
                    line_left(model, lines@[j].width) as i32,
                    line_top(y0, line_h, j) as i32,
                    line_wobble(j as nat) as i32,
                ),
        decreases lines@.len() - i,
    {
        if !(lo <= top && top <= hi) {
            assert(!(i32::MIN <= line_top(y0, line_h, i as int) <= i32::MAX));
            return false;
        }
        let y = top as i32;
        let line = &lines[i];
        let d = model.screen_w() as i64 - (line.width as i32) as i64;
        if !(lo <= d && d <= hi) {
            assert(!(i32::MIN <= model.spec_screen_w() - (lines@[i as int].width as i32) <= i32::MAX));
            return false;
        }
        let x0 = line_x(model, line.width);
        let wobble = jitter.next();
        proof {
            lemma_wobble_bounded(jitter.spec_seed());
        }
        let mut k: usize = 0;
        while k < line.strokes.len()
            invariant
                i < lines@.len(),
                line == lines@[i as int],
                k <= line.strokes@.len(),
                x0 == line_left(model, line.width),
                wobble == line_wobble(i as nat),
                y == line_top(y0, line_h, i as int),
                forall|m: int| 0 <= m < k ==> place_ok(#[trigger] traced(lines@[i as int])[m], x0, y, wobble),
            decreases line.strokes@.len() - k,
        {
            assert(traced(lines@[i as int])[k as int] == line.strokes@[k as int]@);
            if !stroke_fits(&line.strokes[k], x0, y, wobble) {
                assert(!place_ok(traced(lines@[i as int])[k as int], x0, y, wobble));
                return false;
            }
            k = k + 1;
        }
        assert(line_top(y0, line_h, i + 1) == top + line_h) by (nonlinear_arith)
            requires
                top == line_top(y0, line_h, i as int),
        ;
        top = top + line_h as i64;
        i = i + 1;
    }
    if !(lo <= top && top <= hi) {
        assert(!(i32::MIN <= line_top(y0, line_h, lines@.len() as int) <= i32::MAX));
        return false;
    }
    assert forall|j: int| 0 <= j <= lines@.len() implies i32::MIN <= #[trigger] line_top(y0, line_h, j) <= i32::MAX by {
    }
    true
}

} // verus!
