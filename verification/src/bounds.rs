//! Bounding boxes of drawn points: the smallest box that covers every point
//! with a margin around it, for pushing just the touched part of the panel.

use vstd::prelude::*;
use crate::diary::DrawOp;

verus! {

/// A box `[x0, x1] x [y0, y1]` (inclusive). Wide coordinates, so that a
/// margin around any `i32` point fits.
#[derive(Clone, Copy, Debug, PartialEq, Eq, Structural)]
pub struct Bounds {
    pub x0: i64,
    pub y0: i64,
    pub x1: i64,
    pub y1: i64,
}

pub open spec fn min(a: int, b: int) -> int {
    if a < b { a } else { b }
}

pub open spec fn max(a: int, b: int) -> int {
    if a < b { b } else { a }
}

/// `b` grown to cover `p` with a margin of `pad` on every side.
pub open spec fn add_point(b: Option<Bounds>, p: (i32, i32), pad: i32) -> Option<Bounds> {
    match b {
        None => Some(Bounds { x0: (p.0 - pad) as i64, y0: (p.1 - pad) as i64, x1: (p.0 + pad) as i64, y1: (p.1 + pad) as i64 }),
        Some(b) => Some(Bounds {
            x0: min(b.x0 as int, p.0 - pad) as i64,
            y0: min(b.y0 as int, p.1 - pad) as i64,
            x1: max(b.x1 as int, p.0 + pad) as i64,
            y1: max(b.y1 as int, p.1 + pad) as i64,
        }),
    }
}

/// `b` grown to cover every point of `pts`.
pub open spec fn fold_points(b: Option<Bounds>, pts: Seq<(i32, i32)>, pad: i32) -> Option<Bounds>
    decreases pts.len(),
{
    if pts.len() == 0 {
        b
    } else {
        add_point(fold_points(b, pts.drop_last(), pad), pts.last(), pad)
    }
}

/// The box covering every point of every stroke, `None` when there is no point.
pub open spec fn strokes_bounds(strokes: Seq<Seq<(i32, i32)>>, pad: i32) -> Option<Bounds>
    decreases strokes.len(),
{
    if strokes.len() == 0 {
        None
    } else {
        fold_points(strokes_bounds(strokes.drop_last(), pad), strokes.last(), pad)
    }
}

/// The point a drawing step ends at.
pub open spec fn op_point(op: DrawOp) -> (i32, i32) {
    match op {
        DrawOp::Line(_, to) => to,
        DrawOp::Stamp(at) => at,
    }
}

/// `p` lies in `b` with a margin of `pad` on every side.
pub open spec fn covers(b: Bounds, p: (i32, i32), pad: i32) -> bool {
    &&& b.x0 <= p.0 - pad
    &&& p.0 + pad <= b.x1
    &&& b.y0 <= p.1 - pad
    &&& p.1 + pad <= b.y1
}

fn grow(b: Option<Bounds>, p: (i32, i32), pad: i32) -> (r: Option<Bounds>)
    ensures
        r == add_point(b, p, pad),
{
    let (x, y) = p;
    let lx = x as i64 - pad as i64;
    let hx = x as i64 + pad as i64;
    let ly = y as i64 - pad as i64;
    let hy = y as i64 + pad as i64;
    match b {
        None => Some(Bounds { x0: lx, y0: ly, x1: hx, y1: hy }),
        Some(b) => Some(Bounds {
            x0: if b.x0 < lx { b.x0 } else { lx },
            y0: if b.y0 < ly { b.y0 } else { ly },
            x1: if b.x1 < hx { hx } else { b.x1 },
            y1: if b.y1 < hy { hy } else { b.y1 },
        }),
    }
}

fn add_all(b: Option<Bounds>, pts: &Vec<(i32, i32)>, pad: i32) -> (r: Option<Bounds>)
    ensures
        r == fold_points(b, pts@, pad),
{
    let mut acc = b;
    let mut i: usize = 0;
    while i < pts.len()
        invariant
            i <= pts@.len(),
            acc == fold_points(b, pts@.take(i as int), pad),
        decreases pts@.len() - i,
    {
        assert(pts@.take(i + 1).drop_last() =~= pts@.take(i as int));
        acc = grow(acc, pts[i], pad);
        i = i + 1;
    }
    assert(pts@.take(pts@.len() as int) =~= pts@);
    acc
}

/// The box covering every point of `strokes` with margin `pad`; `None`
/// when there is no point.
pub fn stroke_bounds(strokes: &Vec<Vec<(i32, i32)>>, pad: i32) -> (r: Option<Bounds>)
    ensures
        r == strokes_bounds(strokes@.map_values(|s: Vec<(i32, i32)>| s@), pad),
{
    let ghost deep = strokes@.map_values(|s: Vec<(i32, i32)>| s@);
    let mut acc: Option<Bounds> = None;
    let mut i: usize = 0;
    while i < strokes.len()
        invariant
            i <= strokes@.len(),
            deep == strokes@.map_values(|s: Vec<(i32, i32)>| s@),
            acc == strokes_bounds(deep.take(i as int), pad),
        decreases strokes@.len() - i,
    {
        assert(deep.take(i + 1).drop_last() =~= deep.take(i as int));
        assert(deep.take(i + 1).last() == strokes@[i as int]@);
        acc = add_all(acc, &strokes[i], pad);
        i = i + 1;
    }
    assert(deep.take(strokes@.len() as int) =~= deep);
    acc
}

/// The box covering the end point of every drawing step with margin `pad`;
/// `None` when there is no step.
pub fn ops_bounds(ops: &Vec<DrawOp>, pad: i32) -> (r: Option<Bounds>)
    ensures
        r == fold_points(None, ops@.map_values(|op: DrawOp| op_point(op)), pad),
{
    let ghost pts = ops@.map_values(|op: DrawOp| op_point(op));
    let mut acc: Option<Bounds> = None;
    let mut i: usize = 0;
    while i < ops.len()
        invariant
            i <= ops@.len(),
            pts == ops@.map_values(|op: DrawOp| op_point(op)),
            acc == fold_points(None, pts.take(i as int), pad),
        decreases ops@.len() - i,
    {
        assert(pts.take(i + 1).drop_last() =~= pts.take(i as int));
        let p = match ops[i] {
            DrawOp::Line(_, to) => to,
            DrawOp::Stamp(at) => at,
        };
        acc = grow(acc, p, pad);
        i = i + 1;
    }
    assert(pts.take(ops@.len() as int) =~= pts);
    acc
}

/// Growing a box by points gives the smallest box that covers them and the
/// starting box: every point is covered, the starting box stays inside,
/// and each edge is reached by a point or by the starting box.
pub proof fn lemma_fold_points(b: Option<Bounds>, pts: Seq<(i32, i32)>, pad: i32)
    requires
        pad >= 0,
        b matches Some(s) ==> s.x0 <= s.x1 && s.y0 <= s.y1,
    ensures
        fold_points(b, pts, pad) is None <==> (b is None && pts.len() == 0),
        fold_points(b, pts, pad) matches Some(r) ==> {
            &&& r.x0 <= r.x1 && r.y0 <= r.y1
            &&& forall|i: int| 0 <= i < pts.len() ==> covers(r, #[trigger] pts[i], pad)
            &&& (b matches Some(s) ==> r.x0 <= s.x0 && r.y0 <= s.y0 && s.x1 <= r.x1 && s.y1 <= r.y1)
            &&& ((b matches Some(s) && r.x0 == s.x0) || exists|i: int| 0 <= i < pts.len() && r.x0 == #[trigger] pts[i].0 - pad)
            &&& ((b matches Some(s) && r.y0 == s.y0) || exists|i: int| 0 <= i < pts.len() && r.y0 == #[trigger] pts[i].1 - pad)
            &&& ((b matches Some(s) && r.x1 == s.x1) || exists|i: int| 0 <= i < pts.len() && r.x1 == #[trigger] pts[i].0 + pad)
            &&& ((b matches Some(s) && r.y1 == s.y1) || exists|i: int| 0 <= i < pts.len() && r.y1 == #[trigger] pts[i].1 + pad)
        },
    decreases pts.len(),
{
    if pts.len() > 0 {
        let prev = pts.drop_last();
        lemma_fold_points(b, prev, pad);
        let n = pts.len() - 1;
        assert forall|i: int| 0 <= i < prev.len() implies #[trigger] prev[i] == pts[i] by {}
        let r0 = fold_points(b, prev, pad);
        let r = fold_points(b, pts, pad);
        if let Some(rr) = r {
            assert forall|i: int| 0 <= i < pts.len() implies covers(rr, #[trigger] pts[i], pad) by {
                if i < n {
                    assert(prev[i] == pts[i]);
                }
            }
            if let Some(q) = r0 {
                if rr.x0 != q.x0 {
                    assert(rr.x0 == pts[n].0 - pad);
                } else if !(b matches Some(s) && rr.x0 == s.x0) {
                    let i = choose|i: int| 0 <= i < prev.len() && q.x0 == #[trigger] prev[i].0 - pad;
                    assert(prev[i] == pts[i]);
                }
                if rr.y0 != q.y0 {
                    assert(rr.y0 == pts[n].1 - pad);
                } else if !(b matches Some(s) && rr.y0 == s.y0) {
                    let i = choose|i: int| 0 <= i < prev.len() && q.y0 == #[trigger] prev[i].1 - pad;
                    assert(prev[i] == pts[i]);
                }
                if rr.x1 != q.x1 {
                    assert(rr.x1 == pts[n].0 + pad);
                } else if !(b matches Some(s) && rr.x1 == s.x1) {
                    let i = choose|i: int| 0 <= i < prev.len() && q.x1 == #[trigger] prev[i].0 + pad;
                    assert(prev[i] == pts[i]);
                }
                if rr.y1 != q.y1 {
                    assert(rr.y1 == pts[n].1 + pad);
                } else if !(b matches Some(s) && rr.y1 == s.y1) {
                    let i = choose|i: int| 0 <= i < prev.len() && q.y1 == #[trigger] prev[i].1 + pad;
                    assert(prev[i] == pts[i]);
                }
            } else {
                assert(rr.x0 == pts[n].0 - pad);
                assert(rr.y0 == pts[n].1 - pad);
                assert(rr.x1 == pts[n].0 + pad);
                assert(rr.y1 == pts[n].1 + pad);
            }
        }
    }
}


/// The box of a set of strokes is the smallest one covering all their
/// points with the margin: `None` exactly when there is no point, every
/// point covered, and each edge reached by some point.
pub proof fn lemma_strokes_bounds(strokes: Seq<Seq<(i32, i32)>>, pad: i32)
    requires
        pad >= 0,
    ensures
        strokes_bounds(strokes, pad) is None <==> forall|k: int| 0 <= k < strokes.len() ==> #[trigger] strokes[k].len() == 0,
        strokes_bounds(strokes, pad) matches Some(r) ==> {
            &&& r.x0 <= r.x1 && r.y0 <= r.y1
            &&& forall|k: int, i: int| 0 <= k < strokes.len() && 0 <= i < strokes[k].len() ==> covers(r, #[trigger] strokes[k][i], pad)
            &&& exists|k: int, i: int| 0 <= k < strokes.len() && 0 <= i < strokes[k].len() && r.x0 == #[trigger] strokes[k][i].0 - pad
            &&& exists|k: int, i: int| 0 <= k < strokes.len() && 0 <= i < strokes[k].len() && r.y0 == #[trigger] strokes[k][i].1 - pad
            &&& exists|k: int, i: int| 0 <= k < strokes.len() && 0 <= i < strokes[k].len() && r.x1 == #[trigger] strokes[k][i].0 + pad
            &&& exists|k: int, i: int| 0 <= k < strokes.len() && 0 <= i < strokes[k].len() && r.y1 == #[trigger] strokes[k][i].1 + pad
        },
    decreases strokes.len(),
{
    if strokes.len() > 0 {
        let prev = strokes.drop_last();
        let n = strokes.len() - 1;
        let last = strokes[n];
        lemma_strokes_bounds(prev, pad);
        assert forall|k: int| 0 <= k < prev.len() implies #[trigger] prev[k] == strokes[k] by {}
        let b = strokes_bounds(prev, pad);
        lemma_fold_points(b, last, pad);
        assert(strokes.last() == last);
        if let Some(r) = strokes_bounds(strokes, pad) {
            assert forall|k: int, i: int| 0 <= k < strokes.len() && 0 <= i < strokes[k].len() implies covers(r, #[trigger] strokes[k][i], pad) by {
                if k < n {
                    assert(prev[k] == strokes[k]);
                    let q = b->0;
                    assert(covers(q, prev[k][i], pad));
                } else {
                    assert(covers(r, last[i], pad));
                }
            }
            if !(exists|i: int| 0 <= i < last.len() && r.x0 == #[trigger] last[i].0 - pad) {
                let (k, i) = choose|k: int, i: int| 0 <= k < prev.len() && 0 <= i < prev[k].len() && b->0.x0 == #[trigger] prev[k][i].0 - pad;
                assert(prev[k] == strokes[k]);
            } else {
                let i = choose|i: int| 0 <= i < last.len() && r.x0 == #[trigger] last[i].0 - pad;
                assert(strokes[n][i] == last[i]);
            }
            if !(exists|i: int| 0 <= i < last.len() && r.y0 == #[trigger] last[i].1 - pad) {
                let (k, i) = choose|k: int, i: int| 0 <= k < prev.len() && 0 <= i < prev[k].len() && b->0.y0 == #[trigger] prev[k][i].1 - pad;
                assert(prev[k] == strokes[k]);
            } else {
                let i = choose|i: int| 0 <= i < last.len() && r.y0 == #[trigger] last[i].1 - pad;
                assert(strokes[n][i] == last[i]);
            }
            if !(exists|i: int| 0 <= i < last.len() && r.x1 == #[trigger] last[i].0 + pad) {
                let (k, i) = choose|k: int, i: int| 0 <= k < prev.len() && 0 <= i < prev[k].len() && b->0.x1 == #[trigger] prev[k][i].0 + pad;
                assert(prev[k] == strokes[k]);
            } else {
                let i = choose|i: int| 0 <= i < last.len() && r.x1 == #[trigger] last[i].0 + pad;
                assert(strokes[n][i] == last[i]);
            }
            if !(exists|i: int| 0 <= i < last.len() && r.y1 == #[trigger] last[i].1 + pad) {
                let (k, i) = choose|k: int, i: int| 0 <= k < prev.len() && 0 <= i < prev[k].len() && b->0.y1 == #[trigger] prev[k][i].1 + pad;
                assert(prev[k] == strokes[k]);
            } else {
                let i = choose|i: int| 0 <= i < last.len() && r.y1 == #[trigger] last[i].1 + pad;
                assert(strokes[n][i] == last[i]);
            }
        } else {
            assert forall|k: int| 0 <= k < strokes.len() implies #[trigger] strokes[k].len() == 0 by {
                if k < n {
                    assert(prev[k] == strokes[k]);
                }
            }
        }
        if forall|k: int| 0 <= k < strokes.len() ==> #[trigger] strokes[k].len() == 0 {
            assert forall|k: int| 0 <= k < prev.len() implies #[trigger] prev[k].len() == 0 by {
                assert(prev[k] == strokes[k]);
            }
            assert(last.len() == 0);
        }
    }
}

} // verus!
