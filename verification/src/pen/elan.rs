//! Paper Pro digitizer ("Elan marker input"): its axes are already aligned
//! with the framebuffer, so mapping is a plain scale.

use vstd::prelude::*;
use crate::panel::{PAPER_PRO_H, PAPER_PRO_W};
use crate::pen::{lemma_scale, trunc_div};
use vstd::arithmetic::div_mod::lemma_div_multiples_vanish;
use vstd::arithmetic::mul::lemma_mul_inequality;

verus! {

pub const RAW_MAX_X: i32 = 11180;
pub const RAW_MAX_Y: i32 = 15340;

/// `raw_x` can be scaled to the screen without leaving `i32`.
pub open spec fn raw_x_ok(raw_x: i32) -> bool {
    i32::MIN <= raw_x * (PAPER_PRO_W - 1) <= i32::MAX
}

/// `raw_y` can be scaled to the screen without leaving `i32`.
pub open spec fn raw_y_ok(raw_y: i32) -> bool {
    i32::MIN <= raw_y * (PAPER_PRO_H - 1) <= i32::MAX
}

pub open spec fn spec_map(raw_x: i32, raw_y: i32) -> (i32, i32) {
    (
        trunc_div(raw_x * (PAPER_PRO_W - 1), RAW_MAX_X as int) as i32,
        trunc_div(raw_y * (PAPER_PRO_H - 1), RAW_MAX_Y as int) as i32,
    )
}

/// Raw digitizer coordinates to screen coordinates (Rust's truncating division).
pub fn map(raw_x: i32, raw_y: i32) -> (r: (i32, i32))
    requires
        raw_x_ok(raw_x),
        raw_y_ok(raw_y),
    ensures
        r == spec_map(raw_x, raw_y),
{
    (raw_x * (PAPER_PRO_W - 1) / RAW_MAX_X, raw_y * (PAPER_PRO_H - 1) / RAW_MAX_Y)
}


/// Whether `raw_x` satisfies `raw_x_ok`.
pub fn raw_x_in_range(raw_x: i32) -> (r: bool)
    ensures
        r == raw_x_ok(raw_x),
{
    let k: i64 = (PAPER_PRO_W - 1) as i64;
    assert(-0x1_0000_0000_0000 <= raw_x as i64 * k <= 0x1_0000_0000_0000) by (nonlinear_arith)
        requires -0x1_0000_0000 <= raw_x as i64 <= 0x1_0000_0000, 0 <= k <= 0x10000;
    let p = raw_x as i64 * k;
    i32::MIN as i64 <= p && p <= i32::MAX as i64
}

/// Whether `raw_y` satisfies `raw_y_ok`.
pub fn raw_y_in_range(raw_y: i32) -> (r: bool)
    ensures
        r == raw_y_ok(raw_y),
{
    let k: i64 = (PAPER_PRO_H - 1) as i64;
    assert(-0x1_0000_0000_0000 <= raw_y as i64 * k <= 0x1_0000_0000_0000) by (nonlinear_arith)
        requires -0x1_0000_0000 <= raw_y as i64 <= 0x1_0000_0000, 0 <= k <= 0x10000;
    let p = raw_y as i64 * k;
    i32::MIN as i64 <= p && p <= i32::MAX as i64
}


/// Raw coordinates within the digitizer's range need no clamping: they map
/// onto the screen.
pub proof fn lemma_map_on_screen(raw_x: i32, raw_y: i32)
    requires
        0 <= raw_x <= RAW_MAX_X,
        0 <= raw_y <= RAW_MAX_Y,
    ensures
        raw_x_ok(raw_x),
        raw_y_ok(raw_y),
        0 <= spec_map(raw_x, raw_y).0 <= PAPER_PRO_W - 1,
        0 <= spec_map(raw_x, raw_y).1 <= PAPER_PRO_H - 1,
{
    lemma_scale(raw_x as int, raw_x as int, (PAPER_PRO_W - 1) as int, RAW_MAX_X as int);
    lemma_scale(raw_y as int, raw_y as int, (PAPER_PRO_H - 1) as int, RAW_MAX_Y as int);
    lemma_mul_inequality(raw_x as int, RAW_MAX_X as int, (PAPER_PRO_W - 1) as int);
    lemma_mul_inequality(raw_y as int, RAW_MAX_Y as int, (PAPER_PRO_H - 1) as int);
    lemma_mul_inequality(0, raw_x as int, (PAPER_PRO_W - 1) as int);
    lemma_mul_inequality(0, raw_y as int, (PAPER_PRO_H - 1) as int);
}

/// The digitizer's corners are the screen's corners.
pub proof fn lemma_map_corners()
    ensures
        spec_map(0, 0) == (0i32, 0i32),
        spec_map(RAW_MAX_X, RAW_MAX_Y) == ((PAPER_PRO_W - 1) as i32, (PAPER_PRO_H - 1) as i32),
{
    lemma_div_multiples_vanish((PAPER_PRO_W - 1) as int, RAW_MAX_X as int);
    lemma_div_multiples_vanish((PAPER_PRO_H - 1) as int, RAW_MAX_Y as int);
}

/// Moving the pen right or down on the digitizer never moves the point left or up.
pub proof fn lemma_map_monotonic(x1: i32, y1: i32, x2: i32, y2: i32)
    requires
        0 <= x1 <= x2 <= RAW_MAX_X,
        0 <= y1 <= y2 <= RAW_MAX_Y,
    ensures
        spec_map(x1, y1).0 <= spec_map(x2, y2).0,
        spec_map(x1, y1).1 <= spec_map(x2, y2).1,
{
    lemma_map_on_screen(x1, y1);
    lemma_map_on_screen(x2, y2);
    lemma_scale(x1 as int, x2 as int, (PAPER_PRO_W - 1) as int, RAW_MAX_X as int);
    lemma_scale(y1 as int, y2 as int, (PAPER_PRO_H - 1) as int, RAW_MAX_Y as int);
    lemma_mul_inequality(0, x1 as int, (PAPER_PRO_W - 1) as int);
    lemma_mul_inequality(0, y1 as int, (PAPER_PRO_H - 1) as int);
}

} // verus!
