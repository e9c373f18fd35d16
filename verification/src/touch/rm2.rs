//! reMarkable 2 touch panel (pt_mt/cyttsp5): raw X matches the screen, raw
//! Y is inverted (raw_y = 1871 - screen_y), so the top edge is raw Y near
//! its maximum and a downward swipe is raw Y decreasing.

use vstd::prelude::*;

verus! {

pub const TOUCH_MAX_Y: i32 = 1871;
/// A close-swipe must start within this band of the top edge…
pub const TOP_BAND: i32 = 48;
/// …travel at least this far down…
pub const SWIPE_TRAVEL: i32 = 300;

pub open spec fn abs(v: int) -> int {
    if v < 0 { -v } else { v }
}

/// The gesture test stays within `i32` for these points.
pub open spec fn swipe_ok(sx: i32, sy: i32, x: i32, y: i32) -> bool {
    &&& i32::MIN <= sy - y <= i32::MAX
    &&& i32::MIN < x - sx <= i32::MAX
    &&& (sy >= TOUCH_MAX_Y - TOP_BAND && sy - y >= SWIPE_TRAVEL ==> 2 * abs(x - sx) <= i32::MAX)
}

pub open spec fn spec_top_swipe_down(sx: i32, sy: i32, x: i32, y: i32) -> bool {
    &&& sy >= TOUCH_MAX_Y - TOP_BAND
    &&& sy - y >= SWIPE_TRAVEL
    &&& sy - y >= 2 * abs(x - sx)
}

/// Whether `swipe_ok` holds for these points.
pub fn swipe_in_range(sx: i32, sy: i32, x: i32, y: i32) -> (r: bool)
    ensures
        r == swipe_ok(sx, sy, x, y),
{
    let dy = sy as i64 - y as i64;
    let d = x as i64 - sx as i64;
    let dx = if d < 0 { -d } else { d };
    let lo = i32::MIN as i64;
    let hi = i32::MAX as i64;
    lo <= dy && dy <= hi && lo < d && d <= hi && (!(sy >= TOUCH_MAX_Y - TOP_BAND && dy >= SWIPE_TRAVEL as i64)
        || 2 * dx <= hi)
}

/// The contact began in the top-edge band (raw Y near max) and travelled
/// down the screen (raw Y decreasing) at least `SWIPE_TRAVEL`, mostly
/// vertically: the close swipe.
pub fn top_swipe_down(sx: i32, sy: i32, x: i32, y: i32) -> (r: bool)
    requires
        swipe_ok(sx, sy, x, y),
    ensures
        r == spec_top_swipe_down(sx, sy, x, y),
{
    let dy = sy - y;
    let d = x - sx;
    let dx = if d < 0 { -d } else { d };
    sy >= TOUCH_MAX_Y - TOP_BAND && dy >= SWIPE_TRAVEL && dy >= 2 * dx
}

} // verus!
