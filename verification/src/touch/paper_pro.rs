//! Paper Pro touch panel: its geometry differs, and only the five-finger
//! quit is wired, so no swipe ever closes the diary.

use vstd::prelude::*;

verus! {

/// No close swipe on this panel.
pub fn top_swipe_down(sx: i32, sy: i32, x: i32, y: i32) -> (r: bool)
    ensures
        !r,
{
    false
}

} // verus!
