//! The coordinate-display session: it polls the cursor until the cursor
//! enters the small exit region at the screen origin, the hard-coded gesture
//! that ends the session.

use crate::collect::ScreenPosition;
use vstd::prelude::*;

verus! {

/// The exit gesture: both coordinates between 0 and 5, inclusive.
pub open spec fn spec_in_exit_region(x: int, y: int) -> bool {
    0 <= x <= 5 && 0 <= y <= 5
}

/// Decides the exit gesture, exactly as `spec_in_exit_region` says.
pub fn in_exit_region(x: i32, y: i32) -> (b: bool)
    ensures
        b == spec_in_exit_region(x as int, y as int),
{
    0 <= x && x <= 5 && 0 <= y && y <= 5
}

/// Where a coordinate-display session over the polled cursor positions ends:
/// at the first poll inside the exit region, every poll before it shown and
/// outside the region; a trace that never enters the region never ends the
/// session.
pub fn show_screen_coords(polls: &Vec<ScreenPosition>) -> (r: Option<usize>)
    ensures
        match r {
            Some(i) => i < polls@.len() && spec_in_exit_region(
                polls@[i as int].x as int,
                polls@[i as int].y as int,
            ) && forall|j: int|
                0 <= j < i ==> !spec_in_exit_region(
                    (#[trigger] polls@[j]).x as int,
                    polls@[j].y as int,
                ),
            None => forall|j: int|
                0 <= j < polls@.len() ==> !spec_in_exit_region(
                    (#[trigger] polls@[j]).x as int,
                    polls@[j].y as int,
                ),
        },
{
    let n = polls.len();
    let mut i: usize = 0;
    while i < n
        invariant
            0 <= i <= n,
            n == polls@.len(),
            forall|j: int|
                0 <= j < i ==> !spec_in_exit_region(
                    (#[trigger] polls@[j]).x as int,
                    polls@[j].y as int,
                ),
        decreases n - i,
    {
        let p = polls[i];
        if in_exit_region(p.x, p.y) {
            return Some(i);
        }
        i = i + 1;
    }
    None
}

} // verus!
