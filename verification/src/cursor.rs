use vstd::prelude::*;

use crate::game::Side;

verus! {

/// Horizontal offset of the cursor target inside a window `width` pixels
/// wide: a quarter of the width for Blue's (left) half, three quarters for
/// Red's (right) half, rounded down and capped at the largest `i32`.
pub open spec fn target_dx(width: u32, side: Side) -> int {
    match side {
        Side::Blue => width as int / 4,
        Side::Red => if 3 * (width as int) / 4 > i32::MAX {
            i32::MAX as int
        } else {
            3 * (width as int) / 4
        },
    }
}

/// Vertical offset of the cursor target: half the height, rounded down.
pub open spec fn target_dy(height: u32) -> int {
    height as int / 2
}

/// Screen point at the centre of the half of the window that `side`
/// controls, for a window whose outer corner is at `(x, y)` and whose outer
/// size is `width` by `height`.
pub fn cursor_target(x: i32, y: i32, width: u32, height: u32, side: Side) -> (p: (i32, i32))
    requires
        i32::MIN <= x + target_dx(width, side) <= i32::MAX,
        y + target_dy(height) <= i32::MAX,
    ensures
        p.0 == x + target_dx(width, side),
        p.1 == y + target_dy(height),
{
    let dx: i32 = match side {
        Side::Blue => (width / 4) as i32,
        Side::Red => {
            let three_quarters: u64 = (width as u64) * 3 / 4;
            if three_quarters > i32::MAX as u64 {
                i32::MAX
            } else {
                three_quarters as i32
            }
        },
    };
    let dy: i32 = (height / 2) as i32;
    (x + dx, y + dy)
}

} // verus!
