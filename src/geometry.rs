use vstd::prelude::*;
use crate::constants::COORD_LIMIT;

verus! {

/// A position on the screen: the top-left corner of whatever stands there.
#[derive(Clone, Copy, Debug, PartialEq, Eq, Structural)]
pub struct Point {
    pub x: i64,
    pub y: i64,
}

impl Point {
    pub fn new(x: i64, y: i64) -> (p: Point)
        ensures
            p.x == x,
            p.y == y,
    {
        Point { x, y }
    }
}

/// Whether both coordinates of `p` are within `COORD_LIMIT` of the origin.
pub open spec fn in_field(p: Point) -> bool {
    &&& -COORD_LIMIT <= p.x <= COORD_LIMIT
    &&& -COORD_LIMIT <= p.y <= COORD_LIMIT
}

/// The value that `clamp` leaves behind.
pub open spec fn clamped(value: int, low: int, high: int) -> int {
    if value < low {
        low
    } else if value > high {
        high
    } else {
        value
    }
}

/// Bounds `value` to `[low, high]`: below `low` it becomes `low`, above `high`
/// it becomes `high`, otherwise it stays.
pub fn clamp(value: &mut i64, low: i64, high: i64)
    ensures
        *final(value) == clamped(*old(value) as int, low as int, high as int),
{
    if *value < low {
        *value = low;
    } else if *value > high {
        *value = high;
    }
}

/// Whether a shot at `(fire_x, fire_y)` of width `fire_w` is inside the
/// invader whose box has its corner at `(invader_x, invader_y)`: the shot's
/// horizontal span overlaps the invader's, and its y lies strictly between
/// `invader_y - invader_h` and `invader_y`. Touching edges do not count.
pub open spec fn hit_at(
    invader_x: int,
    invader_y: int,
    invader_w: int,
    invader_h: int,
    fire_x: int,
    fire_y: int,
    fire_w: int,
) -> bool {
    &&& fire_x < invader_x + invader_w
    &&& fire_x + fire_w > invader_x
    &&& fire_y < invader_y
    &&& fire_y > invader_y - invader_h
}

/// Tests whether a shot hits an invader (see `hit_at`).
pub fn is_hit(
    invader_x: i64,
    invader_y: i64,
    invader_w: i64,
    invader_h: i64,
    fire_x: i64,
    fire_y: i64,
    fire_w: i64,
) -> (r: bool)
    ensures
        r == hit_at(
            invader_x as int,
            invader_y as int,
            invader_w as int,
            invader_h as int,
            fire_x as int,
            fire_y as int,
            fire_w as int,
        ),
{
    (fire_x as i128) < (invader_x as i128) + (invader_w as i128)
        && (fire_x as i128) + (fire_w as i128) > (invader_x as i128)
        && (fire_y as i128) < (invader_y as i128)
        && (fire_y as i128) > (invader_y as i128) - (invader_h as i128)
}

/// Edges do not hit: a shot that starts at the invader's right edge misses,
/// and so does a shot whose right end lies at the invader's left edge (for a
/// shot of no width, one that starts at the left edge).
pub proof fn lemma_edges_do_not_hit(
    invader_x: int,
    invader_y: int,
    invader_w: int,
    invader_h: int,
    fire_y: int,
    fire_w: int,
)
    ensures
        !hit_at(invader_x, invader_y, invader_w, invader_h, invader_x + invader_w, fire_y, fire_w),
        !hit_at(invader_x, invader_y, invader_w, invader_h, invader_x - fire_w, fire_y, fire_w),
        fire_w <= 0 ==> !hit_at(invader_x, invader_y, invader_w, invader_h, invader_x, fire_y, fire_w),
{
}

} // verus!
