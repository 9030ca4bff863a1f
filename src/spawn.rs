use vstd::prelude::*;
use rand::rngs::StdRng;
use crate::constants::{INVADER_AMOUNT, INVADER_FIRST_WAVE_TOP, INVADER_SIZE};
use crate::geometry::Point;
use crate::random::random_in;

verus! {

/// Where an invader may stand horizontally on a screen `screen_width` wide:
/// fully inside it, `x` in `[0, screen_width - INVADER_SIZE)`.
pub open spec fn spawn_column(x: int, screen_width: int) -> bool {
    0 <= x < screen_width - INVADER_SIZE
}

/// A position at which an invader re-enters: a valid column, with its corner
/// `INVADER_SIZE` above the top edge.
pub open spec fn respawn_spot(p: Point, screen_width: int) -> bool {
    &&& spawn_column(p.x as int, screen_width)
    &&& p.y == -INVADER_SIZE
}

/// A position of the first wave: a valid column, and a height staggered
/// above the screen, `y` in `[INVADER_FIRST_WAVE_TOP, 0)`.
pub open spec fn first_wave_spot(p: Point, screen_width: int) -> bool {
    &&& spawn_column(p.x as int, screen_width)
    &&& INVADER_FIRST_WAVE_TOP <= p.y < 0
}

/// A random position at which a hit or fallen invader comes back.
pub fn get_init_invader_pos(rng: &mut StdRng, screen_width: u32) -> (p: Point)
    requires
        screen_width > INVADER_SIZE,
    ensures
        respawn_spot(p, screen_width as int),
{
    let x = random_in(rng, 0, screen_width as i64 - INVADER_SIZE);
    Point { x, y: -INVADER_SIZE }
}

/// The first wave: `INVADER_AMOUNT` invaders at random positions above the
/// screen.
pub fn create_invaders(rng: &mut StdRng, screen_width: u32) -> (invaders: Vec<Point>)
    requires
        screen_width > INVADER_SIZE,
    ensures
        invaders@.len() == INVADER_AMOUNT,
        forall|i: int|
            0 <= i < invaders@.len() ==> first_wave_spot(#[trigger] invaders@[i], screen_width as int),
{
    let mut invaders: Vec<Point> = Vec::new();
    for _i in 0..INVADER_AMOUNT
        invariant
            screen_width > INVADER_SIZE,
            invaders@.len() == _i,
            forall|k: int|
                0 <= k < invaders@.len() ==> first_wave_spot(#[trigger] invaders@[k], screen_width as int),
    {
        let x = random_in(rng, 0, screen_width as i64 - INVADER_SIZE);
        let y = random_in(rng, INVADER_FIRST_WAVE_TOP, 0);
        invaders.push(Point { x, y });
    }
    invaders
}

} // verus!
