use vstd::prelude::*;

verus! {

/// One pixel in the units of every position and size: thousandths of a
/// pixel. A speed in pixels per second is then a speed in units per
/// millisecond, so a step of `dt_ms` milliseconds is `speed * dt_ms` units.
pub const PIXEL: i64 = 1000;

/// Width of the player's paddle.
pub const PLAYER_WIDTH: i64 = 100 * PIXEL;

/// Height of the player's paddle.
pub const PLAYER_HEIGHT: i64 = 10 * PIXEL;

/// Half of the paddle's width.
pub const PLAYER_WIDTH_HALF: i64 = 50 * PIXEL;

/// Distance between the paddle's top edge and the bottom of the screen.
pub const PLAYER_PADDING: i64 = 20 * PIXEL;

/// Horizontal speed of the paddle, in pixels per second.
pub const PLAYER_SPEED: i64 = 300;

/// Falling speed of the invaders, in pixels per second.
pub const INVADER_SPEED: i64 = 100;

/// Number of invaders on the field at any time.
pub const INVADER_AMOUNT: usize = 5;

/// Side of an invader's square.
pub const INVADER_SIZE: i64 = 20 * PIXEL;

/// Lowest y that an invader of the first wave may start at.
pub const INVADER_FIRST_WAVE_TOP: i64 = -1000 * PIXEL;

/// Width of a shot.
pub const FIRE_WIDTH: i64 = 2 * PIXEL;

/// Upward speed of the shots, in pixels per second.
pub const FIRE_SPEED: i64 = 300;

/// A volley leaves only once more than this many milliseconds have passed
/// since the last one.
pub const FIRE_PADDING: u128 = 100;

/// Bound on every coordinate of a well-formed game: far beyond any screen, and
/// far enough from the limits of `i64` that no movement can overflow.
pub const COORD_LIMIT: i64 = 1_125_899_906_842_624;

/// Lives at the start of a game.
pub const START_LIFE: i32 = 3;

} // verus!
