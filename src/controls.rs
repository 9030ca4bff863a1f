use vstd::prelude::*;
use crate::constants::{PLAYER_SPEED, PLAYER_WIDTH};
use crate::geometry::{clamp, clamped, in_field, Point};

verus! {

/// The keys held during a frame.
#[derive(Clone, Copy, Debug, PartialEq, Eq, Structural)]
pub struct Controls {
    /// Move the paddle to the left.
    pub left: bool,
    /// Move the paddle to the right.
    pub right: bool,
    /// Start a new game once the last one is over.
    pub restart: bool,
}

/// How far the paddle moves in `dt_ms` milliseconds, in thousandths of a pixel.
pub open spec fn player_step(dt_ms: int) -> int {
    PLAYER_SPEED * dt_ms
}

/// The paddle's x after one frame: a move to the right, then one to the left,
/// each only while its key is held and each kept within
/// `[0, screen_width - PLAYER_WIDTH]`.
pub open spec fn controlled_x(x: int, controls: Controls, dt_ms: int, screen_width: int) -> int {
    let high = screen_width - PLAYER_WIDTH;
    let after_right = if controls.right {
        clamped(x + player_step(dt_ms), 0, high)
    } else {
        x
    };
    if controls.left {
        clamped(after_right - player_step(dt_ms), 0, high)
    } else {
        after_right
    }
}

/// Moves the paddle at `player_pos` by the held keys.
pub fn set_controls(controls: &Controls, dt_ms: u32, screen_width: u32, player_pos: &mut Point)
    requires
        in_field(*old(player_pos)),
    ensures
        final(player_pos).x == controlled_x(
            old(player_pos).x as int,
            *controls,
            dt_ms as int,
            screen_width as int,
        ),
        final(player_pos).y == old(player_pos).y,
{
    let step: i64 = PLAYER_SPEED * dt_ms as i64;
    let high: i64 = screen_width as i64 - PLAYER_WIDTH;
    if controls.right {
        player_pos.x = player_pos.x + step;
        clamp(&mut player_pos.x, 0, high);
    }
    if controls.left {
        player_pos.x = player_pos.x - step;
        clamp(&mut player_pos.x, 0, high);
    }
}

} // verus!
