use vstd::prelude::*;
use crate::constants::{FIRE_PADDING, PLAYER_WIDTH};
use crate::geometry::Point;

verus! {

/// Whether a volley may leave at `now` when the last one left at `last`:
/// more than `FIRE_PADDING` milliseconds have passed.
pub open spec fn fire_due(last: int, now: int) -> bool {
    now - last > FIRE_PADDING
}

/// The two shots of a volley: one at each end of the paddle at `player`.
pub open spec fn volley(player: Point) -> Seq<Point> {
    seq![Point { x: player.x, y: player.y }, Point { x: (player.x + PLAYER_WIDTH) as i64, y: player.y }]
}

/// The time of the last volley and the shots after a fire attempt at `now`.
pub open spec fn fire_outcome(last: u128, now: u128, fires: Seq<Point>, player: Point) -> (
    u128,
    Seq<Point>,
) {
    if fire_due(last as int, now as int) {
        (now, fires + volley(player))
    } else {
        (last, fires)
    }
}

/// Fires a volley from the paddle at `player_pos` if the cooldown since
/// `last_fire_time` has passed at `now`, and then records `now` as the time of
/// the last volley. A clock that went back counts as no time passed.
pub fn create_fires(
    last_fire_time: &mut u128,
    fire_positions: &mut Vec<Point>,
    player_pos: Point,
    now: u128,
)
    requires
        player_pos.x + PLAYER_WIDTH <= i64::MAX,
    ensures
        (*final(last_fire_time), final(fire_positions)@) == fire_outcome(
            *old(last_fire_time),
            now,
            old(fire_positions)@,
            player_pos,
        ),
{
    if now > *last_fire_time && now - *last_fire_time > FIRE_PADDING {
        fire_positions.push(Point { x: player_pos.x, y: player_pos.y });
        fire_positions.push(Point { x: player_pos.x + PLAYER_WIDTH, y: player_pos.y });
        *last_fire_time = now;
        proof {
            assert(final(fire_positions)@ =~= old(fire_positions)@ + volley(player_pos));
        }
    }
}

/// Two attempts within the cooldown give one volley: the second attempt
/// changes nothing. An attempt after the cooldown has passed since the first
/// volley adds exactly two shots.
pub proof fn lemma_fire_cooldown(
    last: u128,
    first_at: u128,
    second_at: u128,
    third_at: u128,
    fires: Seq<Point>,
    player: Point,
)
    requires
        fire_due(last as int, first_at as int),
        second_at <= first_at + FIRE_PADDING,
        third_at > first_at + FIRE_PADDING,
    ensures
        ({
            let first = fire_outcome(last, first_at, fires, player);
            let second = fire_outcome(first.0, second_at, first.1, player);
            let third = fire_outcome(second.0, third_at, second.1, player);
            &&& first.1 == fires + volley(player)
            &&& second == first
            &&& third.1 == second.1 + volley(player)
            &&& third.1.len() == second.1.len() + 2
        }),
{
}

} // verus!
