use vstd::prelude::*;
use rand::rngs::StdRng;
use crate::collision::{add_capped, get_hits, hit_by_any_fire, hit_pairs, hits_any_invader};
use crate::constants::{
    COORD_LIMIT, INVADER_AMOUNT, INVADER_SIZE, PLAYER_PADDING, PLAYER_WIDTH, PLAYER_WIDTH_HALF,
    START_LIFE,
};
use crate::controls::{controlled_x, set_controls, Controls};
use crate::fire::{create_fires, fire_outcome, volley};
use crate::geometry::{in_field, Point};
use crate::random::seeded_rng;
use crate::spawn::{create_invaders, first_wave_spot};
use crate::update::{
    advance_fires, fallen_count, fire_kept, invader_moved, lemma_fallen_count_agree, lemma_filter_agree,
    lemma_filter_kept, on_screen, remove_exited_fires, update_fires, update_invaders, visible_fires,
};

verus! {

/// The whole state of a game session.
pub struct GameState {
    /// Top-left corner of the paddle.
    pub player_pos: Point,
    /// Top-left corners of the invaders; always `INVADER_AMOUNT` of them.
    pub invader_positions: Vec<Point>,
    /// Positions of the shots in flight.
    pub fire_positions: Vec<Point>,
    /// Hits scored in this game.
    pub score: i32,
    /// Lives left; the game is over at zero or below.
    pub life: i32,
    /// Wall-clock milliseconds of the last volley.
    pub last_fire_time: u128,
    /// Best score known, from earlier games or this one.
    pub highest_score: i32,
    /// Source of the invaders' random positions.
    pub rng: StdRng,
}

/// Where the paddle starts: centred, `PLAYER_PADDING` above the bottom edge.
pub open spec fn start_position(screen_width: int, screen_height: int) -> Point {
    Point {
        x: (screen_width / 2 - PLAYER_WIDTH_HALF) as i64,
        y: (screen_height - PLAYER_PADDING) as i64,
    }
}

/// Whether the paddle at `p` and both shots it would fire are in the field.
pub open spec fn paddle_in_field(p: Point) -> bool {
    &&& in_field(p)
    &&& p.x + PLAYER_WIDTH <= COORD_LIMIT
}

/// Whether `invaders` is a fresh first wave on a screen `screen_width` wide.
pub open spec fn fresh_wave(invaders: Seq<Point>, screen_width: int) -> bool {
    &&& invaders.len() == INVADER_AMOUNT
    &&& forall|i: int| 0 <= i < invaders.len() ==> first_wave_spot(#[trigger] invaders[i], screen_width)
}

/// The shots after one frame of play: those still on screen that hit no
/// invader, moved up.
pub open spec fn frame_fires(fires: Seq<Point>, invaders: Seq<Point>, dt_ms: int) -> Seq<Point> {
    advance_fires(
        visible_fires(fires).filter(|f: Point| !hits_any_invader(f, invaders)),
        dt_ms,
    )
}

/// Which invaders are hit in a frame: those hit by a shot still on screen.
pub open spec fn frame_hit(fires: Seq<Point>) -> spec_fn(Point) -> bool {
    |e: Point| hit_by_any_fire(e, visible_fires(fires))
}

impl GameState {
    /// The state's invariant: a full set of invaders, every position within
    /// `COORD_LIMIT`, and a score that is not negative.
    pub open spec fn wf(&self) -> bool {
        &&& self.invader_positions@.len() == INVADER_AMOUNT
        &&& forall|i: int|
            0 <= i < self.invader_positions@.len() ==> in_field(
                #[trigger] self.invader_positions@[i],
            )
        &&& forall|i: int|
            0 <= i < self.fire_positions@.len() ==> in_field(#[trigger] self.fire_positions@[i])
        &&& paddle_in_field(self.player_pos)
        &&& self.score >= 0
    }

    /// A new game on a screen of the given size: the paddle centred at the
    /// bottom, a fresh first wave, no shots, score 0 and `START_LIFE` lives.
    /// `last_fire_time` is the clock now, `highest_score` the best score
    /// stored, and `seed` seeds the invaders' random positions.
    pub fn new(
        screen_width: u32,
        screen_height: u32,
        last_fire_time: u128,
        highest_score: i32,
        seed: u64,
    ) -> (state: GameState)
        requires
            screen_width > INVADER_SIZE,
        ensures
            state.wf(),
            state.player_pos == start_position(screen_width as int, screen_height as int),
            fresh_wave(state.invader_positions@, screen_width as int),
            state.fire_positions@.len() == 0,
            state.score == 0,
            state.life == START_LIFE,
            state.last_fire_time == last_fire_time,
            state.highest_score == highest_score,
    {
        let mut rng = seeded_rng(seed);
        let invader_positions = create_invaders(&mut rng, screen_width);
        GameState {
            player_pos: Point {
                x: screen_width as i64 / 2 - PLAYER_WIDTH_HALF,
                y: screen_height as i64 - PLAYER_PADDING,
            },
            invader_positions,
            fire_positions: Vec::new(),
            score: 0,
            life: START_LIFE,
            last_fire_time,
            highest_score,
            rng,
        }
    }

    /// One frame of the game, `dt_ms` milliseconds after the last, on a screen
    /// of the given size, with the keys in `controls` held and the clock at
    /// `now`.
    ///
    /// Once the game is over nothing moves and nothing is scored; the restart
    /// key starts a new game (paddle, wave, shots, score and lives reset).
    /// During play, in order:
    /// the paddle moves; shots that left through the top go; every shot is
    /// tested against every invader, one point per colliding pair; shots that
    /// hit go and the rest move up; invaders that were hit come back from the
    /// top, all invaders fall, and each one that passes the bottom comes back
    /// from the top and costs a life; a volley leaves if the cooldown has
    /// passed. If this frame ends the game with a score above the best one,
    /// the best score becomes the score and is returned, to be stored.
    pub fn update(
        &mut self,
        controls: Controls,
        dt_ms: u32,
        screen_width: u32,
        screen_height: u32,
        now: u128,
    ) -> (new_highest: Option<i32>)
        requires
            old(self).wf(),
            screen_width > INVADER_SIZE,
        ensures
            final(self).wf(),
            old(self).life <= 0 ==> {
                &&& final(self).highest_score == old(self).highest_score
                &&& new_highest is None
            },
            old(self).life <= 0 && !controls.restart ==> {
                &&& final(self).player_pos == old(self).player_pos
                &&& final(self).invader_positions == old(self).invader_positions
                &&& final(self).fire_positions == old(self).fire_positions
                &&& final(self).score == old(self).score
                &&& final(self).life == old(self).life
                &&& final(self).last_fire_time == old(self).last_fire_time
                &&& final(self).rng == old(self).rng
            },
            old(self).life <= 0 && controls.restart ==> {
                &&& final(self).player_pos == start_position(
                    screen_width as int,
                    screen_height as int,
                )
                &&& fresh_wave(final(self).invader_positions@, screen_width as int)
                &&& final(self).fire_positions@.len() == 0
                &&& final(self).score == 0
                &&& final(self).life == START_LIFE
                &&& final(self).last_fire_time == old(self).last_fire_time
            },
            old(self).life > 0 ==> {
                let invaders = old(self).invader_positions@;
                let fires = old(self).fire_positions@;
                let player = Point {
                    x: controlled_x(
                        old(self).player_pos.x as int,
                        controls,
                        dt_ms as int,
                        screen_width as int,
                    ) as i64,
                    y: old(self).player_pos.y,
                };
                &&& final(self).player_pos == player
                &&& final(self).score == add_capped(
                    old(self).score as int,
                    hit_pairs(visible_fires(fires), invaders).len() as int,
                )
                &&& forall|i: int|
                    0 <= i < invaders.len() ==> invader_moved(
                        #[trigger] invaders[i],
                        hit_by_any_fire(invaders[i], visible_fires(fires)),
                        final(self).invader_positions@[i],
                        dt_ms as int,
                        screen_width as int,
                        screen_height as int,
                    )
                &&& final(self).life == old(self).life - fallen_count(
                    invaders,
                    frame_hit(fires),
                    dt_ms as int,
                    screen_height as int,
                )
                &&& (final(self).last_fire_time, final(self).fire_positions@) == fire_outcome(
                    old(self).last_fire_time,
                    now,
                    frame_fires(fires, invaders, dt_ms as int),
                    player,
                )
                &&& if final(self).life <= 0 && final(self).score > old(self).highest_score {
                    &&& final(self).highest_score == final(self).score
                    &&& new_highest == Some(final(self).score)
                } else {
                    &&& final(self).highest_score == old(self).highest_score
                    &&& new_highest is None
                }
            },
    {
        if self.life <= 0 {
            if controls.restart {
                reset_the_game(
                    &mut self.rng,
                    screen_width,
                    screen_height,
                    &mut self.player_pos,
                    &mut self.invader_positions,
                    &mut self.fire_positions,
                );
                self.score = 0;
                self.life = START_LIFE;
            }
            return None;
        }
        let ghost invaders = self.invader_positions@;
        let ghost fires = self.fire_positions@;
        set_controls(&controls, dt_ms, screen_width, &mut self.player_pos);
        remove_exited_fires(&mut self.fire_positions);
        let ghost visible = self.fire_positions@;
        proof {
            lemma_filter_kept(fires, |p: Point| on_screen(p));
            assert forall|i: int| 0 <= i < visible.len() implies in_field(#[trigger] visible[i])
                && visible[i].y > 0 by {
                assert(fires.contains(visible[i]));
            }
        }
        let (hit_fire, hit_invader) = get_hits(
            &self.fire_positions,
            &self.invader_positions,
            &mut self.score,
        );
        update_fires(&mut self.fire_positions, &hit_fire, dt_ms);
        proof {
            let by_list = |p: Point| fire_kept(p, hit_fire@);
            let by_hit = |f: Point| !hits_any_invader(f, invaders);
            assert forall|i: int| 0 <= i < visible.len() implies by_list(#[trigger] visible[i])
                == by_hit(visible[i]) by {
                assert(visible.contains(visible[i]));
            }
            lemma_filter_agree(visible, by_list, by_hit);
            lemma_filter_kept(visible, by_hit);
        }
        update_invaders(
            &mut self.rng,
            screen_width,
            screen_height,
            dt_ms,
            &mut self.invader_positions,
            &hit_invader,
            &mut self.life,
        );
        proof {
            let by_list = |p: Point| hit_invader@.contains(p);
            assert forall|i: int| 0 <= i < invaders.len() implies by_list(#[trigger] invaders[i])
                == frame_hit(fires)(invaders[i]) by {
                assert(invaders.contains(invaders[i]));
            }
            lemma_fallen_count_agree(
                invaders,
                by_list,
                frame_hit(fires),
                dt_ms as int,
                screen_height as int,
            );
        }
        let ghost moved = self.fire_positions@;
        create_fires(
            &mut self.last_fire_time,
            &mut self.fire_positions,
            self.player_pos,
            now,
        );
        proof {
            assert forall|i: int| 0 <= i < self.fire_positions@.len() implies in_field(
                #[trigger] self.fire_positions@[i],
            ) by {
                if i >= moved.len() {
                    let shots = volley(self.player_pos);
                    assert(self.fire_positions@[i] == shots[i - moved.len()]);
                }
            }
        }
        if self.life <= 0 && self.score > self.highest_score {
            self.highest_score = self.score;
            return Some(self.score);
        }
        None
    }
}

/// Puts the paddle back at its start, brings a fresh first wave and clears
/// the shots.
pub fn reset_the_game(
    rng: &mut StdRng,
    screen_width: u32,
    screen_height: u32,
    player_pos: &mut Point,
    invader_positions: &mut Vec<Point>,
    fire_positions: &mut Vec<Point>,
)
    requires
        screen_width > INVADER_SIZE,
    ensures
        *final(player_pos) == start_position(screen_width as int, screen_height as int),
        fresh_wave(final(invader_positions)@, screen_width as int),
        final(fire_positions)@.len() == 0,
{
    *player_pos = Point {
        x: screen_width as i64 / 2 - PLAYER_WIDTH_HALF,
        y: screen_height as i64 - PLAYER_PADDING,
    };
    *invader_positions = create_invaders(rng, screen_width);
    *fire_positions = Vec::new();
}

} // verus!
