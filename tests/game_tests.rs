use hit_them_all::clock::get_current_time_as_millis;
use hit_them_all::constants::{
    FIRE_PADDING, INVADER_AMOUNT, INVADER_SIZE, PIXEL, PLAYER_PADDING, PLAYER_WIDTH, START_LIFE,
};
use hit_them_all::controls::{set_controls, Controls};
use hit_them_all::fire::create_fires;
use hit_them_all::game::{reset_the_game, GameState};
use hit_them_all::geometry::Point;
use hit_them_all::highscore::highest_score_text;
use hit_them_all::spawn::{create_invaders, get_init_invader_pos};
use hit_them_all::update::{remove_exited_fires, update_fires, update_invaders};
use rand::rngs::StdRng;
use rand::SeedableRng;

const WIDTH: u32 = 800_000;
const HEIGHT: u32 = 600_000;

/// The point `(x, y)` given in whole pixels.
fn px(x: i64, y: i64) -> Point {
    Point::new(x * PIXEL, y * PIXEL)
}

fn no_keys() -> Controls {
    Controls { left: false, right: false, restart: false }
}

fn restart_key() -> Controls {
    Controls { left: false, right: false, restart: true }
}

fn in_respawn_spot(p: Point) -> bool {
    p.x >= 0 && p.x < WIDTH as i64 - INVADER_SIZE && p.y == -INVADER_SIZE
}

fn in_first_wave(p: Point) -> bool {
    p.x >= 0 && p.x < WIDTH as i64 - INVADER_SIZE && p.y >= -1000 * PIXEL && p.y < 0
}

/// A game in play whose invaders stand far above the screen.
fn quiet_game() -> GameState {
    let mut state = GameState::new(WIDTH, HEIGHT, 0, 0, 11);
    state.invader_positions = vec![px(100, -5000); INVADER_AMOUNT];
    state
}

#[test]
fn respawn_position_is_valid() {
    let mut rng = StdRng::seed_from_u64(3);
    for _ in 0..200 {
        let p = get_init_invader_pos(&mut rng, WIDTH);
        assert!(in_respawn_spot(p));
    }
    let mut narrow = StdRng::seed_from_u64(4);
    for _ in 0..20 {
        let p = get_init_invader_pos(&mut narrow, INVADER_SIZE as u32 + 1);
        assert_eq!(p, Point::new(0, -INVADER_SIZE));
    }
}

#[test]
fn respawn_positions_vary() {
    let mut rng = StdRng::seed_from_u64(5);
    let first = get_init_invader_pos(&mut rng, WIDTH);
    let mut differs = false;
    for _ in 0..50 {
        if get_init_invader_pos(&mut rng, WIDTH) != first {
            differs = true;
        }
    }
    assert!(differs);
}

#[test]
fn first_wave_is_full_and_above_screen() {
    let mut rng = StdRng::seed_from_u64(9);
    let wave = create_invaders(&mut rng, WIDTH);
    assert_eq!(wave.len(), INVADER_AMOUNT);
    for p in wave {
        assert!(in_first_wave(p));
    }
}

#[test]
fn fire_twice_within_cooldown_then_after() {
    let player = px(300, 580);
    let mut last: u128 = 1_000;
    let mut fires: Vec<Point> = Vec::new();
    create_fires(&mut last, &mut fires, player, 1_200);
    assert_eq!(fires, vec![px(300, 580), Point::new(300 * PIXEL + PLAYER_WIDTH, 580 * PIXEL)]);
    assert_eq!(last, 1_200);
    create_fires(&mut last, &mut fires, player, 1_200 + FIRE_PADDING);
    assert_eq!(fires.len(), 2);
    assert_eq!(last, 1_200);
    create_fires(&mut last, &mut fires, player, 1_201 + FIRE_PADDING);
    assert_eq!(fires.len(), 4);
    assert_eq!(last, 1_301);
}

#[test]
fn fire_waits_when_clock_goes_back() {
    let mut last: u128 = 5_000;
    let mut fires: Vec<Point> = Vec::new();
    create_fires(&mut last, &mut fires, Point::new(0, 0), 10);
    assert!(fires.is_empty());
    assert_eq!(last, 5_000);
}

#[test]
fn paddle_moves_and_stays_on_screen() {
    let mut p = px(350, 580);
    let right = Controls { left: false, right: true, restart: false };
    set_controls(&right, 100, WIDTH, &mut p);
    assert_eq!(p, px(380, 580));
    let left = Controls { left: true, right: false, restart: false };
    set_controls(&left, 1000, WIDTH, &mut p);
    assert_eq!(p.x, 80 * PIXEL);
    set_controls(&left, 1000, WIDTH, &mut p);
    assert_eq!(p.x, 0);
    set_controls(&right, 10_000, WIDTH, &mut p);
    assert_eq!(p.x, WIDTH as i64 - PLAYER_WIDTH);
    let both = Controls { left: true, right: true, restart: false };
    set_controls(&both, 100, WIDTH, &mut p);
    assert_eq!(p.x, WIDTH as i64 - PLAYER_WIDTH - 30 * PIXEL);
    set_controls(&no_keys(), 100, WIDTH, &mut p);
    assert_eq!(p.x, WIDTH as i64 - PLAYER_WIDTH - 30 * PIXEL);
}

#[test]
fn exited_fires_are_dropped() {
    let mut fires = vec![px(1, 5), px(2, 0), px(3, -4), px(4, 1)];
    remove_exited_fires(&mut fires);
    assert_eq!(fires, vec![px(1, 5), px(4, 1)]);
}

#[test]
fn hit_fires_are_dropped_and_the_rest_rise() {
    let mut fires = vec![px(1, 500), px(2, 400), px(3, 300), px(4, 0)];
    let hit = vec![px(2, 400)];
    update_fires(&mut fires, &hit, 100);
    assert_eq!(fires, vec![px(1, 470), px(3, 270)]);
}

#[test]
fn fallen_invader_costs_one_life() {
    let mut rng = StdRng::seed_from_u64(1);
    let mut invaders = vec![px(100, 595), px(200, 100)];
    let mut life: i32 = 3;
    update_invaders(&mut rng, WIDTH, HEIGHT, 100, &mut invaders, &Vec::new(), &mut life);
    assert_eq!(life, 2);
    assert!(in_respawn_spot(invaders[0]));
    assert_eq!(invaders[1], px(200, 110));
}

#[test]
fn invader_at_bottom_edge_stays() {
    let mut rng = StdRng::seed_from_u64(1);
    let mut invaders = vec![px(100, 590)];
    let mut life: i32 = 1;
    update_invaders(&mut rng, WIDTH, HEIGHT, 100, &mut invaders, &Vec::new(), &mut life);
    assert_eq!(life, 1);
    assert_eq!(invaders[0], px(100, 600));
}

#[test]
fn hit_invader_respawns_then_falls() {
    let mut rng = StdRng::seed_from_u64(2);
    let mut invaders = vec![px(100, 300), px(200, 100)];
    let hit = vec![px(100, 300)];
    let mut life: i32 = 3;
    update_invaders(&mut rng, WIDTH, HEIGHT, 100, &mut invaders, &hit, &mut life);
    assert_eq!(life, 3);
    assert_eq!(invaders[0].y, -INVADER_SIZE + 10 * PIXEL);
    assert!(invaders[0].x >= 0 && invaders[0].x < WIDTH as i64 - INVADER_SIZE);
    assert_eq!(invaders[1], px(200, 110));
}

#[test]
fn new_game_starts_centred() {
    let state = GameState::new(WIDTH, HEIGHT, 77, 12, 1);
    assert_eq!(state.player_pos, Point::new(WIDTH as i64 / 2 - PLAYER_WIDTH / 2, HEIGHT as i64 - PLAYER_PADDING));
    assert_eq!(state.invader_positions.len(), INVADER_AMOUNT);
    assert!(state.invader_positions.iter().all(|p| in_first_wave(*p)));
    assert!(state.fire_positions.is_empty());
    assert_eq!(state.score, 0);
    assert_eq!(state.life, START_LIFE);
    assert_eq!(state.last_fire_time, 77);
    assert_eq!(state.highest_score, 12);
}

#[test]
fn reset_brings_everything_back() {
    let mut rng = StdRng::seed_from_u64(8);
    let mut player = px(3, 4);
    let mut invaders = vec![px(1, 1)];
    let mut fires = vec![px(2, 2), px(3, 3)];
    reset_the_game(&mut rng, WIDTH, HEIGHT, &mut player, &mut invaders, &mut fires);
    assert_eq!(player, px(350, 580));
    assert_eq!(invaders.len(), INVADER_AMOUNT);
    assert!(invaders.iter().all(|p| in_first_wave(*p)));
    assert!(fires.is_empty());
}

#[test]
fn step_after_game_over_changes_nothing() {
    let mut state = quiet_game();
    state.life = 0;
    state.score = 9;
    state.highest_score = 100;
    state.fire_positions = vec![px(105, -4990)];
    let right = Controls { left: false, right: true, restart: false };
    let r = state.update(right, 100, WIDTH, HEIGHT, 10_000);
    assert_eq!(r, None);
    assert_eq!(state.player_pos, px(350, 580));
    assert_eq!(state.invader_positions, vec![px(100, -5000); INVADER_AMOUNT]);
    assert_eq!(state.fire_positions, vec![px(105, -4990)]);
    assert_eq!(state.score, 9);
    assert_eq!(state.life, 0);
    assert_eq!(state.last_fire_time, 0);
    assert_eq!(state.highest_score, 100);
}

#[test]
fn restart_resets_the_game() {
    let mut state = quiet_game();
    state.life = -1;
    state.score = 40;
    state.highest_score = 100;
    state.player_pos = px(10, 580);
    state.fire_positions = vec![px(1, 1)];
    let r = state.update(restart_key(), 16, WIDTH, HEIGHT, 10_000);
    assert_eq!(r, None);
    assert_eq!(state.player_pos, Point::new(WIDTH as i64 / 2 - PLAYER_WIDTH / 2, 580 * PIXEL));
    assert_eq!(state.invader_positions.len(), INVADER_AMOUNT);
    assert!(state.invader_positions.iter().all(|p| in_first_wave(*p)));
    assert!(state.fire_positions.is_empty());
    assert_eq!(state.life, 3);
    assert_eq!(state.score, 0);
    assert_eq!(state.last_fire_time, 0);
}

#[test]
fn step_with_fallen_invader_loses_a_life() {
    let mut state = quiet_game();
    state.invader_positions[2] = px(100, 595);
    let r = state.update(no_keys(), 100, WIDTH, HEIGHT, 50);
    assert_eq!(r, None);
    assert_eq!(state.life, 2);
    assert!(in_respawn_spot(state.invader_positions[2]));
    assert_eq!(state.invader_positions[0], px(100, -4990));
}

#[test]
fn step_scores_a_hit() {
    let mut state = quiet_game();
    state.invader_positions[0] = px(10, 10);
    state.fire_positions = vec![px(15, 5), px(400, 300), px(15, 0)];
    let r = state.update(no_keys(), 100, WIDTH, HEIGHT, 50);
    assert_eq!(r, None);
    assert_eq!(state.score, 1);
    assert_eq!(state.fire_positions, vec![px(400, 270)]);
    assert_eq!(state.invader_positions[0].y, -INVADER_SIZE + 10 * PIXEL);
    assert_eq!(state.invader_positions[1], px(100, -4990));
    assert_eq!(state.life, 3);
}

#[test]
fn step_fires_after_cooldown() {
    let mut state = quiet_game();
    let r = state.update(no_keys(), 0, WIDTH, HEIGHT, 101);
    assert_eq!(r, None);
    assert_eq!(state.fire_positions, vec![px(350, 580), px(450, 580)]);
    assert_eq!(state.last_fire_time, 101);
    state.update(no_keys(), 0, WIDTH, HEIGHT, 150);
    assert_eq!(state.fire_positions.len(), 2);
    state.update(no_keys(), 0, WIDTH, HEIGHT, 202);
    assert_eq!(state.fire_positions.len(), 4);
}

#[test]
fn motion_is_exact_at_short_frames() {
    let mut rng = StdRng::seed_from_u64(1);
    let mut invaders = vec![px(100, 100)];
    let mut life: i32 = 3;
    update_invaders(&mut rng, WIDTH, HEIGHT, 16, &mut invaders, &Vec::new(), &mut life);
    assert_eq!(invaders[0], Point::new(100 * PIXEL, 100 * PIXEL + 1_600));
    update_invaders(&mut rng, WIDTH, HEIGHT, 8, &mut invaders, &Vec::new(), &mut life);
    assert_eq!(invaders[0], Point::new(100 * PIXEL, 100 * PIXEL + 2_400));
    let mut fires = vec![px(5, 500)];
    update_fires(&mut fires, &Vec::new(), 16);
    assert_eq!(fires, vec![Point::new(5 * PIXEL, 500 * PIXEL - 4_800)]);
    let mut p = px(350, 580);
    let right = Controls { left: false, right: true, restart: false };
    set_controls(&right, 16, WIDTH, &mut p);
    assert_eq!(p.x, 350 * PIXEL + 4_800);
}

#[test]
fn sixty_frames_of_falling_cover_a_second() {
    let mut rng = StdRng::seed_from_u64(1);
    let mut invaders = vec![px(100, 0)];
    let mut life: i32 = 3;
    for frame in 0..60 {
        let dt_ms = if frame % 3 == 0 { 16 } else { 17 };
        update_invaders(&mut rng, WIDTH, HEIGHT, dt_ms, &mut invaders, &Vec::new(), &mut life);
    }
    assert_eq!(invaders[0], px(100, 100));
}

#[test]
fn game_over_frame_leaves_the_high_score() {
    let mut state = quiet_game();
    state.life = 0;
    state.score = 51;
    state.highest_score = 50;
    let r = state.update(no_keys(), 16, WIDTH, HEIGHT, 50);
    assert_eq!(r, None);
    assert_eq!(state.highest_score, 50);
    assert_eq!(state.score, 51);
    assert_eq!(state.life, 0);
}

#[test]
fn restart_frame_leaves_the_high_score() {
    let mut state = quiet_game();
    state.life = 0;
    state.score = 51;
    state.highest_score = 50;
    let r = state.update(restart_key(), 16, WIDTH, HEIGHT, 50);
    assert_eq!(r, None);
    assert_eq!(state.highest_score, 50);
    assert_eq!(state.score, 0);
    assert_eq!(state.life, START_LIFE);
}

#[test]
fn high_score_is_recorded_once_per_game() {
    let mut state = quiet_game();
    state.life = 1;
    state.score = 51;
    state.highest_score = 50;
    state.invader_positions[0] = px(100, 595);
    let r = state.update(no_keys(), 100, WIDTH, HEIGHT, 50);
    assert_eq!(r, Some(51));
    let again = state.update(no_keys(), 16, WIDTH, HEIGHT, 60);
    assert_eq!(again, None);
    assert_eq!(state.highest_score, 51);
}

#[test]
fn equal_score_is_not_a_new_high_score() {
    let mut state = quiet_game();
    state.life = 1;
    state.score = 50;
    state.highest_score = 50;
    state.invader_positions[0] = px(100, 595);
    let r = state.update(no_keys(), 100, WIDTH, HEIGHT, 50);
    assert_eq!(state.life, 0);
    assert_eq!(r, None);
    assert_eq!(state.highest_score, 50);
}

#[test]
fn greater_score_becomes_the_high_score() {
    let mut state = quiet_game();
    state.life = 1;
    state.score = 51;
    state.highest_score = 50;
    state.invader_positions[0] = px(100, 595);
    let r = state.update(no_keys(), 100, WIDTH, HEIGHT, 50);
    assert_eq!(state.life, 0);
    assert_eq!(r, Some(51));
    assert_eq!(state.highest_score, 51);
    assert_eq!(highest_score_text(r.unwrap()), b"51".to_vec());
}

#[test]
fn high_score_waits_for_game_over() {
    let mut state = quiet_game();
    state.score = 70;
    state.highest_score = 50;
    let r = state.update(no_keys(), 100, WIDTH, HEIGHT, 50);
    assert_eq!(r, None);
    assert_eq!(state.highest_score, 50);
}

#[test]
fn clock_reads_a_recent_time() {
    let now = get_current_time_as_millis();
    assert!(now > 1_600_000_000_000);
}
