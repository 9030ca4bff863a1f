use vstd::prelude::*;
use rand::rngs::StdRng;
use crate::constants::{FIRE_SPEED, INVADER_SIZE, INVADER_SPEED};
use crate::geometry::{in_field, Point};
use crate::spawn::{get_init_invader_pos, respawn_spot, spawn_column};

verus! {

/// How far a shot rises in `dt_ms` milliseconds, in thousandths of a pixel.
pub open spec fn fire_step(dt_ms: int) -> int {
    FIRE_SPEED * dt_ms
}

/// How far an invader falls in `dt_ms` milliseconds, in thousandths of a pixel.
pub open spec fn invader_step(dt_ms: int) -> int {
    INVADER_SPEED * dt_ms
}

/// Whether a shot is still on the screen: below the top edge.
pub open spec fn on_screen(p: Point) -> bool {
    p.y > 0
}

/// The shots of `fires` that are still on the screen, in order.
pub open spec fn visible_fires(fires: Seq<Point>) -> Seq<Point> {
    fires.filter(|p: Point| on_screen(p))
}

/// Each shot of `fires` risen by `fire_step(dt_ms)`.
pub open spec fn advance_fires(fires: Seq<Point>, dt_ms: int) -> Seq<Point> {
    fires.map_values(|p: Point| Point { x: p.x, y: (p.y - fire_step(dt_ms)) as i64 })
}

/// The height an invader falls from this frame: a hit invader starts over
/// from its respawn height.
pub open spec fn start_y(p: Point, was_hit: bool) -> int {
    if was_hit {
        -INVADER_SIZE
    } else {
        p.y as int
    }
}

/// Whether the invader at `p` passes the bottom edge this frame.
pub open spec fn falls_out(p: Point, was_hit: bool, dt_ms: int, screen_height: int) -> bool {
    start_y(p, was_hit) + invader_step(dt_ms) > screen_height
}

/// How the invader at `old` may stand at `new` after one frame: one that
/// falls out comes back at a respawn spot; a hit one comes back in a random
/// column and falls from the respawn height; any other one falls straight
/// down.
pub open spec fn invader_moved(
    old: Point,
    was_hit: bool,
    new: Point,
    dt_ms: int,
    screen_width: int,
    screen_height: int,
) -> bool {
    if falls_out(old, was_hit, dt_ms, screen_height) {
        respawn_spot(new, screen_width)
    } else if was_hit {
        &&& spawn_column(new.x as int, screen_width)
        &&& new.y == -INVADER_SIZE + invader_step(dt_ms)
    } else {
        new == Point { x: old.x, y: (old.y + invader_step(dt_ms)) as i64 }
    }
}

/// How many of `invaders` fall out this frame, where `was_hit` tells which
/// were hit.
pub open spec fn fallen_count(
    invaders: Seq<Point>,
    was_hit: spec_fn(Point) -> bool,
    dt_ms: int,
    screen_height: int,
) -> nat
    decreases invaders.len(),
{
    if invaders.len() == 0 {
        0
    } else {
        fallen_count(invaders.drop_last(), was_hit, dt_ms, screen_height) + if falls_out(
            invaders.last(),
            was_hit(invaders.last()),
            dt_ms,
            screen_height,
        ) {
            1nat
        } else {
            0nat
        }
    }
}

/// Two ways of telling which invaders were hit that agree on `invaders` give
/// the same count.
pub proof fn lemma_fallen_count_agree(
    invaders: Seq<Point>,
    a: spec_fn(Point) -> bool,
    b: spec_fn(Point) -> bool,
    dt_ms: int,
    screen_height: int,
)
    requires
        forall|i: int| 0 <= i < invaders.len() ==> a(#[trigger] invaders[i]) == b(invaders[i]),
    ensures
        fallen_count(invaders, a, dt_ms, screen_height) == fallen_count(
            invaders,
            b,
            dt_ms,
            screen_height,
        ),
    decreases invaders.len(),
{
    if invaders.len() > 0 {
        let init = invaders.drop_last();
        assert forall|i: int| 0 <= i < init.len() implies a(#[trigger] init[i]) == b(init[i]) by {
            assert(init[i] == invaders[i]);
        }
        assert(a(invaders[invaders.len() - 1]) == b(invaders[invaders.len() - 1]));
        lemma_fallen_count_agree(init, a, b, dt_ms, screen_height);
    }
}

/// When exactly one invader falls out, exactly one life is lost.
pub proof fn lemma_one_fallen_costs_one_life(
    invaders: Seq<Point>,
    was_hit: spec_fn(Point) -> bool,
    dt_ms: int,
    screen_height: int,
    fallen: int,
)
    requires
        0 <= fallen < invaders.len(),
        forall|i: int|
            0 <= i < invaders.len() ==> (falls_out(
                #[trigger] invaders[i],
                was_hit(invaders[i]),
                dt_ms,
                screen_height,
            ) <==> i == fallen),
    ensures
        fallen_count(invaders, was_hit, dt_ms, screen_height) == 1,
    decreases invaders.len(),
{
    let init = invaders.drop_last();
    let last = invaders.len() - 1;
    assert(invaders[last] == invaders.last());
    if fallen == last {
        lemma_none_fallen(init, was_hit, dt_ms, screen_height);
    } else {
        assert forall|i: int|
            0 <= i < init.len() implies (falls_out(
                #[trigger] init[i],
                was_hit(init[i]),
                dt_ms,
                screen_height,
            ) <==> i == fallen) by {
            assert(init[i] == invaders[i]);
        }
        lemma_one_fallen_costs_one_life(init, was_hit, dt_ms, screen_height, fallen);
    }
}

proof fn lemma_none_fallen(
    invaders: Seq<Point>,
    was_hit: spec_fn(Point) -> bool,
    dt_ms: int,
    screen_height: int,
)
    requires
        forall|i: int|
            0 <= i < invaders.len() ==> !falls_out(
                #[trigger] invaders[i],
                was_hit(invaders[i]),
                dt_ms,
                screen_height,
            ),
    ensures
        fallen_count(invaders, was_hit, dt_ms, screen_height) == 0,
    decreases invaders.len(),
{
    if invaders.len() > 0 {
        let init = invaders.drop_last();
        assert forall|i: int|
            0 <= i < init.len() implies !falls_out(
                #[trigger] init[i],
                was_hit(init[i]),
                dt_ms,
                screen_height,
            ) by {
            assert(init[i] == invaders[i]);
        }
        assert(invaders[invaders.len() - 1] == invaders.last());
        lemma_none_fallen(init, was_hit, dt_ms, screen_height);
    }
}

/// Filtering with two tests that agree on every element of `s` gives the same
/// result.
pub proof fn lemma_filter_agree(s: Seq<Point>, a: spec_fn(Point) -> bool, b: spec_fn(Point) -> bool)
    requires
        forall|i: int| 0 <= i < s.len() ==> a(#[trigger] s[i]) == b(s[i]),
    ensures
        s.filter(a) == s.filter(b),
    decreases s.len(),
{
    reveal(Seq::filter);
    if s.len() > 0 {
        let init = s.drop_last();
        assert forall|i: int| 0 <= i < init.len() implies a(#[trigger] init[i]) == b(init[i]) by {
            assert(init[i] == s[i]);
        }
        assert(a(s[s.len() - 1]) == b(s[s.len() - 1]));
        lemma_filter_agree(init, a, b);
    }
}

/// Every element that a filter keeps is an element of the sequence filtered,
/// and passes the test.
pub proof fn lemma_filter_kept(s: Seq<Point>, keep: spec_fn(Point) -> bool)
    ensures
        forall|i: int|
            0 <= i < s.filter(keep).len() ==> s.contains(#[trigger] s.filter(keep)[i]) && keep(
                s.filter(keep)[i],
            ),
    decreases s.len(),
{
    reveal(Seq::filter);
    if s.len() > 0 {
        let init = s.drop_last();
        lemma_filter_kept(init, keep);
        let out = s.filter(keep);
        assert forall|i: int| 0 <= i < out.len() implies s.contains(#[trigger] out[i]) && keep(
            out[i],
        ) by {
            if i < init.filter(keep).len() {
                assert(out[i] == init.filter(keep)[i]);
                let j = choose|j: int| 0 <= j < init.len() && init[j] == out[i];
                assert(s[j] == init[j]);
            } else {
                assert(out[i] == s[s.len() - 1]);
            }
        }
    }
}

/// Whether `points` holds `p`.
pub fn contains_point(points: &Vec<Point>, p: Point) -> (r: bool)
    ensures
        r == points@.contains(p),
{
    let n = points.len();
    for i in 0..n
        invariant
            n == points@.len(),
            forall|k: int| 0 <= k < i ==> points@[k] != p,
    {
        if points[i] == p {
            return true;
        }
    }
    false
}

/// Drops the shots that have left the screen through the top.
pub fn remove_exited_fires(fire_positions: &mut Vec<Point>)
    ensures
        final(fire_positions)@ == visible_fires(old(fire_positions)@),
{
    let ghost fires = fire_positions@;
    let mut kept: Vec<Point> = Vec::new();
    let n = fire_positions.len();
    for i in 0..n
        invariant
            n == fires.len(),
            fires == fire_positions@,
            kept@ == visible_fires(fires.subrange(0, i as int)),
    {
        let fire = fire_positions[i];
        proof {
            let sub = fires.subrange(0, i + 1);
            assert(sub.drop_last() =~= fires.subrange(0, i as int));
            assert(sub.last() == fire);
            reveal(Seq::filter);
        }
        if fire.y > 0 {
            kept.push(fire);
        }
    }
    proof {
        assert(fires.subrange(0, n as int) =~= fires);
    }
    *fire_positions = kept;
}

/// Whether a shot is kept after a frame: it is still on the screen and is not
/// listed in `hit_fire`.
pub open spec fn fire_kept(p: Point, hit_fire: Seq<Point>) -> bool {
    on_screen(p) && !hit_fire.contains(p)
}

/// Drops the shots that have left the screen through the top and those
/// listed in `hit_fire`, and moves the others up by `fire_step(dt_ms)`.
pub fn update_fires(fire_positions: &mut Vec<Point>, hit_fire: &Vec<Point>, dt_ms: u32)
    requires
        forall|i: int| 0 <= i < old(fire_positions)@.len() ==> in_field(#[trigger] old(fire_positions)@[i]),
    ensures
        final(fire_positions)@ == advance_fires(
            old(fire_positions)@.filter(|p: Point| fire_kept(p, hit_fire@)),
            dt_ms as int,
        ),
{
    let ghost fires = fire_positions@;
    let ghost keep = |p: Point| fire_kept(p, hit_fire@);
    let step: i64 = FIRE_SPEED * dt_ms as i64;
    let mut kept: Vec<Point> = Vec::new();
    let n = fire_positions.len();
    for i in 0..n
        invariant
            n == fires.len(),
            fires == fire_positions@,
            forall|k: int| 0 <= k < fires.len() ==> in_field(#[trigger] fires[k]),
            step == fire_step(dt_ms as int),
            0 <= step <= 1_300_000_000_000,
            keep == (|p: Point| fire_kept(p, hit_fire@)),
            kept@ == advance_fires(fires.subrange(0, i as int).filter(keep), dt_ms as int),
    {
        let fire = fire_positions[i];
        proof {
            let sub = fires.subrange(0, i + 1);
            assert(sub.drop_last() =~= fires.subrange(0, i as int));
            assert(sub.last() == fire);
            reveal(Seq::filter);
            assert(in_field(fires[i as int]));
        }
        if fire.y > 0 && !contains_point(hit_fire, fire) {
            let moved = Point { x: fire.x, y: fire.y - step };
            kept.push(moved);
            proof {
                let before = fires.subrange(0, i as int).filter(keep);
                assert(advance_fires(before.push(fire), dt_ms as int) =~= advance_fires(
                    before,
                    dt_ms as int,
                ).push(moved));
            }
        }
    }
    proof {
        assert(fires.subrange(0, n as int) =~= fires);
    }
    *fire_positions = kept;
}

/// Moves every invader down by `invader_step(dt_ms)`. An invader listed in
/// `hit_invader` first comes back at a respawn spot; one that passes the
/// bottom edge comes back at a respawn spot and costs a life.
pub fn update_invaders(
    rng: &mut StdRng,
    screen_width: u32,
    screen_height: u32,
    dt_ms: u32,
    invader_positions: &mut Vec<Point>,
    hit_invader: &Vec<Point>,
    life: &mut i32,
)
    requires
        screen_width > INVADER_SIZE,
        *old(life) - old(invader_positions)@.len() >= i32::MIN,
        forall|i: int|
            0 <= i < old(invader_positions)@.len() ==> in_field(#[trigger] old(invader_positions)@[i]),
    ensures
        final(invader_positions)@.len() == old(invader_positions)@.len(),
        forall|i: int|
            0 <= i < old(invader_positions)@.len() ==> invader_moved(
                #[trigger] old(invader_positions)@[i],
                hit_invader@.contains(old(invader_positions)@[i]),
                final(invader_positions)@[i],
                dt_ms as int,
                screen_width as int,
                screen_height as int,
            ),
        forall|i: int|
            0 <= i < final(invader_positions)@.len() ==> in_field(#[trigger] final(invader_positions)@[i]),
        *final(life) == *old(life) - fallen_count(
            old(invader_positions)@,
            |p: Point| hit_invader@.contains(p),
            dt_ms as int,
            screen_height as int,
        ),
{
    let ghost olds = invader_positions@;
    let ghost start_life = *life;
    let ghost was_hit = |p: Point| hit_invader@.contains(p);
    let step: i64 = INVADER_SPEED * dt_ms as i64;
    let n = invader_positions.len();
    for i in 0..n
        invariant
            screen_width > INVADER_SIZE,
            n == olds.len(),
            invader_positions@.len() == n,
            step == invader_step(dt_ms as int),
            0 <= step <= 430_000_000_000,
            forall|k: int| 0 <= k < n ==> in_field(#[trigger] olds[k]),
            forall|k: int| i <= k < n ==> invader_positions@[k] == olds[k],
            forall|k: int|
                0 <= k < i ==> invader_moved(
                    #[trigger] olds[k],
                    hit_invader@.contains(olds[k]),
                    invader_positions@[k],
                    dt_ms as int,
                    screen_width as int,
                    screen_height as int,
                ),
            forall|k: int| 0 <= k < i ==> in_field(#[trigger] invader_positions@[k]),
            start_life - n >= i32::MIN,
            was_hit == (|p: Point| hit_invader@.contains(p)),
            *life == start_life - fallen_count(
                olds.subrange(0, i as int),
                was_hit,
                dt_ms as int,
                screen_height as int,
            ),
            fallen_count(olds.subrange(0, i as int), was_hit, dt_ms as int, screen_height as int)
                <= i,
    {
        let old_pos = invader_positions[i];
        assert(old_pos == olds[i as int] && in_field(olds[i as int]));
        let hit = contains_point(hit_invader, old_pos);
        let mut pos = old_pos;
        if hit {
            pos = get_init_invader_pos(rng, screen_width);
        }
        pos.y = pos.y + step;
        let fell = pos.y > screen_height as i64;
        if fell {
            pos = get_init_invader_pos(rng, screen_width);
            *life = *life - 1;
        }
        invader_positions.set(i, pos);
        proof {
            let sub = olds.subrange(0, i + 1);
            assert(sub.drop_last() =~= olds.subrange(0, i as int));
            assert(sub.last() == olds[i as int]);
            assert(fell == falls_out(olds[i as int], hit, dt_ms as int, screen_height as int));
        }
    }
    proof {
        assert(olds.subrange(0, n as int) =~= olds);
    }
}

} // verus!
