use vstd::prelude::*;
use crate::constants::{FIRE_WIDTH, INVADER_SIZE};
use crate::geometry::{hit_at, is_hit, Point};

verus! {

/// Whether the shot at `fire` hits the invader at `invader`, with the game's
/// sizes.
pub open spec fn point_hit(invader: Point, fire: Point) -> bool {
    hit_at(
        invader.x as int,
        invader.y as int,
        INVADER_SIZE as int,
        INVADER_SIZE as int,
        fire.x as int,
        fire.y as int,
        FIRE_WIDTH as int,
    )
}

/// The pairs `(fire, invader)` that collide, for one shot against each
/// invader in order.
pub open spec fn row_hits(fire: Point, invaders: Seq<Point>) -> Seq<(Point, Point)>
    decreases invaders.len(),
{
    if invaders.len() == 0 {
        Seq::empty()
    } else {
        let rest = row_hits(fire, invaders.drop_last());
        if point_hit(invaders.last(), fire) {
            rest.push((fire, invaders.last()))
        } else {
            rest
        }
    }
}

/// All colliding pairs `(fire, invader)`, shot by shot, and for each shot
/// invader by invader.
pub open spec fn hit_pairs(fires: Seq<Point>, invaders: Seq<Point>) -> Seq<(Point, Point)>
    decreases fires.len(),
{
    if fires.len() == 0 {
        Seq::empty()
    } else {
        hit_pairs(fires.drop_last(), invaders) + row_hits(fires.last(), invaders)
    }
}

/// The shots of a sequence of pairs.
pub open spec fn pair_fires(pairs: Seq<(Point, Point)>) -> Seq<Point> {
    pairs.map_values(|q: (Point, Point)| q.0)
}

/// The invaders of a sequence of pairs.
pub open spec fn pair_invaders(pairs: Seq<(Point, Point)>) -> Seq<Point> {
    pairs.map_values(|q: (Point, Point)| q.1)
}

/// Whether the shot at `fire` hits any of `invaders`.
pub open spec fn hits_any_invader(fire: Point, invaders: Seq<Point>) -> bool {
    exists|k: int| 0 <= k < invaders.len() && point_hit(#[trigger] invaders[k], fire)
}

/// Whether the invader at `invader` is hit by any of `fires`.
pub open spec fn hit_by_any_fire(invader: Point, fires: Seq<Point>) -> bool {
    exists|k: int| 0 <= k < fires.len() && point_hit(invader, #[trigger] fires[k])
}

/// `score` raised by `n`, stopping at `i32::MAX`.
pub open spec fn add_capped(score: int, n: int) -> int {
    if score + n > i32::MAX {
        i32::MAX as int
    } else {
        score + n
    }
}

proof fn lemma_row_hits_members(fire: Point, invaders: Seq<Point>)
    ensures
        forall|q: (Point, Point)|
            #[trigger] row_hits(fire, invaders).contains(q) <==> (q.0 == fire && exists|k: int|
                0 <= k < invaders.len() && invaders[k] == q.1 && point_hit(invaders[k], fire)),
    decreases invaders.len(),
{
    if invaders.len() > 0 {
        let init = invaders.drop_last();
        lemma_row_hits_members(fire, init);
        let rest = row_hits(fire, init);
        assert forall|q: (Point, Point)|
            #[trigger] row_hits(fire, invaders).contains(q) <==> (q.0 == fire && exists|k: int|
                0 <= k < invaders.len() && invaders[k] == q.1 && point_hit(invaders[k], fire)) by {
            if row_hits(fire, invaders).contains(q) {
                if rest.contains(q) {
                    let k = choose|k: int|
                        0 <= k < init.len() && init[k] == q.1 && point_hit(init[k], fire);
                    assert(invaders[k] == init[k]);
                } else {
                    let j = choose|j: int|
                        0 <= j < row_hits(fire, invaders).len() && row_hits(fire, invaders)[j] == q;
                    assert(point_hit(invaders.last(), fire));
                    assert(j == rest.len());
                    assert(invaders[invaders.len() - 1] == q.1);
                }
            }
            if q.0 == fire && exists|k: int|
                0 <= k < invaders.len() && invaders[k] == q.1 && point_hit(invaders[k], fire) {
                let k = choose|k: int|
                    0 <= k < invaders.len() && invaders[k] == q.1 && point_hit(invaders[k], fire);
                if k < init.len() {
                    assert(init[k] == invaders[k]);
                    assert(rest.contains(q));
                    let j = choose|j: int| 0 <= j < rest.len() && rest[j] == q;
                    if point_hit(invaders.last(), fire) {
                        assert(row_hits(fire, invaders)[j] == q);
                    }
                } else {
                    assert(row_hits(fire, invaders) == rest.push((fire, invaders.last())));
                    assert(row_hits(fire, invaders)[rest.len() as int] == q);
                }
            }
        }
    }
}

/// A pair collides exactly when its shot is one of `fires`, its invader one of
/// `invaders`, and the two overlap.
pub proof fn lemma_hit_pairs_members(fires: Seq<Point>, invaders: Seq<Point>)
    ensures
        forall|q: (Point, Point)|
            #[trigger] hit_pairs(fires, invaders).contains(q) <==> (fires.contains(q.0)
                && invaders.contains(q.1) && point_hit(q.1, q.0)),
    decreases fires.len(),
{
    if fires.len() > 0 {
        let init = fires.drop_last();
        lemma_hit_pairs_members(init, invaders);
        lemma_row_hits_members(fires.last(), invaders);
        let a = hit_pairs(init, invaders);
        let b = row_hits(fires.last(), invaders);
        assert forall|q: (Point, Point)|
            #[trigger] hit_pairs(fires, invaders).contains(q) <==> (fires.contains(q.0)
                && invaders.contains(q.1) && point_hit(q.1, q.0)) by {
            let all = hit_pairs(fires, invaders);
            assert(all == a + b);
            if all.contains(q) {
                let j = choose|j: int| 0 <= j < all.len() && all[j] == q;
                if j < a.len() {
                    assert(a[j] == q);
                    assert(a.contains(q));
                    let i = choose|i: int| 0 <= i < init.len() && init[i] == q.0;
                    assert(fires[i] == q.0);
                } else {
                    assert(b[j - a.len()] == q);
                    assert(b.contains(q));
                    assert(fires[fires.len() - 1] == q.0);
                }
            }
            if fires.contains(q.0) && invaders.contains(q.1) && point_hit(q.1, q.0) {
                let i = choose|i: int| 0 <= i < fires.len() && fires[i] == q.0;
                let k = choose|k: int| 0 <= k < invaders.len() && invaders[k] == q.1;
                if i < init.len() {
                    assert(init[i] == q.0);
                    assert(init.contains(q.0));
                    assert(a.contains(q));
                    let j = choose|j: int| 0 <= j < a.len() && a[j] == q;
                    assert(all[j] == q);
                } else {
                    assert(point_hit(invaders[k], fires.last()));
                    assert(b.contains(q));
                    let j = choose|j: int| 0 <= j < b.len() && b[j] == q;
                    assert(all[a.len() + j] == q);
                }
            }
        }
    }
}

/// What `get_hits` reports about which shots and invaders took part in a hit.
pub proof fn lemma_hit_members(fires: Seq<Point>, invaders: Seq<Point>)
    ensures
        forall|f: Point|
            #[trigger] pair_fires(hit_pairs(fires, invaders)).contains(f) <==> (fires.contains(f)
                && hits_any_invader(f, invaders)),
        forall|e: Point|
            #[trigger] pair_invaders(hit_pairs(fires, invaders)).contains(e) <==> (
            invaders.contains(e) && hit_by_any_fire(e, fires)),
{
    lemma_hit_pairs_members(fires, invaders);
    let pairs = hit_pairs(fires, invaders);
    assert forall|f: Point|
        #[trigger] pair_fires(pairs).contains(f) <==> (fires.contains(f) && hits_any_invader(
            f,
            invaders,
        )) by {
        if pair_fires(pairs).contains(f) {
            let j = choose|j: int| 0 <= j < pair_fires(pairs).len() && pair_fires(pairs)[j] == f;
            assert(pairs.contains(pairs[j]));
            let k = choose|k: int| 0 <= k < invaders.len() && invaders[k] == pairs[j].1;
            assert(point_hit(invaders[k], f));
        }
        if fires.contains(f) && hits_any_invader(f, invaders) {
            let k = choose|k: int| 0 <= k < invaders.len() && point_hit(invaders[k], f);
            let q = (f, invaders[k]);
            assert(invaders.contains(q.1));
            assert(pairs.contains(q));
            let j = choose|j: int| 0 <= j < pairs.len() && pairs[j] == q;
            assert(pair_fires(pairs)[j] == f);
        }
    }
    assert forall|e: Point|
        #[trigger] pair_invaders(pairs).contains(e) <==> (invaders.contains(e) && hit_by_any_fire(
            e,
            fires,
        )) by {
        if pair_invaders(pairs).contains(e) {
            let j = choose|j: int|
                0 <= j < pair_invaders(pairs).len() && pair_invaders(pairs)[j] == e;
            assert(pairs.contains(pairs[j]));
            let k = choose|k: int| 0 <= k < fires.len() && fires[k] == pairs[j].0;
            assert(point_hit(e, fires[k]));
        }
        if invaders.contains(e) && hit_by_any_fire(e, fires) {
            let k = choose|k: int| 0 <= k < fires.len() && point_hit(e, fires[k]);
            let q = (fires[k], e);
            assert(fires.contains(q.0));
            assert(pairs.contains(q));
            let j = choose|j: int| 0 <= j < pairs.len() && pairs[j] == q;
            assert(pair_invaders(pairs)[j] == e);
        }
    }
}

/// Tests every shot against every invader. Returns the shot and the invader
/// of each colliding pair, in the order of `hit_pairs`, and raises `score` by
/// one for each pair (stopping at `i32::MAX`).
pub fn get_hits(
    fire_positions: &Vec<Point>,
    invader_positions: &Vec<Point>,
    score: &mut i32,
) -> (hits: (Vec<Point>, Vec<Point>))
    requires
        *old(score) >= 0,
    ensures
        hits.0@ == pair_fires(hit_pairs(fire_positions@, invader_positions@)),
        hits.1@ == pair_invaders(hit_pairs(fire_positions@, invader_positions@)),
        *final(score) == add_capped(
            *old(score) as int,
            hit_pairs(fire_positions@, invader_positions@).len() as int,
        ),
        forall|f: Point|
            #[trigger] hits.0@.contains(f) <==> (fire_positions@.contains(f) && hits_any_invader(
                f,
                invader_positions@,
            )),
        forall|e: Point|
            #[trigger] hits.1@.contains(e) <==> (invader_positions@.contains(e) && hit_by_any_fire(
                e,
                fire_positions@,
            )),
{
    let ghost start = *score;
    let ghost fires = fire_positions@;
    let ghost invaders = invader_positions@;
    let mut hit_fire: Vec<Point> = Vec::new();
    let mut hit_invader: Vec<Point> = Vec::new();
    let n = fire_positions.len();
    let m = invader_positions.len();
    for fire_index in 0..n
        invariant
            n == fires.len(),
            m == invaders.len(),
            fires == fire_positions@,
            invaders == invader_positions@,
            start >= 0,
            hit_fire@ == pair_fires(hit_pairs(fires.subrange(0, fire_index as int), invaders)),
            hit_invader@ == pair_invaders(hit_pairs(fires.subrange(0, fire_index as int), invaders)),
            *score == add_capped(
                start as int,
                hit_pairs(fires.subrange(0, fire_index as int), invaders).len() as int,
            ),
    {
        let fire = fire_positions[fire_index];
        let ghost done = hit_pairs(fires.subrange(0, fire_index as int), invaders);
        for invader_index in 0..m
            invariant
                n == fires.len(),
                m == invaders.len(),
                fires == fire_positions@,
                invaders == invader_positions@,
                start >= 0,
                fire == fires[fire_index as int],
                fire_index < n,
                done == hit_pairs(fires.subrange(0, fire_index as int), invaders),
                hit_fire@ == pair_fires(
                    done + row_hits(fire, invaders.subrange(0, invader_index as int)),
                ),
                hit_invader@ == pair_invaders(
                    done + row_hits(fire, invaders.subrange(0, invader_index as int)),
                ),
                *score == add_capped(
                    start as int,
                    (done + row_hits(fire, invaders.subrange(0, invader_index as int))).len() as int,
                ),
        {
            let invader = invader_positions[invader_index];
            let ghost before = done + row_hits(fire, invaders.subrange(0, invader_index as int));
            proof {
                let sub = invaders.subrange(0, invader_index + 1);
                assert(sub.drop_last() =~= invaders.subrange(0, invader_index as int));
                assert(sub.last() == invader);
            }
            if is_hit(
                invader.x,
                invader.y,
                INVADER_SIZE,
                INVADER_SIZE,
                fire.x,
                fire.y,
                FIRE_WIDTH,
            ) {
                hit_fire.push(fire);
                hit_invader.push(invader);
                if *score < i32::MAX {
                    *score = *score + 1;
                }
                proof {
                    let after = done + row_hits(fire, invaders.subrange(0, invader_index + 1));
                    assert(after =~= before.push((fire, invader)));
                    assert(pair_fires(after) =~= pair_fires(before).push(fire));
                    assert(pair_invaders(after) =~= pair_invaders(before).push(invader));
                }
            }
        }
        proof {
            let sub = fires.subrange(0, fire_index + 1);
            assert(sub.drop_last() =~= fires.subrange(0, fire_index as int));
            assert(sub.last() == fire);
            assert(invaders.subrange(0, m as int) =~= invaders);
        }
    }
    proof {
        assert(fires.subrange(0, n as int) =~= fires);
        lemma_hit_members(fires, invaders);
    }
    (hit_fire, hit_invader)
}

} // verus!
