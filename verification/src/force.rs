//! The force model: an agent steers away from neighbours inside its comfort radius.

use vstd::prelude::*;
use crate::boid::{all_wf, in_plane, lemma_steered_wf, states, Boid, BoidState};
use crate::fixed::{lemma_mul_fixed_bound, mul_fixed_spec, SCALE};
use crate::vec2::{lemma_unit_bounds, Vec2};

verus! {

/// The weight of one neighbour's push: a twentieth of a unit.
pub const STEER_WEIGHT: i64 = 50_000;

/// The unit vector that points from `other` toward `pos`, away from the neighbour; none
/// where the two coincide.
pub open spec fn away_from(pos: Vec2, other: Vec2) -> Option<Vec2> {
    match (Vec2 { x: (other.x - pos.x) as i64, y: (other.y - pos.y) as i64 }).normalized() {
        Some(toward) => Some(Vec2 { x: (-toward.x) as i64, y: (-toward.y) as i64 }),
        None => None,
    }
}

/// The agent after one neighbour at `other` has had its say: inside the comfort radius the
/// agent is steered away from it, with `STEER_WEIGHT`; further off, or where the two
/// coincide, nothing changes.
pub open spec fn pushed_away(state: BoidState, other: Vec2) -> BoidState {
    if state.pos.within_spec(other, state.comfort_zone as int) {
        match away_from(state.pos, other) {
            Some(direction) => state.steered(direction, STEER_WEIGHT as int),
            None => state,
        }
    } else {
        state
    }
}

/// The agent after the neighbours in `row` have had their say, one after the other in the
/// row's order. `flock` holds every agent; a neighbour is looked up there by its index.
pub open spec fn repelled(state: BoidState, flock: Seq<BoidState>, row: Seq<i32>) -> BoidState
    decreases row.len(),
{
    if row.len() == 0 {
        state
    } else {
        pushed_away(repelled(state, flock, row.drop_last()), flock[row.last() as int].pos)
    }
}

/// Every entry of every row names an agent of a flock of `count`.
pub open spec fn rows_in_range(rows: Seq<Seq<i32>>, count: int) -> bool {
    forall|i: int, k: int|
        0 <= i < rows.len() && 0 <= k < rows[i].len() ==> 0 <= #[trigger] rows[i][k] < count
}

/// The rows of a proximity matrix.
pub open spec fn rows(matrix: Seq<Vec<i32>>) -> Seq<Seq<i32>> {
    matrix.map_values(|r: Vec<i32>| r@)
}

/// A push adds nothing to the heading on the way to the neighbour: the blended heading,
/// before it is brought back to unit length, points no more along `toward` than the heading
/// did.
pub proof fn lemma_blend_not_toward(state: BoidState, toward: Vec2, weight: int)
    requires
        state.wf(),
        toward.is_unit(),
        0 <= weight <= SCALE,
    ensures
        ({
            let away = Vec2 { x: (-toward.x) as i64, y: (-toward.y) as i64 };
            let blend = state.blended(away, weight);
            blend.x * toward.x + blend.y * toward.y <= state.dir.x * toward.x + state.dir.y * toward.y
        }),
{
    let away = Vec2 { x: (-toward.x) as i64, y: (-toward.y) as i64 };
    let blend = state.blended(away, weight);
    lemma_unit_bounds(state.dir);
    lemma_unit_bounds(toward);
    lemma_mul_fixed_bound(away.x as int, weight, 2, SCALE as int);
    lemma_mul_fixed_bound(away.y as int, weight, 2, SCALE as int);
    let sx = mul_fixed_spec(away.x as int, weight);
    let sy = mul_fixed_spec(away.y as int, weight);
    lemma_opposes(toward.x as int, weight);
    lemma_opposes(toward.y as int, weight);
    assert(blend.x * toward.x == state.dir.x * toward.x + sx * toward.x) by (nonlinear_arith)
        requires
            blend.x == state.dir.x + sx,
    ;
    assert(blend.y * toward.y == state.dir.y * toward.y + sy * toward.y) by (nonlinear_arith)
        requires
            blend.y == state.dir.y + sy,
    ;
}

/// A coordinate's opposite, scaled by a weight that is not negative, times the coordinate is
/// never positive.
proof fn lemma_opposes(t: int, weight: int)
    requires
        weight >= 0,
    ensures
        mul_fixed_spec(-t, weight) * t <= 0,
{
    let p = (-t) * weight;
    let s = mul_fixed_spec(-t, weight);
    if t >= 0 {
        assert(p <= 0) by (nonlinear_arith)
            requires
                p == (-t) * weight,
                t >= 0,
                weight >= 0,
        ;
        assert(s <= 0);
        assert(s * t <= 0) by (nonlinear_arith)
            requires
                s <= 0,
                t >= 0,
        ;
    } else {
        assert(p >= 0) by (nonlinear_arith)
            requires
                p == (-t) * weight,
                t < 0,
                weight >= 0,
        ;
        assert(s >= 0);
        assert(s * t <= 0) by (nonlinear_arith)
            requires
                s >= 0,
                t < 0,
        ;
    }
}

/// Pushing an agent away keeps it well formed and where it is.
pub proof fn lemma_pushed_away_wf(state: BoidState, other: Vec2)
    requires
        state.wf(),
    ensures
        pushed_away(state, other).wf(),
        pushed_away(state, other).pos == state.pos,
{
    match away_from(state.pos, other) {
        Some(direction) => {
            lemma_steered_wf(state, direction, STEER_WEIGHT as int);
        },
        None => {},
    }
}

/// The force model keeps an agent well formed and where it is.
pub proof fn lemma_repelled_wf(state: BoidState, flock: Seq<BoidState>, row: Seq<i32>)
    requires
        state.wf(),
    ensures
        repelled(state, flock, row).wf(),
        repelled(state, flock, row).pos == state.pos,
    decreases row.len(),
{
    if row.len() > 0 {
        lemma_repelled_wf(state, flock, row.drop_last());
        lemma_pushed_away_wf(repelled(state, flock, row.drop_last()), flock[row.last() as int].pos);
    }
}

/// Steers one agent away from a neighbour at `other`, see `pushed_away`.
pub fn push_away(boid: &mut Boid, other: Vec2)
    requires
        old(boid)@.wf(),
        in_plane(other),
    ensures
        final(boid)@ == pushed_away(old(boid)@, other),
        final(boid)@.wf(),
{
    let pos = boid.get_pos();
    if pos.within(&other, boid.get_comfort_zone()) {
        let toward = Vec2 { x: other.x - pos.x, y: other.y - pos.y };
        match toward.normalize() {
            Some(unit) => {
                proof {
                    lemma_unit_bounds(unit);
                }
                let direction = Vec2 { x: -unit.x, y: -unit.y };
                proof {
                    assert(direction.x * direction.x == unit.x * unit.x) by (nonlinear_arith)
                        requires
                            direction.x == -unit.x,
                    ;
                    assert(direction.y * direction.y == unit.y * unit.y) by (nonlinear_arith)
                        requires
                            direction.y == -unit.y,
                    ;
                }
                boid.apply_force(direction, STEER_WEIGHT);
            },
            None => {},
        }
    }
}

/// Applies the force model to the flock. Row `i` of the matrix lists the neighbours of agent
/// `i`; each one that lies within the agent's comfort radius, measured between the two
/// agents' positions, steers the agent away from it. Positions do not change, and an agent
/// without a row keeps its heading.
pub fn apply_anti_collision_force(boids: &mut Vec<Boid>, proximity_matrix: &Vec<Vec<i32>>)
    requires
        all_wf(states(old(boids)@)),
        proximity_matrix@.len() <= old(boids)@.len(),
        rows_in_range(rows(proximity_matrix@), old(boids)@.len() as int),
    ensures
        final(boids)@.len() == old(boids)@.len(),
        all_wf(states(final(boids)@)),
        forall|i: int|
            0 <= i < proximity_matrix@.len() ==> (#[trigger] final(boids)@[i])@ == repelled(
                old(boids)@[i]@,
                states(old(boids)@),
                proximity_matrix@[i]@,
            ),
        forall|i: int|
            proximity_matrix@.len() <= i < old(boids)@.len() ==> (#[trigger] final(boids)@[i])@ == old(
                boids,
            )@[i]@,
{
    let ghost before = states(boids@);
    let mut i: usize = 0;
    while i < proximity_matrix.len()
        invariant
            i <= proximity_matrix@.len() <= boids@.len(),
            boids@.len() == old(boids)@.len(),
            before == states(old(boids)@),
            all_wf(before),
            all_wf(states(boids@)),
            rows_in_range(rows(proximity_matrix@), boids@.len() as int),
            forall|n: int| 0 <= n < boids@.len() ==> (#[trigger] boids@[n])@.pos == before[n].pos,
            forall|n: int|
                0 <= n < i ==> (#[trigger] boids@[n])@ == repelled(before[n], before, proximity_matrix@[n]@),
            forall|n: int| i <= n < boids@.len() ==> (#[trigger] boids@[n])@ == before[n],
        decreases proximity_matrix@.len() - i,
    {
        let row = &proximity_matrix[i];
        let mut boid: Boid = boids[i];
        assert(boid@ == states(boids@)[i as int]);
        let mut k: usize = 0;
        assert(row@.take(0) =~= Seq::<i32>::empty());
        while k < row.len()
            invariant
                k <= row@.len(),
                i < proximity_matrix@.len() <= boids@.len(),
                row@ == proximity_matrix@[i as int]@,
                all_wf(before),
                before.len() == boids@.len(),
                rows_in_range(rows(proximity_matrix@), boids@.len() as int),
                forall|n: int| 0 <= n < boids@.len() ==> (#[trigger] boids@[n])@.pos == before[n].pos,
                boid@ == repelled(before[i as int], before, row@.take(k as int)),
                boid@.wf(),
            decreases row@.len() - k,
        {
            assert(rows(proximity_matrix@)[i as int][k as int] == row@[k as int]);
            let j: usize = row[k] as usize;
            let other = boids[j].get_pos();
            assert(before[j as int].wf());
            proof {
                assert(row@.take(k + 1).drop_last() =~= row@.take(k as int));
            }
            push_away(&mut boid, other);
            k = k + 1;
        }
        assert(row@.take(row@.len() as int) =~= row@);
        proof {
            lemma_repelled_wf(before[i as int], before, row@);
        }
        let ghost earlier = boids@;
        boids.set(i, boid);
        assert forall|n: int| 0 <= n < boids@.len() implies (#[trigger] states(boids@)[n]).wf() by {
            if n != i {
                assert(boids@[n] == earlier[n]);
                assert(states(earlier)[n].wf());
            }
        }
        i = i + 1;
    }
}

} // verus!
