//! Neighbour discovery: which agents lie within an agent's detection radius.
//!
//! The index holds cells that are not negative, so every cell is stored moved up and to the
//! right by the arena's margin.

use vstd::prelude::*;
use crate::arena::{Arena, MAX_MARGIN};
use crate::boid::{Boid, BoidState};
use crate::fixed::SCALE;
use crate::index::{found_in_box, in_box, lookup, Entry, SpatialIndex};
use crate::vec2::Vec2;

verus! {

/// The point at which the index holds an entry: the corner of its cell, moved back by the
/// margin.
pub open spec fn cell_point(e: Entry, margin: int) -> Vec2 {
    Vec2 { x: ((e.0 - margin) * SCALE) as i64, y: ((e.1 - margin) * SCALE) as i64 }
}

/// The box of cells searched for the neighbours of an agent, as its anchor, width and
/// height: every cell from the agent's area anchor up to and including its area corner,
/// moved by the margin.
pub open spec fn search_box(state: BoidState, margin: int) -> (int, int, int, int) {
    (
        state.area_anchor().0 + margin,
        state.area_anchor().1 + margin,
        state.area_corner().0 - state.area_anchor().0 + 1,
        state.area_corner().1 - state.area_anchor().1 + 1,
    )
}

/// Whether a candidate counts as a neighbour of agent `i`: it is stored no further from the
/// agent than the detection radius, and it is not the agent itself.
pub open spec fn is_neighbour(state: BoidState, i: int, candidate: Entry, margin: int) -> bool {
    state.pos.within_spec(cell_point(candidate, margin), state.detection_radius as int) && candidate.2 != i
}

/// The test `is_neighbour` for agent `i`, as a predicate on candidates.
pub open spec fn neighbour_test(state: BoidState, i: int, margin: int) -> spec_fn(Entry) -> bool {
    |c: Entry| is_neighbour(state, i, c, margin)
}

/// The value stored with an entry.
pub open spec fn stored_value() -> spec_fn(Entry) -> i32 {
    |c: Entry| c.2
}

/// The neighbours of agent `i` among the candidates, in the candidates' order.
pub open spec fn neighbours(state: BoidState, i: int, candidates: Seq<Entry>, margin: int) -> Seq<i32> {
    candidates.filter(neighbour_test(state, i, margin)).map_values(stored_value())
}

/// What an index with the given entries and depth hands out for the search box of an agent.
pub open spec fn candidates_in(state: BoidState, entries: Seq<Entry>, depth: nat, margin: int) -> Seq<Entry> {
    let (ax, ay, w, h) = search_box(state, margin);
    lookup(entries, depth, ax, ay, w, h)
}

/// The neighbours of agent `i` that an index with the given entries and depth yields.
pub open spec fn neighbours_in(state: BoidState, i: int, entries: Seq<Entry>, depth: nat, margin: int) -> Seq<
    i32,
> {
    neighbours(state, i, candidates_in(state, entries, depth, margin), margin)
}

/// The candidates for an agent are the entries of the index in its search box, each as often
/// as the index holds it.
pub open spec fn candidates_exact(state: BoidState, entries: Seq<Entry>, depth: nat, margin: int) -> bool {
    let (ax, ay, w, h) = search_box(state, margin);
    found_in_box(candidates_in(state, entries, depth, margin), entries, ax, ay, w, h)
}

/// No entry of the row is agent `i` itself.
pub open spec fn excludes_self(row: Seq<i32>, i: int) -> bool {
    forall|k: int| 0 <= k < row.len() ==> #[trigger] row[k] != i
}

/// Every entry of the row is the value of an entry of the index that is stored no further
/// from the agent than its detection radius.
pub open spec fn all_near(state: BoidState, entries: Seq<Entry>, row: Seq<i32>, margin: int) -> bool {
    forall|j: i32| #[trigger]
        row.contains(j) ==> exists|e: Entry| #[trigger]
            entries.contains(e) && e.2 == j && state.pos.within_spec(
                cell_point(e, margin),
                state.detection_radius as int,
            )
}

/// The row misses no entry of the index that counts as a neighbour of agent `i`.
pub open spec fn misses_none(state: BoidState, i: int, entries: Seq<Entry>, row: Seq<i32>, margin: int) -> bool {
    forall|e: Entry| #[trigger] entries.contains(e) && is_neighbour(state, i, e, margin) ==> row.contains(e.2)
}

/// Every neighbour was a candidate that is near and is not the agent itself.
pub proof fn lemma_neighbours_sound(state: BoidState, i: int, candidates: Seq<Entry>, margin: int, j: i32)
    requires
        neighbours(state, i, candidates, margin).contains(j),
    ensures
        j != i,
        exists|c: Entry| #[trigger]
            candidates.contains(c) && c.2 == j && state.pos.within_spec(
                cell_point(c, margin),
                state.detection_radius as int,
            ),
{
    let test = neighbour_test(state, i, margin);
    let kept = candidates.filter(test);
    let row = neighbours(state, i, candidates, margin);
    assert(row.len() == kept.len());
    let k = choose|k: int| 0 <= k < row.len() && row[k] == j;
    let c = kept[k];
    candidates.lemma_filter_pred(test, k);
    assert(kept.contains(c));
    candidates.lemma_filter_contains_rev(test, c);
    assert(test(c));
    assert(candidates.contains(c) && c.2 == j);
}

/// Every candidate that is near and is not the agent itself is a neighbour.
pub proof fn lemma_neighbours_complete(state: BoidState, i: int, candidates: Seq<Entry>, margin: int, c: Entry)
    requires
        candidates.contains(c),
        is_neighbour(state, i, c, margin),
    ensures
        neighbours(state, i, candidates, margin).contains(c.2),
{
    let test = neighbour_test(state, i, margin);
    let kept = candidates.filter(test);
    assert(test(c));
    let m = choose|m: int| 0 <= m < candidates.len() && candidates[m] == c;
    candidates.lemma_filter_contains(test, m);
    assert(kept.contains(c));
    let k = choose|k: int| 0 <= k < kept.len() && kept[k] == c;
    assert(kept.map_values(stored_value())[k] == c.2);
}

/// No agent is its own neighbour.
pub proof fn lemma_never_own_neighbour(state: BoidState, i: int, candidates: Seq<Entry>, margin: int)
    ensures
        excludes_self(neighbours(state, i, candidates, margin), i),
{
    let row = neighbours(state, i, candidates, margin);
    assert forall|k: int| 0 <= k < row.len() implies #[trigger] row[k] != i by {
        assert(row.contains(row[k]));
        lemma_neighbours_sound(state, i, candidates, margin, row[k]);
    }
}

/// Candidates that store different values give neighbours that are all different.
pub proof fn lemma_neighbours_distinct(state: BoidState, i: int, candidates: Seq<Entry>, margin: int)
    requires
        forall|a: int, b: int|
            0 <= a < b < candidates.len() ==> (#[trigger] candidates[a]).2 != (#[trigger] candidates[b]).2,
    ensures
        neighbours(state, i, candidates, margin).no_duplicates(),
    decreases candidates.len(),
{
    let test = neighbour_test(state, i, margin);
    let row = neighbours(state, i, candidates, margin);
    if candidates.len() == 0 {
        candidates.lemma_filter_len(test);
    } else {
        let rest = candidates.drop_last();
        let last = candidates.last();
        assert(rest.push(last) =~= candidates);
        assert forall|a: int, b: int| 0 <= a < b < rest.len() implies (#[trigger] rest[a]).2 != (
        #[trigger] rest[b]).2 by {
            assert(rest[a] == candidates[a] && rest[b] == candidates[b]);
        }
        lemma_neighbours_distinct(state, i, rest, margin);
        let before = neighbours(state, i, rest, margin);
        rest.lemma_filter_push(last, test);
        rest.filter(test).lemma_push_map_commute(stored_value(), last);
        if test(last) {
            assert(row =~= before.push(last.2));
            if before.contains(last.2) {
                lemma_neighbours_sound(state, i, rest, margin, last.2);
                let c = choose|c: Entry| #[trigger]
                    rest.contains(c) && c.2 == last.2 && state.pos.within_spec(
                        cell_point(c, margin),
                        state.detection_radius as int,
                    );
                let a = choose|a: int| 0 <= a < rest.len() && rest[a] == c;
                assert(candidates[a].2 != candidates[candidates.len() - 1].2);
            }
            assert forall|a: int, b: int| 0 <= a < row.len() && 0 <= b < row.len() && a != b implies row[a]
                != row[b] by {
                if a < before.len() && b < before.len() {
                    assert(before[a] != before[b]);
                } else if a < before.len() {
                    assert(before.contains(before[a]));
                } else {
                    assert(before.contains(before[b]));
                }
            }
        } else {
            assert(row =~= before);
        }
    }
}

/// The search box holds the whole circle: an entry stored within the detection radius of
/// the agent lies in the box.
pub proof fn lemma_search_box_covers(state: BoidState, e: Entry, margin: int)
    requires
        state.wf(),
        0 <= margin <= MAX_MARGIN,
        state.pos.within_spec(cell_point(e, margin), state.detection_radius as int),
    ensures
        in_box(
            e,
            search_box(state, margin).0,
            search_box(state, margin).1,
            search_box(state, margin).2,
            search_box(state, margin).3,
        ),
{
    let r = state.detection_radius as int;
    let dx = state.pos.x - cell_point(e, margin).x;
    let dy = state.pos.y - cell_point(e, margin).y;
    assert(-r <= dx <= r && -r <= dy <= r) by (nonlinear_arith)
        requires
            dx * dx + dy * dy <= r * r,
            r >= 0,
    ;
}

/// The neighbours of agent `i` among the candidates that the index handed out.
pub fn select_neighbours(boid: &Boid, i: usize, candidates: &Vec<Entry>, arena: &Arena) -> (row: Vec<i32>)
    requires
        boid@.wf(),
        arena@.wf(),
    ensures
        row@ == neighbours(boid@, i as int, candidates@, arena@.margin),
{
    let pos = boid.get_pos();
    let radius = boid.get_radius();
    let margin: i64 = arena.margin() as i64;
    let mut row: Vec<i32> = Vec::new();
    let ghost pred = neighbour_test(boid@, i as int, arena@.margin);
    let ghost value = stored_value();
    let mut k: usize = 0;
    assert(candidates@.take(0) =~= Seq::<Entry>::empty());
    while k < candidates.len()
        invariant
            k <= candidates.len(),
            boid@.wf(),
            arena@.wf(),
            margin == arena@.margin,
            pos == boid@.pos,
            radius == boid@.detection_radius,
            pred == neighbour_test(boid@, i as int, arena@.margin),
            value == stored_value(),
            row@ == candidates@.take(k as int).filter(pred).map_values(value),
        decreases candidates.len() - k,
    {
        let candidate: Entry = candidates[k];
        let at = Vec2 { x: (candidate.0 as i64 - margin) * SCALE, y: (candidate.1 as i64 - margin) * SCALE };
        let near: bool = pos.within(&at, radius);
        proof {
            let before = candidates@.take(k as int);
            assert(candidates@.take(k + 1) =~= before.push(candidate));
            before.lemma_filter_push(candidate, pred);
            before.filter(pred).lemma_push_map_commute(value, candidate);
        }
        if near && !same_agent(candidate.2, i) {
            row.push(candidate.2);
        }
        k = k + 1;
    }
    assert(candidates@.take(candidates.len() as int) =~= candidates@);
    row
}

/// Whether a stored value names agent `i`.
fn same_agent(value: i32, i: usize) -> (same: bool)
    ensures
        same == (value as int == i as int),
{
    value >= 0 && value as usize == i
}

/// The box of cells searched for the neighbours of an agent, see `search_box`.
pub fn search_region(boid: &Boid, arena: &Arena) -> (region: (i32, i32, i32, i32))
    requires
        boid@.wf(),
        arena@.wf(),
    ensures
        (region.0 as int, region.1 as int, region.2 as int, region.3 as int) == search_box(boid@, arena@.margin),
{
    let anchor = boid.get_area_anchor();
    let corner = boid.get_area_corner();
    let margin: i32 = arena.margin();
    (anchor.0 + margin, anchor.1 + margin, corner.0 - anchor.0 + 1, corner.1 - anchor.1 + 1)
}

/// For each agent, the agents stored in the index within its detection radius.
///
/// The index is asked for the box around the agent; of what it hands out, the entries stored
/// no further away than the detection radius are kept, but for the agent itself. The
/// distance is taken to the cell at which the index holds an entry, not to where that agent
/// is now.
pub fn get_proximity(boids: &Vec<Boid>, index: &SpatialIndex, arena: &Arena) -> (out: Vec<Vec<i32>>)
    requires
        index.wf(),
        arena@.wf(),
        forall|i: int| 0 <= i < boids@.len() ==> (#[trigger] boids@[i])@.wf(),
    ensures
        out@.len() == boids@.len(),
        forall|i: int|
            0 <= i < boids@.len() ==> (#[trigger] out@[i])@ == neighbours_in(
                boids@[i]@,
                i,
                index@.entries,
                index@.depth,
                arena@.margin,
            ),
        forall|i: int|
            0 <= i < boids@.len() ==> candidates_exact(
                (#[trigger] boids@[i])@,
                index@.entries,
                index@.depth,
                arena@.margin,
            ),
        forall|i: int|
            0 <= i < boids@.len() ==> excludes_self((#[trigger] out@[i])@, i) && all_near(
                boids@[i]@,
                index@.entries,
                out@[i]@,
                arena@.margin,
            ) && misses_none(boids@[i]@, i, index@.entries, out@[i]@, arena@.margin),
{
    let mut out: Vec<Vec<i32>> = Vec::new();
    let mut i: usize = 0;
    while i < boids.len()
        invariant
            i <= boids.len(),
            index.wf(),
            arena@.wf(),
            forall|n: int| 0 <= n < boids@.len() ==> (#[trigger] boids@[n])@.wf(),
            out@.len() == i,
            forall|n: int|
                0 <= n < i ==> (#[trigger] out@[n])@ == neighbours_in(
                    boids@[n]@,
                    n,
                    index@.entries,
                    index@.depth,
                    arena@.margin,
                ),
            forall|n: int|
                0 <= n < i ==> candidates_exact(
                    (#[trigger] boids@[n])@,
                    index@.entries,
                    index@.depth,
                    arena@.margin,
                ),
            forall|n: int|
                0 <= n < i ==> excludes_self((#[trigger] out@[n])@, n) && all_near(
                    boids@[n]@,
                    index@.entries,
                    out@[n]@,
                    arena@.margin,
                ) && misses_none(boids@[n]@, n, index@.entries, out@[n]@, arena@.margin),
        decreases boids.len() - i,
    {
        let boid = &boids[i];
        let region = search_region(boid, arena);
        let candidates = index.query(region.0, region.1, region.2, region.3);
        let row = select_neighbours(boid, i, &candidates, arena);
        proof {
            lemma_row_laws(boid@, i as int, index@.entries, candidates@, row@, arena@.margin);
        }
        out.push(row);
        i = i + 1;
    }
    out
}

/// What holds of the neighbours selected from what the index found in an agent's search box.
proof fn lemma_row_laws(
    state: BoidState,
    i: int,
    entries: Seq<Entry>,
    candidates: Seq<Entry>,
    row: Seq<i32>,
    margin: int,
)
    requires
        state.wf(),
        0 <= margin <= MAX_MARGIN,
        found_in_box(
            candidates,
            entries,
            search_box(state, margin).0,
            search_box(state, margin).1,
            search_box(state, margin).2,
            search_box(state, margin).3,
        ),
        row == neighbours(state, i, candidates, margin),
    ensures
        excludes_self(row, i),
        all_near(state, entries, row, margin),
        misses_none(state, i, entries, row, margin),
{
    broadcast use vstd::seq_lib::to_multiset_contains;

    lemma_never_own_neighbour(state, i, candidates, margin);
    assert forall|j: i32| row.contains(j) implies exists|e: Entry| #[trigger]
        entries.contains(e) && e.2 == j && state.pos.within_spec(
            cell_point(e, margin),
            state.detection_radius as int,
        ) by {
        lemma_neighbours_sound(state, i, candidates, margin, j);
        let c = choose|c: Entry| #[trigger]
            candidates.contains(c) && c.2 == j && state.pos.within_spec(
                cell_point(c, margin),
                state.detection_radius as int,
            );
        assert(candidates.to_multiset().count(c) > 0);
        assert(entries.contains(c));
    }
    assert forall|e: Entry| #[trigger] entries.contains(e) && is_neighbour(state, i, e, margin) implies row.contains(
        e.2,
    ) by {
        lemma_search_box_covers(state, e, margin);
        assert(candidates.to_multiset().count(e) > 0);
        assert(candidates.contains(e));
        lemma_neighbours_complete(state, i, candidates, margin, e);
    }
}

} // verus!
