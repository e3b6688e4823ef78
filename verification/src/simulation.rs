//! The flock and its tick: move and wrap, rebuild the index, find neighbours, apply forces.

use vstd::prelude::*;
use rand::rngs::StdRng;
use crate::arena::{depth_of, is_depth_for, Arena, ArenaView, ConfigError};
use crate::boid::{all_wf, is_sampled, lemma_updated_contained, states, Boid, BoidState};
use crate::fixed::SCALE;
use crate::force::{apply_anti_collision_force, lemma_repelled_wf, repelled, rows};
use crate::index::{found_in_box, in_tree, Entry, SpatialIndex};
use crate::proximity::{candidates_in, cell_point, get_proximity, lemma_neighbours_distinct, neighbours_in, search_box};
use crate::vec2::Vec2;

verus! {

/// The largest number of agents: each is stored in the index under its number, in 32 bits.
pub const MAX_AGENTS: usize = 0x7fff_ffff;

/// The point at which the index holds an agent: the corner of its cell.
pub open spec fn stored_point(state: BoidState) -> Vec2 {
    Vec2 { x: (state.cell().0 * SCALE) as i64, y: (state.cell().1 * SCALE) as i64 }
}

/// The entry under which agent `i` is stored in the index: its cell, moved by the margin,
/// and its number.
pub open spec fn entry_of(state: BoidState, i: int, margin: int) -> Entry {
    ((state.cell().0 + margin) as i32, (state.cell().1 + margin) as i32, i as i32)
}

/// The entries of an index rebuilt from a flock: one for each agent, in the flock's order.
pub open spec fn indexed(flock: Seq<BoidState>, margin: int) -> Seq<Entry> {
    Seq::new(flock.len(), |i: int| entry_of(flock[i], i, margin))
}

/// Every agent of the flock lies in the arena or its margin.
pub open spec fn all_contained(flock: Seq<BoidState>, arena: ArenaView) -> bool {
    forall|i: int| 0 <= i < flock.len() ==> arena.contains((#[trigger] flock[i]).pos)
}

/// No other agent of the flock is stored within the detection radius of agent `i`.
pub open spec fn is_alone(flock: Seq<BoidState>, i: int) -> bool {
    forall|j: int|
        0 <= j < flock.len() && j != i ==> !flock[i].pos.within_spec(
            #[trigger] stored_point(flock[j]),
            flock[i].detection_radius as int,
        )
}

/// Every entry of the row numbers another agent of the flock, which is stored no further
/// from agent `i` than the detection radius of `i`.
pub open spec fn row_sound(flock: Seq<BoidState>, i: int, row: Seq<i32>) -> bool {
    forall|j: i32| #[trigger]
        row.contains(j) ==> 0 <= j < flock.len() && j != i && flock[i].pos.within_spec(
            stored_point(flock[j as int]),
            flock[i].detection_radius as int,
        )
}

/// The row holds every other agent that is stored no further from agent `i` than the
/// detection radius of `i`.
pub open spec fn row_complete(flock: Seq<BoidState>, i: int, row: Seq<i32>) -> bool {
    forall|j: int|
        0 <= j < flock.len() && j != i && flock[i].pos.within_spec(
            #[trigger] stored_point(flock[j]),
            flock[i].detection_radius as int,
        ) ==> row.contains(j as i32)
}

/// The flock with every agent moved one tick and wrapped.
pub open spec fn moved(flock: Seq<BoidState>, arena: ArenaView) -> Seq<BoidState> {
    Seq::new(flock.len(), |i: int| flock[i].updated(arena))
}

/// The neighbours of every agent, found through an index rebuilt from the flock.
pub open spec fn proximity(flock: Seq<BoidState>, arena: ArenaView) -> Seq<Seq<i32>> {
    Seq::new(
        flock.len(),
        |i: int| neighbours_in(flock[i], i, indexed(flock, arena.margin), depth_of(arena), arena.margin),
    )
}

/// The flock with every agent steered away from the neighbours in its row.
pub open spec fn steered(flock: Seq<BoidState>, matrix: Seq<Seq<i32>>) -> Seq<BoidState> {
    Seq::new(flock.len(), |i: int| repelled(flock[i], flock, matrix[i]))
}

/// The flock one tick later.
pub open spec fn ticked(flock: Seq<BoidState>, arena: ArenaView) -> Seq<BoidState> {
    let ahead = moved(flock, arena);
    steered(ahead, proximity(ahead, arena))
}

/// The flock `count` ticks later.
pub open spec fn after_ticks(flock: Seq<BoidState>, arena: ArenaView, count: nat) -> Seq<BoidState>
    decreases count,
{
    if count == 0 {
        flock
    } else {
        ticked(after_ticks(flock, arena, (count - 1) as nat), arena)
    }
}

/// An agent in the arena or its margin is stored on the tree, at its cell moved by the
/// margin, and is held there at its stored point.
pub proof fn lemma_contained_on_tree(state: BoidState, i: int, arena: ArenaView, depth: nat)
    requires
        arena.wf(),
        arena.contains(state.pos),
        is_depth_for(depth, arena.span()),
        0 <= i <= MAX_AGENTS,
    ensures
        in_tree(entry_of(state, i, arena.margin).0 as int, entry_of(state, i, arena.margin).1 as int, depth),
        entry_of(state, i, arena.margin).0 == state.cell().0 + arena.margin,
        entry_of(state, i, arena.margin).1 == state.cell().1 + arena.margin,
        entry_of(state, i, arena.margin).2 == i,
        cell_point(entry_of(state, i, arena.margin), arena.margin) == stored_point(state),
{
}

/// A tick keeps every agent well formed and in the arena or its margin: each heading stays
/// of unit length, and each position is where the move and the wrap put it.
pub proof fn lemma_ticked_wf(flock: Seq<BoidState>, arena: ArenaView)
    requires
        all_wf(flock),
        arena.wf(),
    ensures
        ticked(flock, arena).len() == flock.len(),
        all_wf(ticked(flock, arena)),
        all_contained(ticked(flock, arena), arena),
        forall|i: int|
            0 <= i < flock.len() ==> (#[trigger] ticked(flock, arena)[i]).pos == flock[i].updated(arena).pos,
{
    let ahead = moved(flock, arena);
    let matrix = proximity(ahead, arena);
    assert forall|i: int| 0 <= i < flock.len() implies (#[trigger] ticked(flock, arena)[i]).wf() && arena.contains(
        ticked(flock, arena)[i].pos,
    ) && ticked(flock, arena)[i].pos == flock[i].updated(arena).pos by {
        lemma_updated_contained(flock[i], arena);
        lemma_repelled_wf(ahead[i], ahead, matrix[i]);
    }
}

/// Any number of ticks keeps every agent well formed, and from the first tick on in the
/// arena or its margin.
pub proof fn lemma_after_ticks_wf(flock: Seq<BoidState>, arena: ArenaView, count: nat)
    requires
        all_wf(flock),
        arena.wf(),
    ensures
        after_ticks(flock, arena, count).len() == flock.len(),
        all_wf(after_ticks(flock, arena, count)),
        count > 0 ==> all_contained(after_ticks(flock, arena, count), arena),
    decreases count,
{
    if count > 0 {
        lemma_after_ticks_wf(flock, arena, (count - 1) as nat);
        lemma_ticked_wf(after_ticks(flock, arena, (count - 1) as nat), arena);
    }
}

/// A run is repeatable: two simulations that start from the same arena and the same agents
/// hold the same agents after the same number of ticks, whatever their indexes held before.
pub proof fn lemma_run_repeatable(
    first: Simulation,
    second: Simulation,
    first_after: Simulation,
    second_after: Simulation,
    count: nat,
)
    requires
        first@ == second@,
        first_after@.flock == after_ticks(first@.flock, first@.arena, count),
        second_after@.flock == after_ticks(second@.flock, second@.arena, count),
    ensures
        first_after@.flock == second_after@.flock,
{
}

/// A flock in its arena, with the index over the agents' cells.
pub struct Simulation {
    arena: Arena,
    boids: Vec<Boid>,
    index: SpatialIndex,
}

/// What a simulation is made of. The index is no part of it: it follows from the agents.
pub struct SimulationView {
    pub arena: ArenaView,
    pub flock: Seq<BoidState>,
}

impl View for Simulation {
    type V = SimulationView;

    closed spec fn view(&self) -> SimulationView {
        SimulationView { arena: self.arena@, flock: states(self.boids@) }
    }
}

impl Simulation {
    /// The invariant of a simulation: the arena and every agent are well formed, every agent
    /// lies in the arena or its margin, the agents can be numbered in 32 bits, and the index
    /// holds every agent.
    pub closed spec fn wf(&self) -> bool {
        &&& self.arena@.wf()
        &&& all_wf(states(self.boids@))
        &&& all_contained(states(self.boids@), self.arena@)
        &&& self.boids@.len() <= MAX_AGENTS
        &&& self.index.wf()
        &&& self.index@.depth == depth_of(self.arena@)
        &&& is_depth_for(self.index@.depth, self.arena@.span())
        &&& self.index@.entries == indexed(states(self.boids@), self.arena@.margin)
    }

    /// The fault of a flock for an arena: too many agents, or an agent outside the arena and
    /// its margin.
    pub open spec fn fault(arena: ArenaView, flock: Seq<BoidState>) -> Option<ConfigError> {
        if flock.len() > MAX_AGENTS {
            Some(ConfigError::TooManyAgents)
        } else if !all_contained(flock, arena) {
            Some(ConfigError::OutsideArena)
        } else {
            None
        }
    }

    /// A simulation of the given agents, or the fault of the flock.
    pub fn new(arena: Arena, boids: Vec<Boid>) -> (made: Result<Simulation, ConfigError>)
        requires
            arena@.wf(),
            all_wf(states(boids@)),
        ensures
            match Simulation::fault(arena@, states(boids@)) {
                Some(e) => made == Err::<Simulation, ConfigError>(e),
                None => made is Ok && made.unwrap().wf() && made.unwrap()@ == (SimulationView {
                    arena: arena@,
                    flock: states(boids@),
                }),
            },
    {
        if boids.len() > MAX_AGENTS {
            return Err(ConfigError::TooManyAgents);
        }
        let depth = arena.index_depth();
        let index = SpatialIndex::new(depth);
        let mut sim = Simulation { arena, boids, index };
        let ghost flock = states(sim.boids@);
        let mut i: usize = 0;
        assert(indexed(flock, sim.arena@.margin).take(0) =~= Seq::<Entry>::empty());
        while i < sim.boids.len()
            invariant
                i <= sim.boids@.len() <= MAX_AGENTS,
                sim.boids == boids,
                sim.arena == arena,
                flock == states(sim.boids@),
                sim.arena@.wf(),
                all_wf(flock),
                forall|n: int| 0 <= n < i ==> sim.arena@.contains((#[trigger] flock[n]).pos),
                sim.index.wf(),
                sim.index@.depth == depth_of(sim.arena@),
                is_depth_for(sim.index@.depth, sim.arena@.span()),
                sim.index@.entries == indexed(flock, sim.arena@.margin).take(i as int),
            decreases sim.boids@.len() - i,
        {
            let boid = &sim.boids[i];
            assert(boid@ == flock[i as int]);
            if !sim.arena.contains(boid.get_pos()) {
                return Err(ConfigError::OutsideArena);
            }
            let x: i32 = boid.get_x() + sim.arena.margin();
            let y: i32 = boid.get_y() + sim.arena.margin();
            proof {
                lemma_contained_on_tree(flock[i as int], i as int, sim.arena@, sim.index@.depth);
                assert(indexed(flock, sim.arena@.margin).take(i + 1) =~= indexed(flock, sim.arena@.margin).take(
                    i as int,
                ).push(entry_of(flock[i as int], i as int, sim.arena@.margin)));
            }
            let stored: bool = sim.index.insert(x, y, i as i32);
            assert(stored);
            i = i + 1;
        }
        assert(indexed(flock, sim.arena@.margin).take(flock.len() as int) =~= indexed(flock, sim.arena@.margin));
        Ok(sim)
    }

    /// A simulation of `count` agents placed at random, see `Boid::new`.
    pub fn random(arena: Arena, count: usize, rng: &mut StdRng) -> (made: Result<Simulation, ConfigError>)
        requires
            arena@.wf(),
        ensures
            made is Ok <==> count <= MAX_AGENTS,
            made is Err ==> made == Err::<Simulation, ConfigError>(ConfigError::TooManyAgents),
            made is Ok ==> made.unwrap().wf() && made.unwrap()@.arena == arena@ && made.unwrap()@.flock.len()
                == count && all_wf(made.unwrap()@.flock),
            made is Ok ==> forall|i: int|
                0 <= i < count ==> is_sampled(#[trigger] made.unwrap()@.flock[i], arena@),
    {
        if count > MAX_AGENTS {
            return Err(ConfigError::TooManyAgents);
        }
        let mut boids: Vec<Boid> = Vec::new();
        let mut i: usize = 0;
        while i < count
            invariant
                i <= count,
                boids@.len() == i,
                arena@.wf(),
                all_wf(states(boids@)),
                all_contained(states(boids@), arena@),
                forall|n: int| 0 <= n < i ==> is_sampled(#[trigger] states(boids@)[n], arena@),
            decreases count - i,
        {
            let boid = Boid::new(&arena, rng);
            let ghost earlier = boids@;
            boids.push(boid);
            assert forall|n: int| 0 <= n < boids@.len() implies (#[trigger] states(boids@)[n]).wf() && is_sampled(
                states(boids@)[n],
                arena@,
            ) && arena@.contains(states(boids@)[n].pos) by {
                if n < i {
                    assert(boids@[n] == earlier[n]);
                    assert(states(earlier)[n].wf());
                    assert(is_sampled(states(earlier)[n], arena@));
                    assert(arena@.contains(states(earlier)[n].pos));
                }
            }
            i = i + 1;
        }
        Simulation::new(arena, boids)
    }

    /// The index over the agents' cells. Each agent is stored at its cell moved up and to
    /// the right by the margin, under its number.
    pub fn index(&self) -> (index: &SpatialIndex)
        requires
            self.wf(),
        ensures
            index.wf(),
            index@.depth == depth_of(self@.arena),
            index@.entries == indexed(self@.flock, self@.arena.margin),
    {
        &self.index
    }

    /// The arena.
    pub fn arena(&self) -> (arena: &Arena)
        requires
            self.wf(),
        ensures
            arena@ == self@.arena,
            arena@.wf(),
    {
        &self.arena
    }

    /// The agents, for whoever draws them.
    pub fn boids(&self) -> (boids: &Vec<Boid>)
        requires
            self.wf(),
        ensures
            states(boids@) == self@.flock,
            all_wf(self@.flock),
            all_contained(self@.flock, self@.arena),
            boids@.len() <= MAX_AGENTS,
    {
        &self.boids
    }

    /// Moves and wraps every agent, then rebuilds the index from the new positions.
    pub fn advance(&mut self)
        requires
            old(self).wf(),
        ensures
            final(self).wf(),
            final(self)@.arena == old(self)@.arena,
            final(self)@.flock == moved(old(self)@.flock, old(self)@.arena),
            all_wf(final(self)@.flock),
            all_contained(final(self)@.flock, final(self)@.arena),
    {
        self.index.reset();
        let ghost before = states(self.boids@);
        let ghost margin = self.arena@.margin;
        let mut i: usize = 0;
        assert(indexed(states(self.boids@), margin).take(0) =~= Seq::<Entry>::empty());
        while i < self.boids.len()
            invariant
                i <= self.boids@.len() <= MAX_AGENTS,
                self.boids@.len() == before.len(),
                self.arena == old(self).arena,
                margin == self.arena@.margin,
                self.arena@.wf(),
                all_wf(before),
                all_wf(states(self.boids@)),
                all_contained(states(self.boids@), self.arena@),
                self.index.wf(),
                self.index@.depth == depth_of(self.arena@),
                is_depth_for(self.index@.depth, self.arena@.span()),
                self.index@.entries == indexed(states(self.boids@), margin).take(i as int),
                forall|n: int| 0 <= n < i ==> (#[trigger] self.boids@[n])@ == before[n].updated(self.arena@),
                forall|n: int| i <= n < self.boids@.len() ==> (#[trigger] self.boids@[n])@ == before[n],
            decreases self.boids@.len() - i,
        {
            let mut boid: Boid = self.boids[i];
            assert(boid@ == states(self.boids@)[i as int]);
            boid.update(&self.arena);
            let x: i32 = boid.get_x() + self.arena.margin();
            let y: i32 = boid.get_y() + self.arena.margin();
            let ghost earlier = self.boids@;
            self.boids.set(i, boid);
            proof {
                let flock = states(self.boids@);
                assert forall|n: int| 0 <= n < self.boids@.len() implies (#[trigger] flock[n]).wf()
                    && self.arena@.contains(flock[n].pos) by {
                    if n != i {
                        assert(self.boids@[n] == earlier[n]);
                        assert(states(earlier)[n].wf());
                        assert(self.arena@.contains(states(earlier)[n].pos));
                    }
                }
                lemma_contained_on_tree(boid@, i as int, self.arena@, self.index@.depth);
                assert(indexed(flock, margin).take(i as int) =~= indexed(states(earlier), margin).take(i as int)) by {
                    assert forall|n: int| 0 <= n < i implies flock[n] == states(earlier)[n] by {
                        assert(self.boids@[n] == earlier[n]);
                    }
                }
                assert(indexed(flock, margin).take(i + 1) =~= indexed(flock, margin).take(i as int).push(
                    entry_of(boid@, i as int, margin),
                ));
            }
            let stored: bool = self.index.insert(x, y, i as i32);
            assert(stored);
            i = i + 1;
        }
        assert(indexed(states(self.boids@), margin).take(self.boids@.len() as int) =~= indexed(
            states(self.boids@),
            margin,
        ));
        assert(states(self.boids@) =~= moved(before, self.arena@));
    }

    /// For each agent, the numbers of the agents that are stored within its detection
    /// radius.
    ///
    /// A neighbour is never the agent itself, no neighbour is named twice, and each is stored
    /// no further from the agent than the detection radius. Every other agent that is stored
    /// that near is a neighbour.
    pub fn neighbours(&self) -> (out: Vec<Vec<i32>>)
        requires
            self.wf(),
        ensures
            out@.len() == self@.flock.len(),
            rows(out@) == proximity(self@.flock, self@.arena),
            forall|i: int|
                0 <= i < out@.len() ==> row_sound(self@.flock, i, (#[trigger] out@[i])@) && row_complete(
                    self@.flock,
                    i,
                    out@[i]@,
                ) && out@[i]@.no_duplicates(),
            forall|i: int| 0 <= i < out@.len() && is_alone(self@.flock, i) ==> (#[trigger] out@[i])@.len() == 0,
    {
        let ghost flock = states(self.boids@);
        let ghost arena = self.arena@;
        let ghost depth = depth_of(self.arena@);
        let ghost entries = indexed(flock, arena.margin);
        assert forall|i: int| 0 <= i < self.boids@.len() implies (#[trigger] self.boids@[i])@.wf() by {
            assert(flock[i].wf());
        }
        let out = get_proximity(&self.boids, &self.index, &self.arena);
        proof {
            assert(rows(out@) =~= proximity(flock, arena)) by {
                assert forall|i: int| 0 <= i < out@.len() implies rows(out@)[i] == proximity(flock, arena)[i] by {
                    assert(out@[i]@ == neighbours_in(self.boids@[i]@, i, entries, depth, arena.margin));
                }
            }
            assert forall|n: int| 0 <= n < flock.len() implies cell_point(#[trigger] entries[n], arena.margin)
                == stored_point(flock[n]) && entries[n].2 == n by {
                lemma_contained_on_tree(flock[n], n, arena, depth);
            }
            assert forall|i: int| 0 <= i < out@.len() implies row_sound(flock, i, (#[trigger] out@[i])@)
                && row_complete(flock, i, out@[i]@) && out@[i]@.no_duplicates() by {
                let row = out@[i]@;
                assert(self.boids@[i]@ == flock[i]);
                assert forall|j: i32| #[trigger] row.contains(j) implies 0 <= j < flock.len() && j != i
                    && flock[i].pos.within_spec(stored_point(flock[j as int]), flock[i].detection_radius as int) by {
                    let e = choose|e: Entry| #[trigger]
                        entries.contains(e) && e.2 == j && flock[i].pos.within_spec(
                            cell_point(e, arena.margin),
                            flock[i].detection_radius as int,
                        );
                    let n = choose|n: int| 0 <= n < entries.len() && entries[n] == e;
                    assert(n == j);
                    let k = choose|k: int| 0 <= k < row.len() && row[k] == j;
                    assert(row[k] != i);
                }
                assert forall|j: int|
                    0 <= j < flock.len() && j != i && flock[i].pos.within_spec(
                        #[trigger] stored_point(flock[j]),
                        flock[i].detection_radius as int,
                    ) implies row.contains(j as i32) by {
                    let e = entries[j];
                    assert(entries.contains(e));
                    assert(crate::proximity::is_neighbour(flock[i], i, e, arena.margin));
                }
                lemma_candidates_distinct(flock, arena, depth, i);
                lemma_neighbours_distinct(
                    flock[i],
                    i,
                    candidates_in(flock[i], entries, depth, arena.margin),
                    arena.margin,
                );
            }
            assert forall|i: int| 0 <= i < out@.len() && is_alone(flock, i) implies (#[trigger] out@[i])@.len()
                == 0 by {
                if out@[i]@.len() > 0 {
                    let j = out@[i]@[0];
                    assert(out@[i]@.contains(j));
                    assert(row_sound(flock, i, out@[i]@));
                    assert(flock[i].pos.within_spec(stored_point(flock[j as int]), flock[i].detection_radius as int));
                }
            }
        }
        out
    }

    /// One tick: every agent moves and wraps, the index is rebuilt, the neighbours are found,
    /// and every agent is steered away from those inside its comfort radius. An agent that
    /// has no other agent within its detection radius after the move keeps its heading.
    pub fn tick(&mut self)
        requires
            old(self).wf(),
        ensures
            final(self).wf(),
            final(self)@.arena == old(self)@.arena,
            final(self)@.flock == ticked(old(self)@.flock, old(self)@.arena),
            all_wf(final(self)@.flock),
            all_contained(final(self)@.flock, final(self)@.arena),
            forall|i: int|
                0 <= i < old(self)@.flock.len() && is_alone(moved(old(self)@.flock, old(self)@.arena), i) ==> (
                #[trigger] final(self)@.flock[i]) == old(self)@.flock[i].updated(old(self)@.arena),
    {
        self.advance();
        let matrix = self.neighbours();
        let ghost ahead = states(self.boids@);
        proof {
            assert(rows(matrix@).len() == matrix@.len());
            assert forall|i: int, k: int| 0 <= i < rows(matrix@).len() && 0 <= k < rows(matrix@)[i].len() implies 0
                <= #[trigger] rows(matrix@)[i][k] < self.boids@.len() by {
                assert(matrix@[i]@.contains(matrix@[i]@[k]));
            }
        }
        let ghost old_boids = self.boids@;
        apply_anti_collision_force(&mut self.boids, &matrix);
        proof {
            let after = states(self.boids@);
            assert(after =~= steered(ahead, proximity(ahead, self.arena@))) by {
                assert forall|i: int| 0 <= i < after.len() implies after[i] == steered(
                    ahead,
                    proximity(ahead, self.arena@),
                )[i] by {
                    assert(rows(matrix@)[i] == matrix@[i]@);
                    assert(ahead[i] == old_boids[i]@);
                    assert(after[i] == self.boids@[i]@);
                }
            }
            assert forall|i: int| 0 <= i < after.len() implies (#[trigger] after[i]).pos == ahead[i].pos by {
                lemma_repelled_wf(ahead[i], ahead, matrix@[i]@);
            }
            assert(indexed(after, self.arena@.margin) =~= indexed(ahead, self.arena@.margin));
            assert forall|i: int| 0 <= i < ahead.len() && is_alone(ahead, i) implies (#[trigger] after[i])
                == ahead[i] by {
                assert(matrix@[i]@ =~= Seq::<i32>::empty());
                assert(after[i] == self.boids@[i]@);
            }
        }
    }

    /// `count` ticks, one after the other.
    pub fn run(&mut self, count: usize)
        requires
            old(self).wf(),
        ensures
            final(self).wf(),
            final(self)@.arena == old(self)@.arena,
            final(self)@.flock == after_ticks(old(self)@.flock, old(self)@.arena, count as nat),
            all_wf(final(self)@.flock),
            all_contained(final(self)@.flock, final(self)@.arena),
    {
        let mut done: usize = 0;
        while done < count
            invariant
                done <= count,
                self.wf(),
                self@.arena == old(self)@.arena,
                self@.flock == after_ticks(old(self)@.flock, old(self)@.arena, done as nat),
            decreases count - done,
        {
            self.tick();
            done = done + 1;
        }
    }
}

/// What the index hands out for the search box of an agent stores a different number with
/// each entry, since the index holds each agent once.
proof fn lemma_candidates_distinct(flock: Seq<BoidState>, arena: ArenaView, depth: nat, i: int)
    requires
        0 <= i < flock.len() <= MAX_AGENTS,
        found_in_box(
            candidates_in(flock[i], indexed(flock, arena.margin), depth, arena.margin),
            indexed(flock, arena.margin),
            search_box(flock[i], arena.margin).0,
            search_box(flock[i], arena.margin).1,
            search_box(flock[i], arena.margin).2,
            search_box(flock[i], arena.margin).3,
        ),
    ensures
        forall|a: int, b: int|
            0 <= a < b < candidates_in(flock[i], indexed(flock, arena.margin), depth, arena.margin).len() ==> (
            #[trigger] candidates_in(flock[i], indexed(flock, arena.margin), depth, arena.margin)[a]).2 != (
            #[trigger] candidates_in(flock[i], indexed(flock, arena.margin), depth, arena.margin)[b]).2,
{
    broadcast use vstd::seq_lib::to_multiset_contains;

    let entries = indexed(flock, arena.margin);
    let found = candidates_in(flock[i], entries, depth, arena.margin);
    assert(entries.no_duplicates());
    entries.lemma_multiset_has_no_duplicates();
    assert forall|x: Entry| found.to_multiset().contains(x) implies found.to_multiset().count(x) == 1 by {
        assert(entries.to_multiset().contains(x));
    }
    found.lemma_multiset_has_no_duplicates_conv();
    assert forall|a: int, b: int| 0 <= a < b < found.len() implies (#[trigger] found[a]).2 != (#[trigger] found[b]).2 by {
        assert(found.contains(found[a]) && found.contains(found[b]));
        assert(found.to_multiset().count(found[a]) > 0 && found.to_multiset().count(found[b]) > 0);
        assert(entries.to_multiset().count(found[a]) > 0 && entries.to_multiset().count(found[b]) > 0);
        assert(entries.contains(found[a]) && entries.contains(found[b]));
        let n = choose|n: int| 0 <= n < entries.len() && entries[n] == found[a];
        let m = choose|m: int| 0 <= m < entries.len() && entries[m] == found[b];
        if found[a].2 == found[b].2 {
            assert(n == m);
        }
    }
}

} // verus!
