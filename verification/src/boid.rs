//! One agent of the flock: where it is, where it is heading, and how far it senses.

use vstd::prelude::*;
use rand::rngs::StdRng;
use rand::RngCore;
use crate::arena::{Arena, ArenaView, ConfigError};
use crate::fixed::{div_trunc, lemma_mul_fixed_bound, mul_fixed, mul_fixed_spec, SCALE};
use crate::vec2::{lemma_normalized_is_unit, lemma_unit_bounds, Vec2, UNIT_TOLERANCE};

verus! {

/// Largest distance an agent covers in one tick.
pub const MAX_SPEED: i64 = 1_048_576_000_000;

/// Largest detection radius.
pub const MAX_RADIUS: i64 = 1_048_576_000_000;

/// Largest magnitude of a coordinate of a position: the plane ends there.
pub const PLANE_LIMIT: i64 = 1_073_741_824_000_000;

/// The speed of an agent placed at random: one world unit per tick.
pub const INITIAL_SPEED: i64 = 1_000_000;

/// The detection radius of an agent placed at random: 100 world units.
pub const INITIAL_DETECTION_RADIUS: i64 = 100_000_000;

/// The comfort radius of an agent placed at random: 20 world units.
pub const INITIAL_COMFORT_ZONE: i64 = 20_000_000;

/// Half the range of a 32-bit sample.
pub const SAMPLE_MIDPOINT: i64 = 0x8000_0000;

/// The number of values a 32-bit sample can take.
pub const SAMPLE_RANGE: i64 = 0x1_0000_0000;

/// The standard generator of `rand` (`rand::rngs::StdRng`), carried through as it is: nothing
/// is known of its state.
#[verifier::external_type_specification]
#[verifier::external_body]
pub struct ExStdRng(StdRng);

/// Draws the next 32 bits from the generator (`RngCore::next_u32` of `rand`). Nothing is
/// claimed of the value drawn.
#[verifier::external_body]
fn next_sample(rng: &mut StdRng) -> (sample: u32) {
    rng.next_u32()
}

/// An agent.
#[derive(Clone, Copy, Debug)]
pub struct Boid {
    pos: Vec2,
    dir: Vec2,
    vel: i64,
    detection_radius: i64,
    comfort_zone: i64,
}

/// What an agent is made of. Lengths count millionths of a world unit.
pub struct BoidState {
    /// The position.
    pub pos: Vec2,
    /// The heading, a unit vector.
    pub dir: Vec2,
    /// The distance covered in one tick.
    pub vel: i64,
    /// How far the agent sees its neighbours.
    pub detection_radius: i64,
    /// How near a neighbour may come before the agent steers away.
    pub comfort_zone: i64,
}

/// The point lies in the plane.
pub open spec fn in_plane(p: Vec2) -> bool {
    &&& -PLANE_LIMIT <= p.x <= PLANE_LIMIT
    &&& -PLANE_LIMIT <= p.y <= PLANE_LIMIT
}

impl BoidState {
    /// The invariant of an agent: the position lies in the plane, the heading has unit
    /// length, the speed is in range, and the radii are positive with the comfort radius
    /// strictly the smaller.
    pub open spec fn wf(self) -> bool {
        &&& in_plane(self.pos)
        &&& self.dir.is_unit()
        &&& 0 <= self.vel <= MAX_SPEED
        &&& 0 < self.comfort_zone < self.detection_radius <= MAX_RADIUS
    }

    /// The first fault of a state that is not well formed.
    pub open spec fn fault(self) -> Option<ConfigError> {
        if !in_plane(self.pos) {
            Some(ConfigError::PositionOutOfRange)
        } else if !self.dir.is_unit() {
            Some(ConfigError::HeadingNotUnit)
        } else if self.vel < 0 || self.vel > MAX_SPEED {
            Some(ConfigError::SpeedOutOfRange)
        } else if self.detection_radius <= 0 || self.comfort_zone <= 0 {
            Some(ConfigError::RadiusNotPositive)
        } else if self.detection_radius > MAX_RADIUS {
            Some(ConfigError::RadiusTooLarge)
        } else if self.comfort_zone >= self.detection_radius {
            Some(ConfigError::ComfortNotBelowDetection)
        } else {
            None
        }
    }

    /// The cell of the spatial index the agent is in: its position in whole world units,
    /// each coordinate rounded toward zero.
    pub open spec fn cell(self) -> (int, int) {
        (div_trunc(self.pos.x as int, SCALE as int), div_trunc(self.pos.y as int, SCALE as int))
    }

    /// The lower left corner of the square of cells that is searched for neighbours: the
    /// cell of the point one detection radius below and to the left of the agent.
    pub open spec fn area_anchor(self) -> (int, int) {
        (
            div_trunc(self.pos.x - self.detection_radius, SCALE as int),
            div_trunc(self.pos.y - self.detection_radius, SCALE as int),
        )
    }

    /// The upper right corner of the square of cells that is searched for neighbours: the
    /// cell of the point one detection radius above and to the right of the agent.
    pub open spec fn area_corner(self) -> (int, int) {
        (
            div_trunc(self.pos.x + self.detection_radius, SCALE as int),
            div_trunc(self.pos.y + self.detection_radius, SCALE as int),
        )
    }

    /// The position one tick ahead along the heading, before the wrap.
    pub open spec fn displaced(self) -> Vec2 {
        Vec2 {
            x: (self.pos.x + mul_fixed_spec(self.dir.x as int, self.vel as int)) as i64,
            y: (self.pos.y + mul_fixed_spec(self.dir.y as int, self.vel as int)) as i64,
        }
    }

    /// The agent one tick later: moved along its heading and wrapped around the arena.
    pub open spec fn updated(self, arena: ArenaView) -> BoidState {
        BoidState { pos: arena.wrapped(self.displaced()), ..self }
    }

    /// The heading with `factor` times `direction` added, not yet of unit length.
    pub open spec fn blended(self, direction: Vec2, factor: int) -> Vec2 {
        Vec2 {
            x: (self.dir.x + mul_fixed_spec(direction.x as int, factor)) as i64,
            y: (self.dir.y + mul_fixed_spec(direction.y as int, factor)) as i64,
        }
    }

    /// The agent after a force: the blended heading brought back to unit length. Where the
    /// force cancels the heading exactly, the heading stays as it was.
    pub open spec fn steered(self, direction: Vec2, factor: int) -> BoidState {
        match self.blended(direction, factor).normalized() {
            Some(unit) => BoidState { dir: unit, ..self },
            None => self,
        }
    }

    /// The corners of the agent's marker: a triangle whose tip lies 8 units ahead of the
    /// position and whose base lies 4 units behind it, 4 units to either side.
    pub open spec fn outline(self) -> (Vec2, Vec2, Vec2) {
        let side = match self.dir.perp_spec().normalized() {
            Some(unit) => unit,
            None => self.dir.perp_spec(),
        };
        (
            Vec2 {
                x: (self.pos.x - self.dir.x * 4 - side.x * 4) as i64,
                y: (self.pos.y - self.dir.y * 4 - side.y * 4) as i64,
            },
            Vec2 {
                x: (self.pos.x - self.dir.x * 4 + side.x * 4) as i64,
                y: (self.pos.y - self.dir.y * 4 + side.y * 4) as i64,
            },
            Vec2 { x: (self.pos.x + self.dir.x * 8) as i64, y: (self.pos.y + self.dir.y * 8) as i64 },
        )
    }

    /// The agent that four 32-bit samples place in an arena. The first two spread the
    /// position evenly over the arena; the last two, each taken from its midpoint, give the
    /// heading, which is `(1, 0)` where both lie on the midpoint.
    pub open spec fn sampled(arena: ArenaView, sx: u32, sy: u32, sdx: u32, sdy: u32) -> BoidState {
        let raw = Vec2 { x: (sdx - SAMPLE_MIDPOINT) as i64, y: (sdy - SAMPLE_MIDPOINT) as i64 };
        BoidState {
            pos: Vec2 {
                x: ((sx * (arena.width * SCALE)) / (SAMPLE_RANGE as int)) as i64,
                y: ((sy * (arena.height * SCALE)) / (SAMPLE_RANGE as int)) as i64,
            },
            dir: match raw.normalized() {
                Some(unit) => unit,
                None => Vec2 { x: SCALE, y: 0 },
            },
            vel: INITIAL_SPEED,
            detection_radius: INITIAL_DETECTION_RADIUS,
            comfort_zone: INITIAL_COMFORT_ZONE,
        }
    }
}

/// Some four samples place the agent in the arena.
pub open spec fn is_sampled(state: BoidState, arena: ArenaView) -> bool {
    exists|sx: u32, sy: u32, sdx: u32, sdy: u32| state == BoidState::sampled(arena, sx, sy, sdx, sdy)
}

/// The states of a flock.
pub open spec fn states(boids: Seq<Boid>) -> Seq<BoidState> {
    boids.map_values(|b: Boid| b@)
}

/// Every agent of the flock is well formed.
pub open spec fn all_wf(flock: Seq<BoidState>) -> bool {
    forall|i: int| 0 <= i < flock.len() ==> (#[trigger] flock[i]).wf()
}

/// Moving an agent keeps it well formed and leaves it in the arena or its margin, wherever
/// it was before.
pub proof fn lemma_updated_contained(state: BoidState, arena: ArenaView)
    requires
        state.wf(),
        arena.wf(),
    ensures
        state.updated(arena).wf(),
        arena.contains(state.updated(arena).pos),
{
    lemma_unit_bounds(state.dir);
    lemma_mul_fixed_bound(state.dir.x as int, state.vel as int, 2, MAX_SPEED as int);
    lemma_mul_fixed_bound(state.dir.y as int, state.vel as int, 2, MAX_SPEED as int);
}

/// A force keeps an agent well formed: the heading stays of unit length.
pub proof fn lemma_steered_wf(state: BoidState, direction: Vec2, factor: int)
    requires
        state.wf(),
    ensures
        state.steered(direction, factor).wf(),
        state.steered(direction, factor).pos == state.pos,
{
    let b = state.blended(direction, factor);
    if b.x != 0 || b.y != 0 {
        lemma_normalized_is_unit(b);
    }
}

impl View for Boid {
    type V = BoidState;

    closed spec fn view(&self) -> BoidState {
        BoidState {
            pos: self.pos,
            dir: self.dir,
            vel: self.vel,
            detection_radius: self.detection_radius,
            comfort_zone: self.comfort_zone,
        }
    }
}

impl Boid {
    /// An agent placed at random in the arena, with a random heading, a speed of one unit
    /// per tick, a detection radius of 100 units and a comfort radius of 20. Four samples
    /// are drawn from the generator: for x, y, and the two coordinates of the heading.
    pub fn new(arena: &Arena, rng: &mut StdRng) -> (boid: Boid)
        requires
            arena@.wf(),
        ensures
            boid@.wf(),
            is_sampled(boid@, arena@),
            0 <= boid@.pos.x <= arena@.width * SCALE,
            0 <= boid@.pos.y <= arena@.height * SCALE,
    {
        let sx: u32 = next_sample(rng);
        let sy: u32 = next_sample(rng);
        let sdx: u32 = next_sample(rng);
        let sdy: u32 = next_sample(rng);
        Boid::from_samples(arena, sx, sy, sdx, sdy)
    }

    /// The agent that four samples place in the arena, see `BoidState::sampled`.
    pub fn from_samples(arena: &Arena, sx: u32, sy: u32, sdx: u32, sdy: u32) -> (boid: Boid)
        requires
            arena@.wf(),
        ensures
            boid@ == BoidState::sampled(arena@, sx, sy, sdx, sdy),
            boid@.wf(),
            0 <= boid@.pos.x <= arena@.width * SCALE,
            0 <= boid@.pos.y <= arena@.height * SCALE,
    {
        let span_x: u128 = (arena.width() as u128) * (SCALE as u128);
        let span_y: u128 = (arena.height() as u128) * (SCALE as u128);
        proof {
            lemma_sample_in_span(sx as int, span_x as int);
            lemma_sample_in_span(sy as int, span_y as int);
        }
        let x: i64 = ((sx as u128) * span_x / (SAMPLE_RANGE as u128)) as i64;
        let y: i64 = ((sy as u128) * span_y / (SAMPLE_RANGE as u128)) as i64;
        let raw = Vec2 { x: sdx as i64 - SAMPLE_MIDPOINT, y: sdy as i64 - SAMPLE_MIDPOINT };
        let dir = match raw.normalize() {
            Some(unit) => unit,
            None => Vec2 { x: SCALE, y: 0 },
        };
        proof {
            assert(SCALE * SCALE + 0 * 0 == 1_000_000_000_000) by (nonlinear_arith);
            assert((SCALE - UNIT_TOLERANCE) * (SCALE - UNIT_TOLERANCE) <= 1_000_000_000_000)
                by (nonlinear_arith);
            assert((SCALE + UNIT_TOLERANCE) * (SCALE + UNIT_TOLERANCE) >= 1_000_000_000_000)
                by (nonlinear_arith);
        }
        Boid {
            pos: Vec2 { x, y },
            dir,
            vel: INITIAL_SPEED,
            detection_radius: INITIAL_DETECTION_RADIUS,
            comfort_zone: INITIAL_COMFORT_ZONE,
        }
    }

    /// An agent with the given state, or the first fault of that state.
    pub fn with_state(
        pos: Vec2,
        dir: Vec2,
        vel: i64,
        detection_radius: i64,
        comfort_zone: i64,
    ) -> (made: Result<Boid, ConfigError>)
        ensures
            ({
                let state = BoidState { pos, dir, vel, detection_radius, comfort_zone };
                match state.fault() {
                    Some(e) => made == Err::<Boid, ConfigError>(e),
                    None => made is Ok && made.unwrap()@ == state,
                }
            }),
            made is Ok <==> (BoidState { pos, dir, vel, detection_radius, comfort_zone }).wf(),
    {
        if pos.x < -PLANE_LIMIT || pos.x > PLANE_LIMIT || pos.y < -PLANE_LIMIT || pos.y
            > PLANE_LIMIT {
            Err(ConfigError::PositionOutOfRange)
        } else if !dir.has_unit_length() {
            Err(ConfigError::HeadingNotUnit)
        } else if vel < 0 || vel > MAX_SPEED {
            Err(ConfigError::SpeedOutOfRange)
        } else if detection_radius <= 0 || comfort_zone <= 0 {
            Err(ConfigError::RadiusNotPositive)
        } else if detection_radius > MAX_RADIUS {
            Err(ConfigError::RadiusTooLarge)
        } else if comfort_zone >= detection_radius {
            Err(ConfigError::ComfortNotBelowDetection)
        } else {
            Ok(Boid { pos, dir, vel, detection_radius, comfort_zone })
        }
    }

    /// Moves the agent one tick along its heading, then wraps it around the arena.
    pub fn update(&mut self, arena: &Arena)
        requires
            old(self)@.wf(),
            arena@.wf(),
        ensures
            final(self)@ == old(self)@.updated(arena@),
            final(self)@.wf(),
            arena@.contains(final(self)@.pos),
    {
        proof {
            lemma_unit_bounds(self.dir);
            lemma_mul_fixed_bound(self.dir.x as int, self.vel as int, 2, MAX_SPEED as int);
            lemma_mul_fixed_bound(self.dir.y as int, self.vel as int, 2, MAX_SPEED as int);
            lemma_updated_contained(self@, arena@);
        }
        let x: i64 = self.pos.x + mul_fixed(self.dir.x, self.vel);
        let y: i64 = self.pos.y + mul_fixed(self.dir.y, self.vel);
        self.pos = arena.wrap(Vec2 { x, y });
    }

    /// The position.
    pub fn get_pos(&self) -> (pos: Vec2)
        ensures
            pos == self@.pos,
    {
        self.pos
    }

    /// The heading.
    pub fn get_dir(&self) -> (dir: Vec2)
        ensures
            dir == self@.dir,
    {
        self.dir
    }

    /// The distance covered in one tick.
    pub fn get_vel(&self) -> (vel: i64)
        ensures
            vel == self@.vel,
    {
        self.vel
    }

    /// The x-coordinate in whole world units, rounded toward zero.
    pub fn get_x(&self) -> (x: i32)
        requires
            self@.wf(),
        ensures
            x == self@.cell().0,
    {
        (self.pos.x / SCALE) as i32
    }

    /// The y-coordinate in whole world units, rounded toward zero.
    pub fn get_y(&self) -> (y: i32)
        requires
            self@.wf(),
        ensures
            y == self@.cell().1,
    {
        (self.pos.y / SCALE) as i32
    }

    /// The lower left corner of the square of cells that is searched for neighbours, see
    /// `BoidState::area_anchor`.
    pub fn get_area_anchor(&self) -> (anchor: (i32, i32))
        requires
            self@.wf(),
        ensures
            anchor.0 == self@.area_anchor().0,
            anchor.1 == self@.area_anchor().1,
    {
        (
            ((self.pos.x - self.detection_radius) / SCALE) as i32,
            ((self.pos.y - self.detection_radius) / SCALE) as i32,
        )
    }

    /// The upper right corner of the square of cells that is searched for neighbours, see
    /// `BoidState::area_corner`.
    pub fn get_area_corner(&self) -> (corner: (i32, i32))
        requires
            self@.wf(),
        ensures
            corner.0 == self@.area_corner().0,
            corner.1 == self@.area_corner().1,
    {
        (
            ((self.pos.x + self.detection_radius) / SCALE) as i32,
            ((self.pos.y + self.detection_radius) / SCALE) as i32,
        )
    }

    /// The detection radius.
    pub fn get_radius(&self) -> (radius: i64)
        ensures
            radius == self@.detection_radius,
    {
        self.detection_radius
    }

    /// The comfort radius.
    pub fn get_comfort_zone(&self) -> (radius: i64)
        ensures
            radius == self@.comfort_zone,
    {
        self.comfort_zone
    }

    /// Turns the heading toward `unit_direction`: `factor` times the direction is added to
    /// the heading and the sum is brought back to unit length. A force that cancels the
    /// heading exactly leaves it as it was.
    pub fn apply_force(&mut self, unit_direction: Vec2, factor: i64)
        requires
            old(self)@.wf(),
            unit_direction.is_unit(),
            0 <= factor <= SCALE,
        ensures
            final(self)@ == old(self)@.steered(unit_direction, factor as int),
            final(self)@.wf(),
    {
        proof {
            lemma_unit_bounds(self.dir);
            lemma_unit_bounds(unit_direction);
            lemma_mul_fixed_bound(unit_direction.x as int, factor as int, 2, SCALE as int);
            lemma_mul_fixed_bound(unit_direction.y as int, factor as int, 2, SCALE as int);
        }
        let blend = Vec2 {
            x: self.dir.x + mul_fixed(unit_direction.x, factor),
            y: self.dir.y + mul_fixed(unit_direction.y, factor),
        };
        match blend.normalize() {
            Some(unit) => {
                self.dir = unit;
            },
            None => {},
        }
    }

    /// The corners of the agent's marker, see `BoidState::outline`.
    pub fn outline(&self) -> (corners: (Vec2, Vec2, Vec2))
        requires
            self@.wf(),
        ensures
            corners == self@.outline(),
    {
        proof {
            lemma_unit_bounds(self.dir);
        }
        let turned = self.dir.perp();
        let side = match turned.normalize() {
            Some(unit) => unit,
            None => turned,
        };
        proof {
            if turned.x != 0 || turned.y != 0 {
                lemma_unit_bounds(side);
            }
        }
        (
            Vec2 {
                x: self.pos.x - self.dir.x * 4 - side.x * 4,
                y: self.pos.y - self.dir.y * 4 - side.y * 4,
            },
            Vec2 {
                x: self.pos.x - self.dir.x * 4 + side.x * 4,
                y: self.pos.y - self.dir.y * 4 + side.y * 4,
            },
            Vec2 { x: self.pos.x + self.dir.x * 8, y: self.pos.y + self.dir.y * 8 },
        )
    }
}

/// A sample spreads a span evenly: the share of the span it picks lies within the span.
proof fn lemma_sample_in_span(sample: int, span: int)
    requires
        0 <= sample < SAMPLE_RANGE,
        0 <= span <= 0x1_0000_0000_0000,
    ensures
        0 <= (sample * span) / (SAMPLE_RANGE as int) <= span,
        sample * span <= 0xffff_ffff * 0x1_0000_0000_0000,
{
    let r = SAMPLE_RANGE as int;
    assert(0 <= sample * span <= span * r) by (nonlinear_arith)
        requires
            0 <= sample < r,
            0 <= span,
    ;
    assert((sample * span) / r <= span) by (nonlinear_arith)
        requires
            0 <= sample * span <= span * r,
            r > 0,
    ;
    assert((sample * span) / r >= 0) by (nonlinear_arith)
        requires
            0 <= sample * span,
            r > 0,
    ;
    assert(sample * span <= 0xffff_ffff * 0x1_0000_0000_0000) by (nonlinear_arith)
        requires
            0 <= sample <= 0xffff_ffff,
            0 <= span <= 0x1_0000_0000_0000,
    ;
}

} // verus!
