//! The arena in which the flock moves, and the faults a configuration can have.

use vstd::prelude::*;
use vstd::arithmetic::power2::{lemma2_to64, lemma_pow2_strictly_increases, lemma_pow2_unfold, pow2};
use crate::fixed::SCALE;
use crate::vec2::Vec2;

verus! {

/// Largest width or height of an arena, in world units.
pub const MAX_EXTENT: i32 = 16_777_216;

/// Largest overscan margin, in world units.
pub const MAX_MARGIN: i32 = 1_048_576;

/// Deepest spatial index an arena can ask for: `2^25` covers the largest arena with the
/// largest margin on either side.
pub const MAX_DEPTH: usize = 25;

/// Why a configuration was turned down.
#[derive(Clone, Copy, Debug, PartialEq, Eq, Structural)]
pub enum ConfigError {
    /// A width or height is negative or above `MAX_EXTENT`.
    ExtentOutOfRange,
    /// The margin is negative or above `MAX_MARGIN`.
    MarginOutOfRange,
    /// A coordinate of the position lies beyond the plane.
    PositionOutOfRange,
    /// The heading's length is not one unit within the tolerance.
    HeadingNotUnit,
    /// The speed is negative or above the largest speed.
    SpeedOutOfRange,
    /// The detection or the comfort radius is zero or negative.
    RadiusNotPositive,
    /// The detection radius is above the largest radius.
    RadiusTooLarge,
    /// The comfort radius is not strictly below the detection radius.
    ComfortNotBelowDetection,
    /// The flock has more agents than the index can number.
    TooManyAgents,
    /// An agent lies outside the arena and its margin.
    OutsideArena,
}

/// A rectangle `[0, width] x [0, height]` of world units, with a margin around it in which
/// an agent that is leaving is still kept before it reappears on the opposite side.
#[derive(Clone, Copy, Debug)]
pub struct Arena {
    width: i32,
    height: i32,
    margin: i32,
}

/// What an arena is made of, in world units.
pub struct ArenaView {
    pub width: int,
    pub height: int,
    pub margin: int,
}

impl ArenaView {
    /// The extents and the margin are in range.
    pub open spec fn wf(self) -> bool {
        &&& 0 <= self.width <= MAX_EXTENT
        &&& 0 <= self.height <= MAX_EXTENT
        &&& 0 <= self.margin <= MAX_MARGIN
    }

    /// The lowest coordinate an agent is kept at, on either axis.
    pub open spec fn low(self) -> int {
        -self.margin * SCALE
    }

    /// The highest x-coordinate an agent is kept at.
    pub open spec fn high_x(self) -> int {
        (self.width + self.margin) * SCALE
    }

    /// The highest y-coordinate an agent is kept at.
    pub open spec fn high_y(self) -> int {
        (self.height + self.margin) * SCALE
    }

    /// The point lies in the arena or its margin.
    pub open spec fn contains(self, p: Vec2) -> bool {
        &&& self.low() <= p.x <= self.high_x()
        &&& self.low() <= p.y <= self.high_y()
    }

    /// The toroidal wrap, each axis on its own: a coordinate that has passed the low bound is
    /// sent to the high bound, one that has passed the high bound to the low bound, and one
    /// that lies within the bounds, or on one, stays.
    pub open spec fn wrapped(self, p: Vec2) -> Vec2 {
        Vec2 {
            x: if p.x < self.low() {
                self.high_x() as i64
            } else if p.x > self.high_x() {
                self.low() as i64
            } else {
                p.x
            },
            y: if p.y < self.low() {
                self.high_y() as i64
            } else if p.y > self.high_y() {
                self.low() as i64
            } else {
                p.y
            },
        }
    }

    /// The larger of the two extents.
    pub open spec fn longer_side(self) -> int {
        if self.width > self.height {
            self.width
        } else {
            self.height
        }
    }

    /// The number of cells, along the longer side, in which an agent can lie: the side and
    /// the margin before and behind it.
    pub open spec fn span(self) -> int {
        self.longer_side() + 2 * self.margin + 1
    }
}

/// `depth` is the least depth, and at least 1, at which a square of side `2^depth` covers
/// `extent`.
pub open spec fn is_depth_for(depth: nat, extent: int) -> bool {
    &&& depth >= 1
    &&& pow2(depth) >= extent
    &&& depth > 1 ==> pow2((depth - 1) as nat) < extent
}

/// Only one depth is the least that covers an extent.
pub proof fn lemma_depth_unique(d1: nat, d2: nat, extent: int)
    requires
        is_depth_for(d1, extent),
        is_depth_for(d2, extent),
    ensures
        d1 == d2,
{
    if d1 < d2 {
        if d1 < d2 - 1 {
            lemma_pow2_strictly_increases(d1, (d2 - 1) as nat);
        }
    } else if d2 < d1 {
        if d2 < d1 - 1 {
            lemma_pow2_strictly_increases(d2, (d1 - 1) as nat);
        }
    }
}

/// The depth of the spatial index for an arena: the least, and at least 1, whose square
/// covers the arena and its margin.
pub open spec fn depth_of(arena: ArenaView) -> nat {
    choose|depth: nat| is_depth_for(depth, arena.span())
}

impl View for Arena {
    type V = ArenaView;

    closed spec fn view(&self) -> ArenaView {
        ArenaView { width: self.width as int, height: self.height as int, margin: self.margin as int }
    }
}

impl Arena {
    /// The fault of a configuration, if it has one: the extents are looked at before the
    /// margin.
    pub open spec fn fault(width: int, height: int, margin: int) -> Option<ConfigError> {
        if width < 0 || width > MAX_EXTENT || height < 0 || height > MAX_EXTENT {
            Some(ConfigError::ExtentOutOfRange)
        } else if margin < 0 || margin > MAX_MARGIN {
            Some(ConfigError::MarginOutOfRange)
        } else {
            None
        }
    }

    /// An arena of the given extents and margin, in world units.
    pub fn new(width: i32, height: i32, margin: i32) -> (made: Result<Arena, ConfigError>)
        ensures
            match Arena::fault(width as int, height as int, margin as int) {
                Some(e) => made == Err::<Arena, ConfigError>(e),
                None => made is Ok && made.unwrap()@ == (ArenaView {
                    width: width as int,
                    height: height as int,
                    margin: margin as int,
                }) && made.unwrap()@.wf(),
            },
    {
        if width < 0 || width > MAX_EXTENT || height < 0 || height > MAX_EXTENT {
            Err(ConfigError::ExtentOutOfRange)
        } else if margin < 0 || margin > MAX_MARGIN {
            Err(ConfigError::MarginOutOfRange)
        } else {
            Ok(Arena { width, height, margin })
        }
    }

    pub fn width(&self) -> (w: i32)
        ensures
            w == self@.width,
    {
        self.width
    }

    pub fn height(&self) -> (h: i32)
        ensures
            h == self@.height,
    {
        self.height
    }

    pub fn margin(&self) -> (m: i32)
        ensures
            m == self@.margin,
    {
        self.margin
    }

    /// The depth of the spatial index for this arena: the least depth whose square covers
    /// the longer side with the margin on either side, and never less than 1.
    pub fn index_depth(&self) -> (depth: usize)
        requires
            self@.wf(),
        ensures
            is_depth_for(depth as nat, self@.span()),
            depth == depth_of(self@),
            depth <= MAX_DEPTH,
    {
        let longer: i32 = if self.width > self.height { self.width } else { self.height };
        let extent: i32 = longer + 2 * self.margin + 1;
        let mut depth: usize = 1;
        let mut side: i32 = 2;
        proof {
            lemma2_to64();
        }
        while side < extent
            invariant
                1 <= depth <= MAX_DEPTH,
                side == pow2(depth as nat),
                depth > 1 ==> pow2((depth - 1) as nat) < extent,
                extent <= MAX_EXTENT + 2 * MAX_MARGIN + 1,
                depth == MAX_DEPTH ==> side >= extent,
            decreases MAX_DEPTH - depth,
        {
            proof {
                lemma2_to64();
                lemma_pow2_unfold((depth + 1) as nat);
                if depth + 1 < MAX_DEPTH {
                    lemma_pow2_strictly_increases((depth + 1) as nat, MAX_DEPTH as nat);
                }
            }
            side = side * 2;
            depth = depth + 1;
        }
        proof {
            assert(extent == self@.span());
            assert(is_depth_for(depth as nat, self@.span()));
            lemma_depth_unique(depth as nat, depth_of(self@), self@.span());
        }
        depth
    }

    /// Whether the point lies in the arena or its margin.
    pub fn contains(&self, p: Vec2) -> (inside: bool)
        requires
            self@.wf(),
        ensures
            inside == self@.contains(p),
    {
        let low: i64 = -(self.margin as i64) * SCALE;
        let high_x: i64 = (self.width as i64 + self.margin as i64) * SCALE;
        let high_y: i64 = (self.height as i64 + self.margin as i64) * SCALE;
        low <= p.x && p.x <= high_x && low <= p.y && p.y <= high_y
    }

    /// The wrapped position of a point, see `ArenaView::wrapped`.
    pub fn wrap(&self, p: Vec2) -> (q: Vec2)
        requires
            self@.wf(),
        ensures
            q == self@.wrapped(p),
    {
        let low: i64 = -(self.margin as i64) * SCALE;
        let high_x: i64 = (self.width as i64 + self.margin as i64) * SCALE;
        let high_y: i64 = (self.height as i64 + self.margin as i64) * SCALE;
        Vec2 {
            x: if p.x < low {
                high_x
            } else if p.x > high_x {
                low
            } else {
                p.x
            },
            y: if p.y < low {
                high_y
            } else if p.y > high_y {
                low
            } else {
                p.y
            },
        }
    }
}

} // verus!
