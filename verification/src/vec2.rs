//! Points and directions of the plane, in fixed-point coordinates.

use vstd::prelude::*;
use crate::fixed::{div_trunc, is_sqrt_floor, isqrt, lemma_sqrt_floor_exists, sqrt_floor, SCALE};

verus! {

/// How far, in fixed-point steps, the length of a heading may lie from one unit.
pub const UNIT_TOLERANCE: i64 = 10;

/// Largest magnitude of a coordinate between which distances are measured.
pub const COORD_LIMIT: i64 = 0x4000_0000_0000_0000;

/// A point or a direction; each coordinate counts millionths of a world unit.
#[derive(Clone, Copy, Debug, PartialEq, Eq, Structural)]
pub struct Vec2 {
    pub x: i64,
    pub y: i64,
}

/// The magnitude of an integer.
pub open spec fn magnitude_spec(a: int) -> int {
    if a >= 0 {
        a
    } else {
        -a
    }
}

impl Vec2 {
    /// The square of the vector's length.
    pub open spec fn length_squared_spec(self) -> nat {
        (self.x * self.x + self.y * self.y) as nat
    }

    /// The square of the distance between two points.
    pub open spec fn distance_squared_spec(self, other: Vec2) -> nat {
        ((self.x - other.x) * (self.x - other.x) + (self.y - other.y) * (self.y - other.y)) as nat
    }

    /// The two points lie no further than `radius` apart.
    pub open spec fn within_spec(self, other: Vec2, radius: int) -> bool {
        radius >= 0 && self.distance_squared_spec(other) <= radius * radius
    }

    /// Both coordinates are small enough for distances to be measured.
    pub open spec fn measurable(self) -> bool {
        &&& -COORD_LIMIT <= self.x <= COORD_LIMIT
        &&& -COORD_LIMIT <= self.y <= COORD_LIMIT
    }

    /// The length is one unit, give or take `UNIT_TOLERANCE` steps.
    pub open spec fn is_unit(self) -> bool {
        let q = self.x * self.x + self.y * self.y;
        (SCALE - UNIT_TOLERANCE) * (SCALE - UNIT_TOLERANCE) <= q <= (SCALE + UNIT_TOLERANCE) * (
        SCALE + UNIT_TOLERANCE)
    }

    /// The coordinates from which the unit vector is computed: a vector shorter than one unit
    /// is magnified by `SCALE` first, so that rounding its length cannot bend the result.
    pub open spec fn magnified(self) -> (int, int) {
        if self.length_squared_spec() < SCALE * SCALE {
            (self.x * SCALE, self.y * SCALE)
        } else {
            (self.x as int, self.y as int)
        }
    }

    /// The vector of unit length that points along `self`, each coordinate rounded toward
    /// zero; the zero vector has none.
    pub open spec fn normalized(self) -> Option<Vec2> {
        if self.x == 0 && self.y == 0 {
            None
        } else {
            let (wx, wy) = self.magnified();
            let n = sqrt_floor((wx * wx + wy * wy) as nat) as int;
            Some(
                Vec2 {
                    x: div_trunc(wx * SCALE, n) as i64,
                    y: div_trunc(wy * SCALE, n) as i64,
                },
            )
        }
    }

    /// The vector turned a quarter turn: `(x, y)` becomes `(-y, x)`.
    pub open spec fn perp_spec(self) -> Vec2 {
        Vec2 { x: (-self.y) as i64, y: self.x }
    }

    /// The vector with the given coordinates.
    pub fn new(x: i64, y: i64) -> (v: Vec2)
        ensures
            v == (Vec2 { x, y }),
    {
        Vec2 { x, y }
    }

    /// The square of the vector's length.
    pub fn length_squared(&self) -> (q: u128)
        ensures
            q == self.length_squared_spec(),
    {
        let ax: u128 = magnitude(self.x);
        let ay: u128 = magnitude(self.y);
        proof {
            lemma_square_le(ax as nat, 0x8000_0000_0000_0000);
            lemma_square_le(ay as nat, 0x8000_0000_0000_0000);
            assert(ax * ax == self.x * self.x) by (nonlinear_arith)
                requires
                    ax == self.x || ax == -self.x,
            ;
            assert(ay * ay == self.y * self.y) by (nonlinear_arith)
                requires
                    ay == self.y || ay == -self.y,
            ;
        }
        ax * ax + ay * ay
    }

    /// The square of the distance to `other`.
    pub fn distance_squared(&self, other: &Vec2) -> (q: u128)
        requires
            self.measurable(),
            other.measurable(),
        ensures
            q == self.distance_squared_spec(*other),
    {
        let dx: i128 = self.x as i128 - other.x as i128;
        let dy: i128 = self.y as i128 - other.y as i128;
        let ax: u128 = if dx >= 0 { dx as u128 } else { (-dx) as u128 };
        let ay: u128 = if dy >= 0 { dy as u128 } else { (-dy) as u128 };
        proof {
            lemma_square_le(ax as nat, 0x8000_0000_0000_0000);
            lemma_square_le(ay as nat, 0x8000_0000_0000_0000);
            assert(ax * ax == dx * dx) by (nonlinear_arith)
                requires
                    ax == dx || ax == -dx,
            ;
            assert(ay * ay == dy * dy) by (nonlinear_arith)
                requires
                    ay == dy || ay == -dy,
            ;
        }
        ax * ax + ay * ay
    }

    /// Whether `other` lies no further than `radius` away.
    pub fn within(&self, other: &Vec2, radius: i64) -> (near: bool)
        requires
            self.measurable(),
            other.measurable(),
        ensures
            near == self.within_spec(*other, radius as int),
    {
        if radius < 0 {
            return false;
        }
        let r: u128 = radius as u128;
        proof {
            lemma_square_le(r as nat, 0x8000_0000_0000_0000);
        }
        self.distance_squared(other) <= r * r
    }

    /// The vector of unit length that points along `self`, or `None` for the zero vector.
    pub fn normalize(&self) -> (unit: Option<Vec2>)
        ensures
            unit == self.normalized(),
            unit is None <==> (self.x == 0 && self.y == 0),
            unit is Some ==> unit.unwrap().is_unit(),
    {
        if self.x == 0 && self.y == 0 {
            return None;
        }
        let ghost (wx, wy) = self.magnified();
        proof {
            lemma_normalized_parts(*self);
            lemma_square_of_magnitude(wx);
            lemma_square_of_magnitude(wy);
            assert(SCALE * SCALE == 1_000_000_000_000) by (nonlinear_arith);
        }
        let short: bool = self.length_squared() < (SCALE as u128) * (SCALE as u128);
        let ax: u128 = if short { magnitude(self.x) * (SCALE as u128) } else { magnitude(self.x) };
        let ay: u128 = if short { magnitude(self.y) * (SCALE as u128) } else { magnitude(self.y) };
        assert(ax == magnitude_spec(wx) && ay == magnitude_spec(wy));
        let n: u128 = isqrt(ax * ax + ay * ay) as u128;
        let qx: i64 = (ax * (SCALE as u128) / n) as i64;
        let qy: i64 = (ay * (SCALE as u128) / n) as i64;
        Some(Vec2 { x: if self.x < 0 { -qx } else { qx }, y: if self.y < 0 { -qy } else { qy } })
    }

    /// Whether the length is one unit within the tolerance.
    pub fn has_unit_length(&self) -> (unit: bool)
        ensures
            unit == self.is_unit(),
    {
        let q: u128 = self.length_squared();
        assert(self.x * self.x + self.y * self.y >= 0) by (nonlinear_arith);
        assert((SCALE - UNIT_TOLERANCE) * (SCALE - UNIT_TOLERANCE) == 999_980_000_100) by (nonlinear_arith);
        assert((SCALE + UNIT_TOLERANCE) * (SCALE + UNIT_TOLERANCE) == 1_000_020_000_100) by (nonlinear_arith);
        999_980_000_100 <= q && q <= 1_000_020_000_100
    }

    /// The vector turned a quarter turn.
    pub fn perp(&self) -> (p: Vec2)
        requires
            self.y > i64::MIN,
        ensures
            p == self.perp_spec(),
    {
        Vec2 { x: -self.y, y: self.x }
    }
}

/// The magnitude of a 64-bit coordinate.
fn magnitude(a: i64) -> (m: u128)
    ensures
        m == (if a >= 0 { a as int } else { -(a as int) }),
        m <= 0x8000_0000_0000_0000,
{
    if a >= 0 {
        a as u128
    } else {
        (-(a as i128)) as u128
    }
}

/// Squaring keeps the order of natural numbers.
proof fn lemma_square_le(a: nat, b: nat)
    requires
        a <= b,
    ensures
        a * a <= b * b,
{
    assert(a * a <= b * b) by (nonlinear_arith)
        requires
            a <= b,
    ;
}

/// Squaring keeps the strict order of natural numbers.
proof fn lemma_square_lt(a: nat, b: nat)
    requires
        a < b,
    ensures
        a * a < b * b,
{
    assert(a * a < b * b) by (nonlinear_arith)
        requires
            a < b,
    ;
}

/// The coordinates of a vector shorter than `s` are below `s`.
proof fn lemma_short_coordinates(a: nat, b: nat, s: nat)
    requires
        a * a + b * b < s * s,
    ensures
        a < s,
        b < s,
{
    assert(a < s && b < s) by (nonlinear_arith)
        requires
            a * a + b * b < s * s,
    ;
}

/// The rounded-down quotient `a / n` times `n` brackets `a`.
proof fn lemma_floor_quotient(a: nat, n: nat)
    requires
        n > 0,
    ensures
        (a / n) * n <= a,
        a < (a / n + 1) * n,
{
    vstd::arithmetic::div_mod::lemma_fundamental_div_mod(a as int, n as int);
    vstd::arithmetic::div_mod::lemma_mod_bound(a as int, n as int);
    assert(n * (a / n) == (a / n) * n) by (nonlinear_arith);
    assert((a / n + 1) * n == (a / n) * n + n) by (nonlinear_arith);
}

/// Rounding the quotient toward zero commutes with negation.
proof fn lemma_div_trunc_signed(a: int, mag: int, scale: int, n: int)
    requires
        scale > 0,
        n > 0,
        mag == (if a >= 0 { a } else { -a }),
    ensures
        div_trunc(a * scale, n) == (if a >= 0 { (mag * scale) / n } else { -((mag * scale) / n) }),
{
    assert(a >= 0 ==> a * scale >= 0) by (nonlinear_arith)
        requires
            scale > 0,
    ;
    assert(a < 0 ==> a * scale < 0 && -(a * scale) == (-a) * scale) by (nonlinear_arith)
        requires
            scale > 0,
    ;
}

/// Dividing two coordinates, scaled by `s`, by the rounded length they span gives a vector
/// whose length is within 10 steps of `s`.
proof fn lemma_quotients_nearly_unit(x: nat, y: nat, n: nat, s: nat)
    requires
        s >= 100,
        n >= s,
        is_sqrt_floor(n, x * x + y * y),
    ensures
        ({
            let px = (x * s) / n;
            let py = (y * s) / n;
            &&& px <= s
            &&& py <= s
            &&& (s - 10) * (s - 10) <= px * px + py * py
            &&& px * px + py * py <= (s + 10) * (s + 10)
        }),
{
    let px = (x * s) / n;
    let py = (y * s) / n;
    let m = x * x + y * y;
    lemma_floor_quotient(x * s, n);
    lemma_floor_quotient(y * s, n);
    // The quotients do not overshoot.
    lemma_square_le(px * n, x * s);
    lemma_square_le(py * n, y * s);
    assert((px * n) * (px * n) == (px * px) * (n * n)) by (nonlinear_arith);
    assert((py * n) * (py * n) == (py * py) * (n * n)) by (nonlinear_arith);
    assert((x * s) * (x * s) == (x * x) * (s * s)) by (nonlinear_arith);
    assert((y * s) * (y * s) == (y * y) * (s * s)) by (nonlinear_arith);
    assert((px * px + py * py) * (n * n) <= m * (s * s)) by (nonlinear_arith)
        requires
            (px * px) * (n * n) <= (x * x) * (s * s),
            (py * py) * (n * n) <= (y * y) * (s * s),
            m == x * x + y * y,
    ;
    assert(m * (s * s) < ((n + 1) * (n + 1)) * (s * s)) by (nonlinear_arith)
        requires
            m < (n + 1) * (n + 1),
            s >= 100,
    ;
    assert(((n + 1) * (n + 1)) * (s * s) <= ((s + 1) * (s + 1)) * (n * n)) by (nonlinear_arith)
        requires
            n >= s,
            s >= 100,
    ;
    assert(px * px + py * py < (s + 1) * (s + 1)) by (nonlinear_arith)
        requires
            (px * px + py * py) * (n * n) < ((s + 1) * (s + 1)) * (n * n),
            n >= 100,
    ;
    assert((s + 1) * (s + 1) <= (s + 10) * (s + 10)) by (nonlinear_arith);
    assert(px <= s && py <= s) by (nonlinear_arith)
        requires
            px * px + py * py < (s + 1) * (s + 1),
    ;
    // Nor do they fall far short.
    lemma_square_lt(x * s, (px + 1) * n);
    lemma_square_lt(y * s, (py + 1) * n);
    assert(((px + 1) * n) * ((px + 1) * n) == ((px + 1) * (px + 1)) * (n * n)) by (nonlinear_arith);
    assert(((py + 1) * n) * ((py + 1) * n) == ((py + 1) * (py + 1)) * (n * n)) by (nonlinear_arith);
    assert(m * (s * s) >= (n * n) * (s * s)) by (nonlinear_arith)
        requires
            m >= n * n,
    ;
    assert(((px + 1) * (px + 1) + (py + 1) * (py + 1)) * (n * n) > (s * s) * (n * n)) by (nonlinear_arith)
        requires
            ((px + 1) * (px + 1)) * (n * n) > (x * x) * (s * s),
            ((py + 1) * (py + 1)) * (n * n) > (y * y) * (s * s),
            m == x * x + y * y,
            m * (s * s) >= (n * n) * (s * s),
    ;
    assert((px + 1) * (px + 1) + (py + 1) * (py + 1) > s * s) by (nonlinear_arith)
        requires
            ((px + 1) * (px + 1) + (py + 1) * (py + 1)) * (n * n) > (s * s) * (n * n),
            n >= 100,
    ;
    if px * px + py * py < (s - 10) * (s - 10) {
        assert(px <= s - 11 && py <= s - 11) by (nonlinear_arith)
            requires
                px * px + py * py < (s - 10) * (s - 10),
                s >= 100,
        ;
        assert((px + 1) * (px + 1) + (py + 1) * (py + 1) <= s * s) by (nonlinear_arith)
            requires
                px * px + py * py < (s - 10) * (s - 10),
                px <= s - 11,
                py <= s - 11,
                s >= 100,
        ;
    }
}

/// The square of an integer's magnitude is the integer's square.
proof fn lemma_square_of_magnitude(a: int)
    ensures
        magnitude_spec(a) * magnitude_spec(a) == a * a,
{
    let m = magnitude_spec(a);
    assert(m * m == a * a) by (nonlinear_arith)
        requires
            m == a || m == -a,
    ;
}

/// The parts of which the unit vector along `v` is made. The magnified vector's squared
/// length fits 128 bits and its rounded length is at least one unit; each coordinate's
/// quotient is at most one unit and takes the coordinate's sign; and the vector that the
/// quotients make has unit length.
proof fn lemma_normalized_parts(v: Vec2)
    requires
        v.x != 0 || v.y != 0,
    ensures
        ({
            let (wx, wy) = v.magnified();
            let n = sqrt_floor((wx * wx + wy * wy) as nat) as int;
            let qx = (magnitude_spec(wx) * SCALE) / n;
            let qy = (magnitude_spec(wy) * SCALE) / n;
            &&& 0 <= wx * wx
            &&& 0 <= wy * wy
            &&& wx * wx + wy * wy <= 0x8000_0000_0000_0000_0000_0000_0000_0000
            &&& is_sqrt_floor(n as nat, (wx * wx + wy * wy) as nat)
            &&& n >= SCALE
            &&& 0 <= qx <= SCALE
            &&& 0 <= qy <= SCALE
            &&& v.normalized() == Some(
                Vec2 { x: (if v.x < 0 { -qx } else { qx }) as i64, y: (if v.y < 0 { -qy } else { qy }) as i64 },
            )
            &&& v.normalized().unwrap().is_unit()
        }),
{
    let (wx, wy) = v.magnified();
    let ax = magnitude_spec(wx) as nat;
    let ay = magnitude_spec(wy) as nat;
    let bx = magnitude_spec(v.x as int) as nat;
    let by = magnitude_spec(v.y as int) as nat;
    let m = (wx * wx + wy * wy) as nat;
    lemma_square_of_magnitude(wx);
    lemma_square_of_magnitude(wy);
    lemma_square_of_magnitude(v.x as int);
    lemma_square_of_magnitude(v.y as int);
    assert(bx * bx + by * by >= 1) by (nonlinear_arith)
        requires
            bx >= 1 || by >= 1,
    ;
    assert(SCALE * SCALE == 1_000_000_000_000) by (nonlinear_arith);
    if v.length_squared_spec() < SCALE * SCALE {
        lemma_short_coordinates(bx, by, SCALE as nat);
        assert(ax * ax == (bx * bx) * 1_000_000_000_000 && ay * ay == (by * by) * 1_000_000_000_000)
            by (nonlinear_arith)
            requires
                ax == bx * 1_000_000,
                ay == by * 1_000_000,
        ;
    } else {
        lemma_square_le(bx, 0x8000_0000_0000_0000);
        lemma_square_le(by, 0x8000_0000_0000_0000);
    }
    assert(m >= 1_000_000_000_000);
    lemma_sqrt_floor_exists(m);
    let n = sqrt_floor(m);
    assert(n >= 1_000_000) by (nonlinear_arith)
        requires
            m < (n + 1) * (n + 1),
            m >= 1_000_000_000_000,
    ;
    lemma_quotients_nearly_unit(ax, ay, n, SCALE as nat);
    lemma_div_trunc_signed(wx, ax as int, SCALE as int, n as int);
    lemma_div_trunc_signed(wy, ay as int, SCALE as int, n as int);
    let u = v.normalized().unwrap();
    lemma_square_of_magnitude(u.x as int);
    lemma_square_of_magnitude(u.y as int);
}

/// A vector that has a direction has a unit vector, whose length is one unit within the
/// tolerance.
pub proof fn lemma_normalized_is_unit(v: Vec2)
    requires
        v.x != 0 || v.y != 0,
    ensures
        v.normalized() is Some,
        v.normalized().unwrap().is_unit(),
{
    lemma_normalized_parts(v);
}

/// Neither coordinate of a unit vector exceeds one unit by more than the tolerance, and the
/// vector is not zero.
pub proof fn lemma_unit_bounds(v: Vec2)
    requires
        v.is_unit(),
    ensures
        -(SCALE + UNIT_TOLERANCE) <= v.x <= SCALE + UNIT_TOLERANCE,
        -(SCALE + UNIT_TOLERANCE) <= v.y <= SCALE + UNIT_TOLERANCE,
        v.x != 0 || v.y != 0,
{
    let x = v.x as int;
    let y = v.y as int;
    let t = (SCALE + UNIT_TOLERANCE) as int;
    assert(-t <= x <= t && -t <= y <= t) by (nonlinear_arith)
        requires
            x * x + y * y <= t * t,
            t >= 0,
    ;
    assert((SCALE - UNIT_TOLERANCE) * (SCALE - UNIT_TOLERANCE) > 0) by (nonlinear_arith);
    assert(x == 0 && y == 0 ==> x * x + y * y == 0) by (nonlinear_arith);
}

} // verus!
