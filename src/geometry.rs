//! Positions on a floor, in whole micro-units (a millionth of a world unit).
//!
//! Floor `f` is a corridor at height `1 - 2f`; its entry and exit ends swap
//! sides from one floor to the next, so every trigger point depends on the
//! parity of `f`.
use vstd::prelude::*;
use crate::layout::MAX_FLOORS;

verus! {

/// Micro-units in one world unit.
pub const UNIT: i64 = 1_000_000;

/// Half a world unit.
pub const HALF: i64 = 500_000;

/// A point in world space, in micro-units.
#[derive(Clone, Copy, Debug, PartialEq, Eq, Structural)]
pub struct Point {
    pub x: i64,
    pub y: i64,
    pub z: i64,
}

/// Where a scene instance stands: a translation, and whether it is turned half
/// a revolution about the vertical axis.
#[derive(Clone, Copy, Debug, PartialEq, Eq, Structural)]
pub struct Placement {
    pub translation: Point,
    pub turned: bool,
}

pub open spec fn pt(x: int, y: int, z: int) -> Point {
    Point { x: x as i64, y: y as i64, z: z as i64 }
}

pub open spec fn sq(a: int) -> int {
    a * a
}

/// Squared Euclidean distance.
pub open spec fn dist_sq(p: Point, q: Point) -> int {
    sq(p.x - q.x) + sq(p.y - q.y) + sq(p.z - q.z)
}

/// `p` lies strictly within `radius` of `q`.
pub open spec fn near(p: Point, q: Point, radius: int) -> bool {
    dist_sq(p, q) < radius * radius
}

pub open spec fn is_even(f: int) -> bool {
    f % 2 == 0
}

/// Height of the walkway of floor `f`.
pub open spec fn floor_y(f: int) -> int {
    UNIT - 2 * UNIT * f
}

/// Depth of the corridor of floor `f`.
pub open spec fn floor_z(f: int) -> int {
    if is_even(f) { 6_500_000 } else { 500_000 }
}

/// Across-coordinate of the end where the player enters floor `f`.
pub open spec fn start_x(f: int) -> int {
    if is_even(f) { 7_500_000 } else { 500_000 }
}

/// Across-coordinate of the far end of floor `f`.
pub open spec fn end_x(f: int) -> int {
    if is_even(f) { 500_000 } else { 7_500_000 }
}

pub open spec fn center_point(f: int) -> Point {
    pt(4 * UNIT, floor_y(f), floor_z(f))
}

pub open spec fn start_point(f: int) -> Point {
    pt(start_x(f), floor_y(f), floor_z(f))
}

pub open spec fn end_point(f: int) -> Point {
    pt(end_x(f), floor_y(f), floor_z(f))
}

/// Half a unit below `q`: where a standing figure at `q` has its origin.
pub open spec fn lowered(q: Point) -> Point {
    pt(q.x as int, q.y - HALF, q.z as int)
}

/// Shared bounds of the corridor of floor `f`, as executable values.
pub struct Frame {
    pub floor_y: i64,
    pub floor_z: i64,
    pub start_x: i64,
    pub end_x: i64,
    pub even: bool,
}

pub open spec fn frame_of(f: int, fr: Frame) -> bool {
    &&& fr.floor_y == floor_y(f)
    &&& fr.floor_z == floor_z(f)
    &&& fr.start_x == start_x(f)
    &&& fr.end_x == end_x(f)
    &&& fr.even == is_even(f)
    &&& -3 * UNIT * (MAX_FLOORS as int) <= fr.floor_y <= UNIT
}

pub fn frame(f: usize) -> (r: Frame)
    requires
        f < MAX_FLOORS,
    ensures
        frame_of(f as int, r),
{
    let floor_y = 1_000_000 - 2_000_000 * (f as i64);
    let even = f % 2 == 0;
    if even {
        Frame { floor_y, floor_z: 6_500_000, start_x: 7_500_000, end_x: 500_000, even }
    } else {
        Frame { floor_y, floor_z: 500_000, start_x: 500_000, end_x: 7_500_000, even }
    }
}

/// Whether `p` lies strictly within `radius` of `q`, computed without overflow.
pub fn within(p: Point, q: Point, radius: i64) -> (r: bool)
    requires
        0 < radius <= 10 * UNIT,
    ensures
        r == near(p, q, radius as int),
{
    let dx: i128 = p.x as i128 - q.x as i128;
    let dy: i128 = p.y as i128 - q.y as i128;
    let dz: i128 = p.z as i128 - q.z as i128;
    let rr: i128 = radius as i128;
    proof {
        assert(sq(dx as int) >= 0) by (nonlinear_arith);
        assert(sq(dy as int) >= 0) by (nonlinear_arith);
        assert(sq(dz as int) >= 0) by (nonlinear_arith);
    }
    if dx <= -rr || dx >= rr {
        proof {
            assert(sq(dx as int) >= rr * rr) by (nonlinear_arith)
                requires
                    dx <= -rr || dx >= rr,
                    rr > 0,
            ;
        }
        return false;
    }
    if dy <= -rr || dy >= rr {
        proof {
            assert(sq(dy as int) >= rr * rr) by (nonlinear_arith)
                requires
                    dy <= -rr || dy >= rr,
                    rr > 0,
            ;
        }
        return false;
    }
    if dz <= -rr || dz >= rr {
        proof {
            assert(sq(dz as int) >= rr * rr) by (nonlinear_arith)
                requires
                    dz <= -rr || dz >= rr,
                    rr > 0,
            ;
        }
        return false;
    }
    proof {
        assert(dx * dx < 100 * UNIT * UNIT) by (nonlinear_arith)
            requires
                -rr < dx < rr,
                rr <= 10 * UNIT,
        ;
        assert(dy * dy < 100 * UNIT * UNIT) by (nonlinear_arith)
            requires
                -rr < dy < rr,
                rr <= 10 * UNIT,
        ;
        assert(dz * dz < 100 * UNIT * UNIT) by (nonlinear_arith)
            requires
                -rr < dz < rr,
                rr <= 10 * UNIT,
        ;
        assert(rr * rr <= 100 * UNIT * UNIT) by (nonlinear_arith)
            requires
                0 < rr <= 10 * UNIT,
        ;
    }
    dx * dx + dy * dy + dz * dz < rr * rr
}

/// Where the room shell of floor slot `i` stands.
pub open spec fn floor_placement(i: int) -> Placement {
    if is_even(i) {
        Placement { translation: pt(0, -2 * UNIT * i, 0), turned: false }
    } else {
        Placement { translation: pt(8 * UNIT, -2 * UNIT * i, 7 * UNIT), turned: true }
    }
}

/// Where the room shell of floor slot `i` stands: odd slots are turned and
/// shifted so that the corridors zig-zag down the shaft.
pub fn floor_transform(i: usize) -> (r: Placement)
    requires
        i < MAX_FLOORS,
    ensures
        r == floor_placement(i as int),
{
    let y = -2_000_000 * (i as i64);
    if i % 2 == 0 {
        Placement { translation: Point { x: 0, y, z: 0 }, turned: false }
    } else {
        Placement { translation: Point { x: 8 * UNIT, y, z: 7 * UNIT }, turned: true }
    }
}

/// Where the floor sign of slot `i` stands, lying flat and facing up; on even
/// slots it is also turned half a revolution.
pub open spec fn label_placement(i: int) -> Placement {
    if is_even(i) {
        Placement { translation: pt(-240_000, -2 * UNIT * i - 600_000, HALF as int), turned: true }
    } else {
        Placement { translation: pt(8_240_000, -2 * UNIT * i - 600_000, 6_500_000), turned: false }
    }
}

/// Where the floor sign of slot `i` stands.
pub fn room_label_transform(i: usize) -> (r: Placement)
    requires
        i < MAX_FLOORS,
    ensures
        r == label_placement(i as int),
{
    let y = -2_000_000 * (i as i64) - 600_000;
    if i % 2 == 0 {
        Placement { translation: Point { x: -240_000, y, z: HALF }, turned: true }
    } else {
        Placement { translation: Point { x: 8_240_000, y, z: 6_500_000 }, turned: false }
    }
}

} // verus!
