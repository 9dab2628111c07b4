//! Points and the bounded coordinate band the scene works in.
//!
//! Coordinates are whole canvas units. They are kept inside
//! `[COORD_MIN, COORD_MAX]` so that the handful of additions and
//! subtractions the scene performs (hit tests, translations, curve
//! anchors) stay far away from the edges of `i64`.

use vstd::prelude::*;

verus! {

/// Smallest coordinate the scene accepts.
pub const COORD_MIN: i64 = -1_000_000_000_000;

/// Largest coordinate the scene accepts.
pub const COORD_MAX: i64 = 1_000_000_000_000;

/// A position on the canvas.
#[derive(Clone, Copy, PartialEq, Eq, Structural, Debug)]
pub struct Point {
    pub x: i64,
    pub y: i64,
}

pub open spec fn coord_in_range(c: int) -> bool {
    COORD_MIN <= c <= COORD_MAX
}

pub open spec fn point_in_range(p: Point) -> bool {
    coord_in_range(p.x as int) && coord_in_range(p.y as int)
}

pub open spec fn clamp_coord_spec(c: int) -> int {
    if c < COORD_MIN {
        COORD_MIN as int
    } else if c > COORD_MAX {
        COORD_MAX as int
    } else {
        c
    }
}

/// Force a coordinate into the accepted band.
pub fn clamp_coord(c: i64) -> (r: i64)
    ensures
        r == clamp_coord_spec(c as int),
        coord_in_range(r as int),
{
    if c < COORD_MIN {
        COORD_MIN
    } else if c > COORD_MAX {
        COORD_MAX
    } else {
        c
    }
}

pub open spec fn clamp_point_spec(x: int, y: int) -> Point {
    Point { x: clamp_coord_spec(x) as i64, y: clamp_coord_spec(y) as i64 }
}

impl Point {
    pub fn new(x: i64, y: i64) -> (p: Point)
        ensures
            p == (Point { x, y }),
    {
        Point { x, y }
    }
}

/// Force a point into the accepted band, one coordinate at a time.
pub fn clamp_point(p: Point) -> (r: Point)
    ensures
        r == clamp_point_spec(p.x as int, p.y as int),
        point_in_range(r),
{
    Point { x: clamp_coord(p.x), y: clamp_coord(p.y) }
}

} // verus!
