//! Lattice points and axis-aligned rectangles.
use vstd::prelude::*;

verus! {

/// Largest magnitude of a coordinate that the tree accepts: the sum of two
/// coordinates must stay inside `i64`.
pub const COORD_LIMIT: i64 = 0x2000_0000_0000_0000;

/// A point of the integer lattice.
#[derive(Clone, Copy, Debug, PartialEq, Eq, Structural)]
pub struct Point {
    pub x: i64,
    pub y: i64,
}

/// Floor of the mean of two integers.
pub open spec fn mid(a: int, b: int) -> int {
    (a + b) / 2
}

pub open spec fn coord_ok(a: int) -> bool {
    -COORD_LIMIT <= a <= COORD_LIMIT
}

impl Point {
    pub fn new(x: i64, y: i64) -> (r: Point)
        ensures
            r == (Point { x, y }),
    {
        Point { x, y }
    }

    pub open spec fn in_limits(self) -> bool {
        coord_ok(self.x as int) && coord_ok(self.y as int)
    }
}

pub open spec fn mid_point(a: Point, b: Point) -> Point {
    Point { x: mid(a.x as int, b.x as int) as i64, y: mid(a.y as int, b.y as int) as i64 }
}

proof fn lemma_mid_between(a: int, b: int)
    ensures
        a <= b ==> a <= mid(a, b) <= b,
        b <= a ==> b <= mid(a, b) <= a,
{
}

fn midpoint(a: i64, b: i64) -> (r: i64)
    requires
        coord_ok(a as int),
        coord_ok(b as int),
    ensures
        r == mid(a as int, b as int),
        coord_ok(r as int),
{
    proof {
        lemma_mid_between(a as int, b as int);
    }
    let s: i64 = a + b;
    if s >= 0 {
        s / 2
    } else {
        (s - 1) / 2
    }
}

/// An axis-aligned rectangle given by two opposite corners; `p[0]` is the
/// (-x, -y) corner and `p[1]` the (+x, +y) one.
#[derive(Clone, Copy, Debug, PartialEq, Eq)]
pub struct Rect {
    pub p: [Point; 2],
}

impl Rect {
    pub open spec fn in_limits(self) -> bool {
        self.p[0].in_limits() && self.p[1].in_limits()
    }

    /// Corners in the fixed winding: (-x,-y), (+x,-y), (+x,+y), (-x,+y).
    pub open spec fn corners_spec(self) -> [Point; 4] {
        [
            self.p[0],
            Point { x: self.p[1].x, y: self.p[0].y },
            self.p[1],
            Point { x: self.p[0].x, y: self.p[1].y },
        ]
    }

    pub open spec fn center_spec(self) -> Point {
        mid_point(self.p[0], self.p[1])
    }

    /// Edge midpoints, edge `i` running from corner `i` to corner `i + 1`.
    pub open spec fn midpoints_spec(self) -> [Point; 4] {
        let c = self.corners_spec();
        [mid_point(c[0], c[1]), mid_point(c[1], c[2]), mid_point(c[2], c[3]), mid_point(c[3], c[0])]
    }

    /// Quadrant `i` spans from corner `i` to the center.
    pub open spec fn quadrant(self, i: int) -> Rect {
        let c = self.corners_spec();
        let m = self.midpoints_spec();
        let z = self.center_spec();
        if i == 0 {
            Rect { p: [c[0], z] }
        } else if i == 1 {
            Rect { p: [m[0], m[1]] }
        } else if i == 2 {
            Rect { p: [z, c[2]] }
        } else {
            Rect { p: [m[3], m[2]] }
        }
    }

    pub open spec fn min_x(self) -> int {
        if self.p[0].x <= self.p[1].x { self.p[0].x as int } else { self.p[1].x as int }
    }

    pub open spec fn max_x(self) -> int {
        if self.p[0].x <= self.p[1].x { self.p[1].x as int } else { self.p[0].x as int }
    }

    pub open spec fn min_y(self) -> int {
        if self.p[0].y <= self.p[1].y { self.p[0].y as int } else { self.p[1].y as int }
    }

    pub open spec fn max_y(self) -> int {
        if self.p[0].y <= self.p[1].y { self.p[1].y as int } else { self.p[0].y as int }
    }

    /// The region of `self` lies inside the region of `outer`.
    pub open spec fn within(self, outer: Rect) -> bool {
        outer.min_x() <= self.min_x() && self.max_x() <= outer.max_x() && outer.min_y()
            <= self.min_y() && self.max_y() <= outer.max_y()
    }

    pub fn from_points(a: &Point, b: &Point) -> (r: Rect)
        ensures
            r == (Rect { p: [*a, *b] }),
    {
        Rect { p: [*a, *b] }
    }

    /// The rectangle from corner `a` spanning `d.x` along x and `d.y` along y.
    pub fn from_point_dim(a: &Point, d: &Point) -> (r: Rect)
        requires
            a.in_limits(),
            d.in_limits(),
        ensures
            r == (Rect { p: [*a, Point { x: (a.x + d.x) as i64, y: (a.y + d.y) as i64 }] }),
    {
        Rect { p: [*a, Point { x: a.x + d.x, y: a.y + d.y }] }
    }

    /// The (width, height) of the rectangle, as the offset from `p[0]` to `p[1]`.
    pub fn dim(&self) -> (r: Point)
        requires
            self.in_limits(),
        ensures
            r == (Point { x: (self.p[1].x - self.p[0].x) as i64, y: (self.p[1].y - self.p[0].y) as i64 }),
    {
        Point { x: self.p[1].x - self.p[0].x, y: self.p[1].y - self.p[0].y }
    }

    pub fn corners(&self) -> (r: [Point; 4])
        ensures
            r == self.corners_spec(),
    {
        [
            self.p[0],
            Point { x: self.p[1].x, y: self.p[0].y },
            self.p[1],
            Point { x: self.p[0].x, y: self.p[1].y },
        ]
    }

    pub fn center(&self) -> (r: Point)
        requires
            self.in_limits(),
        ensures
            r == self.center_spec(),
            r.in_limits(),
    {
        Point { x: midpoint(self.p[0].x, self.p[1].x), y: midpoint(self.p[0].y, self.p[1].y) }
    }

    pub fn midpoints(&self) -> (r: [Point; 4])
        requires
            self.in_limits(),
        ensures
            r == self.midpoints_spec(),
            r[0].in_limits() && r[1].in_limits() && r[2].in_limits() && r[3].in_limits(),
    {
        let c = self.corners();
        [
            Point { x: midpoint(c[0].x, c[1].x), y: midpoint(c[0].y, c[1].y) },
            Point { x: midpoint(c[1].x, c[2].x), y: midpoint(c[1].y, c[2].y) },
            Point { x: midpoint(c[2].x, c[3].x), y: midpoint(c[2].y, c[3].y) },
            Point { x: midpoint(c[3].x, c[0].x), y: midpoint(c[3].y, c[0].y) },
        ]
    }
}

/// Each quadrant of a rectangle lies inside it and inside the coordinate limits.
pub proof fn lemma_quadrant_within(r: Rect, i: int)
    requires
        r.in_limits(),
        0 <= i < 4,
    ensures
        r.quadrant(i).within(r),
        r.quadrant(i).in_limits(),
{
    lemma_mid_between(r.p[0].x as int, r.p[1].x as int);
    lemma_mid_between(r.p[0].y as int, r.p[1].y as int);
    lemma_mid_between(r.p[1].x as int, r.p[0].x as int);
    lemma_mid_between(r.p[1].y as int, r.p[0].y as int);
    lemma_mid_between(r.p[0].x as int, r.p[0].x as int);
    lemma_mid_between(r.p[1].x as int, r.p[1].x as int);
    lemma_mid_between(r.p[0].y as int, r.p[0].y as int);
    lemma_mid_between(r.p[1].y as int, r.p[1].y as int);
}

} // verus!
