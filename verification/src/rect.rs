use vstd::prelude::*;

verus! {

/// An integer coordinate pair.
#[derive(PartialEq, Eq, Structural, Clone, Copy, Debug)]
pub struct Point {
    pub x: i32,
    pub y: i32,
}

impl Point {
    pub fn create(x: i32, y: i32) -> (p: Point)
        ensures
            p.x == x,
            p.y == y,
    {
        Point { x, y }
    }

    /// The lexicographic order on `(x, y)` that rectangle intersection uses:
    /// `x` is compared first, `y` breaks ties.
    pub open spec fn spec_le(self, other: Point) -> bool {
        self.x < other.x || (self.x == other.x && self.y <= other.y)
    }

    pub fn le(&self, other: &Point) -> (r: bool)
        ensures
            r == self.spec_le(*other),
    {
        self.x < other.x || (self.x == other.x && self.y <= other.y)
    }
}

/// An axis-aligned rectangle given by two corner points.
#[derive(PartialEq, Eq, Structural, Clone, Copy, Debug)]
pub struct Rectangle {
    pub lower: Point,
    pub upper: Point,
}

/// Truncating halving, as the `/ 2` of the executable code computes it.
pub open spec fn half_toward_zero(v: int) -> int {
    if v >= 0 {
        v / 2
    } else {
        -((-v) / 2)
    }
}

impl Rectangle {
    pub fn create(x: i32, y: i32, w: i32, h: i32) -> (r: Rectangle)
        requires
            i32::MIN <= x + w <= i32::MAX,
            i32::MIN <= y + h <= i32::MAX,
        ensures
            r.lower.x == x,
            r.lower.y == y,
            r.upper.x == x + w,
            r.upper.y == y + h,
    {
        Rectangle { lower: Point::create(x, y), upper: Point::create(x + w, y + h) }
    }

    /// The intersection test is the chained component-wise comparison on the
    /// corner points, not a true axis-aligned box overlap.
    pub open spec fn spec_intersect(self, other: Rectangle) -> bool {
        self.lower.spec_le(other.upper) && other.lower.spec_le(self.upper)
    }

    pub fn intersect(&self, other: &Rectangle) -> (r: bool)
        ensures
            r == self.spec_intersect(*other),
    {
        self.lower.le(&other.upper) && other.lower.le(&self.upper)
    }

    pub fn width(&self) -> (w: i32)
        requires
            -i32::MAX <= self.lower.x - self.upper.x <= i32::MAX,
        ensures
            w == vstd::math::abs(self.lower.x - self.upper.x),
    {
        if self.lower.x <= self.upper.x {
            self.upper.x - self.lower.x
        } else {
            self.lower.x - self.upper.x
        }
    }

    pub fn height(&self) -> (h: i32)
        requires
            -i32::MAX <= self.lower.y - self.upper.y <= i32::MAX,
        ensures
            h == vstd::math::abs(self.lower.y - self.upper.y),
    {
        if self.lower.y <= self.upper.y {
            self.upper.y - self.lower.y
        } else {
            self.lower.y - self.upper.y
        }
    }

    /// The midpoint of the two corners, each axis truncated toward zero.
    pub fn center(&self) -> (p: Point)
        requires
            i32::MIN <= self.lower.x + self.upper.x <= i32::MAX,
            i32::MIN <= self.lower.y + self.upper.y <= i32::MAX,
        ensures
            p.x == half_toward_zero(self.lower.x + self.upper.x),
            p.y == half_toward_zero(self.lower.y + self.upper.y),
    {
        Point::create((self.lower.x + self.upper.x) / 2, (self.lower.y + self.upper.y) / 2)
    }
}

/// The intersection test is symmetric: swapping the two rectangles never
/// changes the answer.
pub proof fn lemma_intersect_symmetric(a: Rectangle, b: Rectangle)
    ensures
        a.spec_intersect(b) == b.spec_intersect(a),
{
}

} // verus!
