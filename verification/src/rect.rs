//! Axis-aligned rectangles, used as rooms.

use vstd::prelude::*;

verus! {

/// An axis-aligned rectangle with corners `(x1, y1)` and `(x2, y2)`.
///
/// As a room, the rectangle's floor is the cells `(x, y)` with
/// `x1 < x <= x2` and `y1 < y <= y2`: the column `x1` and the row `y1`
/// stay wall, so that the floors of two rooms that do not intersect never
/// touch.
#[derive(Clone, Copy, Debug, PartialEq, Eq, Structural)]
pub struct Rect {
    pub x1: i32,
    pub x2: i32,
    pub y1: i32,
    pub y2: i32,
}

impl Rect {
    /// A rectangle has a positive extent on both axes.
    pub open spec fn wf(&self) -> bool {
        self.x1 < self.x2 && self.y1 < self.y2
    }

    /// The overlap test: the closed intervals `x1..=x2` and `y1..=y2` of
    /// the two rectangles meet on both axes.
    pub open spec fn intersects(&self, other: &Rect) -> bool {
        self.x1 <= other.x2 && self.x2 >= other.x1 && self.y1 <= other.y2 && self.y2
            >= other.y1
    }

    /// Whether `(x, y)` is a floor cell of this rectangle taken as a room.
    pub open spec fn contains(&self, x: int, y: int) -> bool {
        self.x1 < x <= self.x2 && self.y1 < y <= self.y2
    }

    /// The midpoint of the rectangle, rounded down on both axes.
    pub open spec fn midpoint(&self) -> (int, int) {
        ((self.x1 + self.x2) / 2, (self.y1 + self.y2) / 2)
    }

    /// The rectangle with top-left corner `(x, y)`, width `w` and height `h`.
    pub fn new(x: i32, y: i32, w: i32, h: i32) -> (r: Rect)
        requires
            i32::MIN <= x + w <= i32::MAX,
            i32::MIN <= y + h <= i32::MAX,
        ensures
            r.x1 == x,
            r.y1 == y,
            r.x2 == x + w,
            r.y2 == y + h,
            w > 0 && h > 0 ==> r.wf(),
    {
        Rect { x1: x, y1: y, x2: x + w, y2: y + h }
    }

    /// Whether this rectangle overlaps `other`.
    pub fn intersect(&self, other: &Rect) -> (b: bool)
        ensures
            b == self.intersects(other),
    {
        self.x1 <= other.x2 && self.x2 >= other.x1 && self.y1 <= other.y2 && self.y2
            >= other.y1
    }

    /// The midpoint of the rectangle, rounded down on both axes.
    pub fn center(&self) -> (c: (i32, i32))
        ensures
            (c.0 as int, c.1 as int) == self.midpoint(),
    {
        (floor_half(self.x1, self.x2), floor_half(self.y1, self.y2))
    }
}

/// Half of the sum of `a` and `b`, rounded down.
fn floor_half(a: i32, b: i32) -> (m: i32)
    ensures
        m == (a + b) / 2,
{
    let sum: i64 = a as i64 + b as i64;
    if sum >= 0 {
        (sum / 2) as i32
    } else {
        (-((1 - sum) / 2)) as i32
    }
}

/// The overlap test does not depend on which rectangle is asked.
pub proof fn lemma_intersects_symmetric(a: Rect, b: Rect)
    ensures
        a.intersects(&b) == b.intersects(&a),
{
}

/// Rooms that do not intersect keep at least one wall cell between their
/// floors: no floor cell of one is equal or next to a floor cell of the
/// other, not even diagonally.
pub proof fn lemma_apart_rooms_do_not_touch(a: Rect, b: Rect, ax: int, ay: int, bx: int, by: int)
    requires
        !a.intersects(&b),
        a.contains(ax, ay),
        b.contains(bx, by),
    ensures
        ax - bx >= 2 || bx - ax >= 2 || ay - by >= 2 || by - ay >= 2,
{
}

/// The midpoint of a rectangle at least two cells wide and high is one of
/// its floor cells.
pub proof fn lemma_midpoint_is_floor(r: Rect)
    requires
        r.x2 - r.x1 >= 2,
        r.y2 - r.y1 >= 2,
    ensures
        r.contains(r.midpoint().0, r.midpoint().1),
{
}

} // verus!
