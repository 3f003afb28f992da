//! Axis-aligned bounding boxes for the broad phase.

use vstd::prelude::*;
use crate::vector::Vector2;
use crate::vector::POINT_LIMIT;

verus! {

/// A box given by its top left corner and its size. Boxes are closed: two
/// boxes that share only a border intersect.
#[derive(Clone, Copy, Debug, PartialEq, Eq, Structural)]
pub struct Aabb {
    pub top_left: Vector2,
    pub size: Vector2,
}

impl Aabb {
    /// The size is not negative, and both corners are points the library can
    /// compute with.
    pub open spec fn wf(self) -> bool {
        &&& self.size.x >= 0
        &&& self.size.y >= 0
        &&& self.top_left.within(POINT_LIMIT as int)
        &&& -POINT_LIMIT <= self.right() <= POINT_LIMIT
        &&& -POINT_LIMIT <= self.bottom() <= POINT_LIMIT
    }

    pub open spec fn left(self) -> int {
        self.top_left.x as int
    }

    pub open spec fn top(self) -> int {
        self.top_left.y as int
    }

    pub open spec fn right(self) -> int {
        self.top_left.x + self.size.x
    }

    pub open spec fn bottom(self) -> int {
        self.top_left.y + self.size.y
    }

    /// The two boxes have a point in common.
    pub open spec fn intersects(self, other: Aabb) -> bool {
        &&& self.left() <= other.right()
        &&& other.left() <= self.right()
        &&& self.top() <= other.bottom()
        &&& other.top() <= self.bottom()
    }

    /// The smallest box that holds both boxes.
    pub open spec fn spec_union(self, other: Aabb) -> Aabb {
        let left = if self.left() <= other.left() { self.left() } else { other.left() };
        let top = if self.top() <= other.top() { self.top() } else { other.top() };
        let right = if self.right() >= other.right() { self.right() } else { other.right() };
        let bottom = if self.bottom() >= other.bottom() { self.bottom() } else { other.bottom() };
        Aabb {
            top_left: Vector2 { x: left as i64, y: top as i64 },
            size: Vector2 { x: (right - left) as i64, y: (bottom - top) as i64 },
        }
    }

    pub fn new(top_left: Vector2, size: Vector2) -> (b: Aabb)
        ensures
            b.top_left == top_left,
            b.size == size,
    {
        Aabb { top_left, size }
    }

    pub fn is_intersecting(&self, other: &Aabb) -> (r: bool)
        requires
            self.wf(),
            other.wf(),
        ensures
            r == self.intersects(*other),
    {
        self.top_left.x <= other.top_left.x + other.size.x && other.top_left.x <= self.top_left.x
            + self.size.x && self.top_left.y <= other.top_left.y + other.size.y && other.top_left.y
            <= self.top_left.y + self.size.y
    }

    pub fn union(&self, other: &Aabb) -> (b: Aabb)
        requires
            self.wf(),
            other.wf(),
        ensures
            b == self.spec_union(*other),
            b.wf(),
            b.left() <= self.left() && b.left() <= other.left(),
            b.top() <= self.top() && b.top() <= other.top(),
            b.right() >= self.right() && b.right() >= other.right(),
            b.bottom() >= self.bottom() && b.bottom() >= other.bottom(),
    {
        let left: i64 = if self.top_left.x <= other.top_left.x {
            self.top_left.x
        } else {
            other.top_left.x
        };
        let top: i64 = if self.top_left.y <= other.top_left.y {
            self.top_left.y
        } else {
            other.top_left.y
        };
        let self_right: i64 = self.top_left.x + self.size.x;
        let other_right: i64 = other.top_left.x + other.size.x;
        let self_bottom: i64 = self.top_left.y + self.size.y;
        let other_bottom: i64 = other.top_left.y + other.size.y;
        let right: i64 = if self_right >= other_right {
            self_right
        } else {
            other_right
        };
        let bottom: i64 = if self_bottom >= other_bottom {
            self_bottom
        } else {
            other_bottom
        };
        Aabb {
            top_left: Vector2 { x: left, y: top },
            size: Vector2 { x: right - left, y: bottom - top },
        }
    }
}

} // verus!
