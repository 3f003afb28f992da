//! Line segments that are solid on one side or on both.

use vstd::prelude::*;
use crate::aabb::Aabb;
use crate::collide::Collide;
use crate::collide::Edge;
use crate::collide::MAIN;
use crate::left_solid_edge::LeftSolidEdge;
use crate::vector::lemma_product_bound;
use crate::vector::Vector2;
use crate::vector::POSITION_LIMIT;

verus! {

#[derive(Clone, Copy, Debug, PartialEq, Eq, Structural)]
pub enum SolidSide {
    Left,
    Both,
}

/// A segment from `start` to `end`, relative to the position of the entity
/// it belongs to.
#[derive(Clone, Copy, Debug, PartialEq, Eq, Structural)]
pub struct LineSegment {
    pub start: Vector2,
    pub end: Vector2,
    pub solid_side: SolidSide,
}

/// The sign of `c`: -1, 0 or 1.
pub open spec fn sign(c: int) -> int {
    if c > 0 {
        1
    } else if c < 0 {
        -1
    } else {
        0
    }
}

fn sign_of(c: i64) -> (s: i64)
    ensures
        s == sign(c as int),
{
    if c > 0 {
        1
    } else if c < 0 {
        -1
    } else {
        0
    }
}

impl LineSegment {
    pub open spec fn dx(self) -> int {
        self.end.x - self.start.x
    }

    pub open spec fn dy(self) -> int {
        self.end.y - self.start.y
    }

    /// One unit, along each axis, toward the side that the normal of the
    /// segment points to.
    pub open spec fn outward_step(self) -> Vector2 {
        Vector2 { x: sign(self.dy()) as i64, y: (-sign(self.dx())) as i64 }
    }

    /// The edge from `start` to `end`. For a segment that is solid on both
    /// sides it lies one step out on the side of its normal.
    pub open spec fn forward_edge(self) -> Edge {
        match self.solid_side {
            SolidSide::Left => Edge {
                left_solid_edge: LeftSolidEdge { start: self.start, end: self.end },
                channels: MAIN,
            },
            SolidSide::Both => Edge {
                left_solid_edge: LeftSolidEdge {
                    start: self.start.spec_plus(self.outward_step()),
                    end: self.end.spec_plus(self.outward_step()),
                },
                channels: MAIN,
            },
        }
    }

    /// The edge from `end` to `start`, one step out on the other side.
    pub open spec fn backward_edge(self) -> Edge {
        Edge {
            left_solid_edge: LeftSolidEdge {
                start: self.end.spec_minus(self.outward_step()),
                end: self.start.spec_minus(self.outward_step()),
            },
            channels: MAIN,
        }
    }

    /// The normal of the segment does not point away from `direction`.
    pub open spec fn faces(self, direction: Vector2) -> bool {
        self.dy() * direction.x - self.dx() * direction.y >= 0
    }

    /// The normal of the reversed segment does not point away from
    /// `direction`.
    pub open spec fn back_faces(self, direction: Vector2) -> bool {
        self.dy() * direction.x - self.dx() * direction.y <= 0
    }

    /// Tells whether the segment can be computed with.
    pub fn is_wf(&self) -> (r: bool)
        ensures
            r == self.wf(),
    {
        self.start.is_within(POSITION_LIMIT) && self.end.is_within(POSITION_LIMIT)
    }

    pub fn new_both_solid(start: Vector2, end: Vector2) -> (s: LineSegment)
        ensures
            s.start == start,
            s.end == end,
            s.solid_side == SolidSide::Both,
    {
        LineSegment { start, end, solid_side: SolidSide::Both }
    }

    pub fn new_left_solid(start: Vector2, end: Vector2) -> (s: LineSegment)
        ensures
            s.start == start,
            s.end == end,
            s.solid_side == SolidSide::Left,
    {
        LineSegment { start, end, solid_side: SolidSide::Left }
    }

    /// The segment moved by `vector`.
    pub fn add_vector(&self, vector: Vector2) -> (s: LineSegment)
        requires
            i64::MIN <= self.start.x + vector.x <= i64::MAX,
            i64::MIN <= self.start.y + vector.y <= i64::MAX,
            i64::MIN <= self.end.x + vector.x <= i64::MAX,
            i64::MIN <= self.end.y + vector.y <= i64::MAX,
        ensures
            s.start == self.start.spec_plus(vector),
            s.end == self.end.spec_plus(vector),
            s.solid_side == self.solid_side,
    {
        LineSegment {
            start: self.start.plus(vector),
            end: self.end.plus(vector),
            solid_side: self.solid_side,
        }
    }

    /// The vector from `start` to `end`.
    pub fn vector(&self) -> (v: Vector2)
        requires
            i64::MIN <= self.end.x - self.start.x <= i64::MAX,
            i64::MIN <= self.end.y - self.start.y <= i64::MAX,
        ensures
            v.x == self.dx(),
            v.y == self.dy(),
    {
        self.end.minus(self.start)
    }

    fn outward(&self) -> (step: Vector2)
        requires
            self.wf(),
        ensures
            step == self.outward_step(),
            step.within(1),
    {
        let v = self.vector();
        Vector2 { x: sign_of(v.y), y: -sign_of(v.x) }
    }

    fn left_solid_edge(&self) -> (e: LeftSolidEdge)
        ensures
            e.start == self.start,
            e.end == self.end,
    {
        LeftSolidEdge::new(self.start, self.end)
    }

    fn left_solid_edge_flipped(&self) -> (e: LeftSolidEdge)
        ensures
            e.start == self.end,
            e.end == self.start,
    {
        LeftSolidEdge::new(self.end, self.start)
    }
}

impl Collide for LineSegment {
    /// Both ends are within the limit for positions.
    open spec fn wf(&self) -> bool {
        &&& self.start.within(POSITION_LIMIT as int)
        &&& self.end.within(POSITION_LIMIT as int)
    }

    /// The box around both ends, one unit wider on every side where the
    /// segment is solid on both sides, so that it holds both of its edges.
    open spec fn spec_aabb(&self, top_left: Vector2) -> Aabb {
        let margin: int = match self.solid_side {
            SolidSide::Left => 0,
            SolidSide::Both => 1,
        };
        let x_min = if self.start.x <= self.end.x { self.start.x } else { self.end.x };
        let x_max = if self.start.x <= self.end.x { self.end.x } else { self.start.x };
        let y_min = if self.start.y <= self.end.y { self.start.y } else { self.end.y };
        let y_max = if self.start.y <= self.end.y { self.end.y } else { self.start.y };
        Aabb {
            top_left: Vector2 {
                x: (top_left.x + x_min - margin) as i64,
                y: (top_left.y + y_min - margin) as i64,
            },
            size: Vector2 {
                x: (x_max - x_min + 2 * margin) as i64,
                y: (y_max - y_min + 2 * margin) as i64,
            },
        }
    }

    /// A segment that is solid on its left has one edge, from `start` to
    /// `end`. One that is solid on both sides has two, the reversed one
    /// first. Each is left out when it faces away from `direction`.
    open spec fn edges_facing(&self, direction: Vector2) -> Seq<Edge> {
        let none = Seq::<Edge>::empty();
        let a = if self.solid_side == SolidSide::Both && self.back_faces(direction) {
            none.push(self.backward_edge())
        } else {
            none
        };
        if self.faces(direction) {
            a.push(self.forward_edge())
        } else {
            a
        }
    }

    fn aabb(&self, top_left: Vector2) -> (b: Aabb) {
        let margin: i64 = match self.solid_side {
            SolidSide::Left => 0,
            SolidSide::Both => 1,
        };
        let x_min: i64 = if self.start.x <= self.end.x { self.start.x } else { self.end.x };
        let x_max: i64 = if self.start.x <= self.end.x { self.end.x } else { self.start.x };
        let y_min: i64 = if self.start.y <= self.end.y { self.start.y } else { self.end.y };
        let y_max: i64 = if self.start.y <= self.end.y { self.end.y } else { self.start.y };
        Aabb::new(
            Vector2::new(top_left.x + x_min - margin, top_left.y + y_min - margin),
            Vector2::new(x_max - x_min + 2 * margin, y_max - y_min + 2 * margin),
        )
    }

    fn for_each_left_solid_edge_facing(&self, direction: Vector2) -> (edges: Vec<Edge>) {
        let v = self.vector();
        proof {
            let p: int = 2 * POSITION_LIMIT;
            let m: int = i64::MAX as int;
            lemma_product_bound(v.y as int, direction.x as int, p, m);
            lemma_product_bound(v.x as int, direction.y as int, p, m);
            assert(p * m <= 0x2000_0000_0000_0000_0000_0000) by (nonlinear_arith)
                requires
                    p == 0x4000_0000,
                    m == 0x7fff_ffff_ffff_ffff,
            ;
        }
        let toward: i128 = (v.y as i128) * (direction.x as i128) - (v.x as i128) * (
        direction.y as i128);
        let mut edges: Vec<Edge> = Vec::new();
        match self.solid_side {
            SolidSide::Left => {
                if toward >= 0 {
                    edges.push(
                        Edge { left_solid_edge: self.left_solid_edge(), channels: MAIN },
                    );
                }
            },
            SolidSide::Both => {
                let step = self.outward();
                if toward <= 0 {
                    let back = self.add_vector(step.negated());
                    edges.push(
                        Edge { left_solid_edge: back.left_solid_edge_flipped(), channels: MAIN },
                    );
                }
                if toward >= 0 {
                    let front = self.add_vector(step);
                    edges.push(
                        Edge { left_solid_edge: front.left_solid_edge(), channels: MAIN },
                    );
                }
            },
        }
        edges
    }
}

} // verus!
