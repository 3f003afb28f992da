//! The shapes an entity can have, and a shape at a position.

use vstd::prelude::*;
use crate::aabb::Aabb;
use crate::axis_aligned_rect::AxisAlignedRect;
use crate::collide::Collide;
use crate::collide::Edge;
use crate::line_segment::LineSegment;
use crate::movement::EntityId;
use crate::vector::Vector2;
use crate::vector::POSITION_LIMIT;
use crate::vector::REACH_LIMIT;

verus! {

#[derive(Clone, Copy, Debug, PartialEq, Eq, Structural)]
pub enum Shape {
    AxisAlignedRect(AxisAlignedRect),
    LineSegment(LineSegment),
}

impl Collide for Shape {
    open spec fn wf(&self) -> bool {
        match *self {
            Shape::AxisAlignedRect(rect) => rect.wf(),
            Shape::LineSegment(segment) => segment.wf(),
        }
    }

    open spec fn spec_aabb(&self, top_left: Vector2) -> Aabb {
        match *self {
            Shape::AxisAlignedRect(rect) => rect.spec_aabb(top_left),
            Shape::LineSegment(segment) => segment.spec_aabb(top_left),
        }
    }

    open spec fn edges_facing(&self, direction: Vector2) -> Seq<Edge> {
        match *self {
            Shape::AxisAlignedRect(rect) => rect.edges_facing(direction),
            Shape::LineSegment(segment) => segment.edges_facing(direction),
        }
    }

    fn aabb(&self, top_left: Vector2) -> (b: Aabb) {
        match self {
            Shape::AxisAlignedRect(rect) => rect.aabb(top_left),
            Shape::LineSegment(segment) => segment.aabb(top_left),
        }
    }

    fn for_each_left_solid_edge_facing(&self, direction: Vector2) -> (edges: Vec<Edge>) {
        match self {
            Shape::AxisAlignedRect(rect) => rect.for_each_left_solid_edge_facing(direction),
            Shape::LineSegment(segment) => segment.for_each_left_solid_edge_facing(direction),
        }
    }
}

/// An entity's shape where the entity stands. Made for one query and not
/// kept.
#[derive(Clone, Copy, Debug, PartialEq, Eq, Structural)]
pub struct ShapePosition {
    pub entity_id: EntityId,
    pub shape: Shape,
    pub position: Vector2,
}

impl Shape {
    /// Tells whether the shape can be computed with.
    pub fn is_wf(&self) -> (r: bool)
        ensures
            r == self.wf(),
    {
        match self {
            Shape::AxisAlignedRect(rect) => rect.is_wf(),
            Shape::LineSegment(segment) => segment.is_wf(),
        }
    }
}

impl ShapePosition {
    /// Tells whether the shape can be computed with and stands within the
    /// limit for positions.
    pub fn is_wf(&self) -> (r: bool)
        ensures
            r == self.wf(),
    {
        self.shape.is_wf() && self.position.is_within(POSITION_LIMIT)
    }

    /// The shape can be computed with and stands within the limit for
    /// positions.
    pub open spec fn wf(self) -> bool {
        &&& self.shape.wf()
        &&& self.position.within(POSITION_LIMIT as int)
    }

    /// The shape can be computed with and stands within reach.
    pub open spec fn in_reach(self) -> bool {
        &&& self.shape.wf()
        &&& self.position.within(REACH_LIMIT as int)
    }

    /// The same shape of the same entity at another position.
    pub open spec fn at(self, position: Vector2) -> ShapePosition {
        ShapePosition { entity_id: self.entity_id, shape: self.shape, position }
    }

    pub open spec fn spec_aabb(self) -> Aabb {
        self.shape.spec_aabb(self.position)
    }

    /// The box around the shape where it stands and where it would stand
    /// after `movement`.
    pub open spec fn spec_movement_aabb(self, movement: Vector2) -> Aabb {
        self.shape.spec_aabb(self.position).spec_union(
            self.shape.spec_aabb(self.position.spec_plus(movement)),
        )
    }

    pub fn aabb(&self) -> (b: Aabb)
        requires
            self.in_reach(),
        ensures
            b == self.spec_aabb(),
            b.wf(),
    {
        self.shape.aabb(self.position)
    }

    /// The box around the shape where it stands and where it would stand
    /// after `movement`.
    pub fn movement_aabb(&self, movement: Vector2) -> (b: Aabb)
        requires
            self.in_reach(),
            self.position.spec_plus(movement).within(REACH_LIMIT as int),
            i64::MIN <= self.position.x + movement.x <= i64::MAX,
            i64::MIN <= self.position.y + movement.y <= i64::MAX,
        ensures
            b == self.spec_movement_aabb(movement),
            b.wf(),
    {
        let here = self.shape.aabb(self.position);
        let there = self.shape.aabb(self.position.plus(movement));
        here.union(&there)
    }
}

} // verus!
