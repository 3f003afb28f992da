//! Axis-aligned rectangles.

use vstd::prelude::*;
use crate::aabb::Aabb;
use crate::collide::Collide;
use crate::collide::Edge;
use crate::collide::FLOOR;
use crate::collide::MAIN;
use crate::left_solid_edge::LeftSolidEdge;
use crate::vector::Vector2;
use crate::vector::POSITION_LIMIT;

verus! {

/// A rectangle whose top left corner is the position of the entity it
/// belongs to. Each side has its own channels; a side without channels is
/// not solid.
#[derive(Clone, Copy, Debug, PartialEq, Eq, Structural)]
pub struct AxisAlignedRect {
    dimensions: Vector2,
    top: u32,
    right: u32,
    bottom: u32,
    left: u32,
}

impl AxisAlignedRect {
    pub closed spec fn spec_dimensions(self) -> Vector2 {
        self.dimensions
    }

    /// The channels of the top, right, bottom and left side.
    pub closed spec fn side_channels(self) -> (u32, u32, u32, u32) {
        (self.top, self.right, self.bottom, self.left)
    }

    pub open spec fn top_edge(self) -> Edge {
        Edge {
            left_solid_edge: LeftSolidEdge {
                start: Vector2 { x: 0, y: 0 },
                end: Vector2 { x: self.spec_dimensions().x, y: 0 },
            },
            channels: self.side_channels().0,
        }
    }

    pub open spec fn right_edge(self) -> Edge {
        Edge {
            left_solid_edge: LeftSolidEdge {
                start: Vector2 { x: self.spec_dimensions().x, y: 0 },
                end: self.spec_dimensions(),
            },
            channels: self.side_channels().1,
        }
    }

    pub open spec fn bottom_edge(self) -> Edge {
        Edge {
            left_solid_edge: LeftSolidEdge {
                start: self.spec_dimensions(),
                end: Vector2 { x: 0, y: self.spec_dimensions().y },
            },
            channels: self.side_channels().2,
        }
    }

    pub open spec fn left_edge(self) -> Edge {
        Edge {
            left_solid_edge: LeftSolidEdge {
                start: Vector2 { x: 0, y: self.spec_dimensions().y },
                end: Vector2 { x: 0, y: 0 },
            },
            channels: self.side_channels().3,
        }
    }

    /// A solid box: all four sides on the main channel.
    pub closed spec fn spec_new(dimensions: Vector2) -> AxisAlignedRect {
        AxisAlignedRect { dimensions, top: MAIN, right: MAIN, bottom: MAIN, left: MAIN }
    }

    /// The box of a character: solid like any box, and its bottom also
    /// stands on floors.
    pub closed spec fn spec_new_character(dimensions: Vector2) -> AxisAlignedRect {
        AxisAlignedRect { dimensions, top: MAIN, right: MAIN, bottom: MAIN | FLOOR, left: MAIN }
    }

    /// A platform that only carries what lands on it: its top is on the
    /// floor channel, and its other sides are not solid.
    pub closed spec fn spec_new_floor_only(dimensions: Vector2) -> AxisAlignedRect {
        AxisAlignedRect { dimensions, top: FLOOR, right: 0, bottom: 0, left: 0 }
    }

    /// A solid box: all four sides on the main channel.
    pub fn new(dimensions: Vector2) -> (r: AxisAlignedRect)
        ensures
            r == AxisAlignedRect::spec_new(dimensions),
            r.spec_dimensions() == dimensions,
            r.side_channels() == (MAIN, MAIN, MAIN, MAIN),
    {
        AxisAlignedRect { dimensions, top: MAIN, right: MAIN, bottom: MAIN, left: MAIN }
    }

    /// The box of a character: solid like any box, and its bottom also
    /// stands on floors.
    pub fn new_character(dimensions: Vector2) -> (r: AxisAlignedRect)
        ensures
            r == AxisAlignedRect::spec_new_character(dimensions),
            r.spec_dimensions() == dimensions,
            r.side_channels() == (MAIN, MAIN, (MAIN | FLOOR), MAIN),
    {
        AxisAlignedRect { dimensions, top: MAIN, right: MAIN, bottom: MAIN | FLOOR, left: MAIN }
    }

    /// A platform that only carries what lands on it: its top is on the
    /// floor channel, and its other sides are not solid.
    pub fn new_floor_only(dimensions: Vector2) -> (r: AxisAlignedRect)
        ensures
            r == AxisAlignedRect::spec_new_floor_only(dimensions),
            r.spec_dimensions() == dimensions,
            r.side_channels() == (FLOOR, 0u32, 0u32, 0u32),
    {
        AxisAlignedRect { dimensions, top: FLOOR, right: 0, bottom: 0, left: 0 }
    }

    /// Tells whether the rectangle can be computed with.
    pub fn is_wf(&self) -> (r: bool)
        ensures
            r == self.wf(),
    {
        0 <= self.dimensions.x && self.dimensions.x <= POSITION_LIMIT && 0 <= self.dimensions.y
            && self.dimensions.y <= POSITION_LIMIT
    }

    pub fn dimensions(&self) -> (d: Vector2)
        ensures
            d == self.spec_dimensions(),
    {
        self.dimensions
    }
}

impl Collide for AxisAlignedRect {
    /// Width and height are not negative and within the limit for positions.
    open spec fn wf(&self) -> bool {
        &&& 0 <= self.spec_dimensions().x <= POSITION_LIMIT
        &&& 0 <= self.spec_dimensions().y <= POSITION_LIMIT
    }

    open spec fn spec_aabb(&self, top_left: Vector2) -> Aabb {
        Aabb { top_left, size: self.spec_dimensions() }
    }

    /// The solid sides that face `direction`, in the order top, right,
    /// bottom, left. The top faces every direction that does not point
    /// down, and so on.
    open spec fn edges_facing(&self, direction: Vector2) -> Seq<Edge> {
        let none = Seq::<Edge>::empty();
        let a = if direction.y <= 0 && self.side_channels().0 != 0 {
            none.push(self.top_edge())
        } else {
            none
        };
        let b = if direction.x >= 0 && self.side_channels().1 != 0 {
            a.push(self.right_edge())
        } else {
            a
        };
        let c = if direction.y >= 0 && self.side_channels().2 != 0 {
            b.push(self.bottom_edge())
        } else {
            b
        };
        if direction.x <= 0 && self.side_channels().3 != 0 {
            c.push(self.left_edge())
        } else {
            c
        }
    }

    fn aabb(&self, top_left: Vector2) -> (b: Aabb) {
        Aabb::new(top_left, self.dimensions)
    }

    fn for_each_left_solid_edge_facing(&self, direction: Vector2) -> (edges: Vec<Edge>) {
        let w: i64 = self.dimensions.x;
        let h: i64 = self.dimensions.y;
        let mut edges: Vec<Edge> = Vec::new();
        if direction.y <= 0 && self.top != 0 {
            edges.push(Edge::new(Vector2::new(0, 0), Vector2::new(w, 0)).with_channels(self.top));
        }
        if direction.x >= 0 && self.right != 0 {
            edges.push(
                Edge::new(Vector2::new(w, 0), Vector2::new(w, h)).with_channels(self.right),
            );
        }
        if direction.y >= 0 && self.bottom != 0 {
            edges.push(
                Edge::new(Vector2::new(w, h), Vector2::new(0, h)).with_channels(self.bottom),
            );
        }
        if direction.x <= 0 && self.left != 0 {
            edges.push(Edge::new(Vector2::new(0, h), Vector2::new(0, 0)).with_channels(self.left));
        }
        edges
    }
}

} // verus!
