//! Motion resolution for a two-dimensional platformer, on exact integer
//! coordinates: broad-phase indexing, one-sided edge collision, tie-aware
//! nearest-collision selection, and the bounded state machine that turns a
//! desired displacement into an allowed one.

pub mod aabb;
pub mod axis_aligned_rect;
pub mod best_of;
pub mod bump;
pub mod collide;
pub mod game;
pub mod left_solid_edge;
pub mod line_segment;
pub mod loose_quad_tree;
pub mod movement;
pub mod shape;
pub mod vector;
