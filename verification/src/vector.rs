//! Two-dimensional vectors with integer components.
//!
//! A component counts world units; how many units make a pixel is the
//! caller's choice. All products are taken in 128 bits, and the bounds below
//! keep every intermediate value inside that range.

use vstd::prelude::*;

verus! {

/// Largest magnitude of a coordinate of a position or of a shape's extent
/// that callers hand to the library.
pub const POSITION_LIMIT: i64 = 0x2000_0000;

/// Largest magnitude of a coordinate of any point that the library computes
/// with: a shape's corner, moved to where the shape stands.
pub const POINT_LIMIT: i64 = 0x8000_0000;

/// Largest magnitude of a coordinate of a position that an entity reaches
/// while its movement is resolved, and of a corner of a shape relative to the
/// shape's position.
pub const REACH_LIMIT: i64 = 0x4000_0000;

/// Largest magnitude of a component of a movement vector for one tick.
pub const MOVEMENT_LIMIT: i64 = 0x10_0000;

#[derive(Clone, Copy, Debug, PartialEq, Eq, Structural)]
pub struct Vector2 {
    pub x: i64,
    pub y: i64,
}

/// The product of two bounded integers is bounded by the product of the bounds.
pub proof fn lemma_product_bound(a: int, b: int, la: int, lb: int)
    requires
        -la <= a <= la,
        -lb <= b <= lb,
    ensures
        -(la * lb) <= a * b <= la * lb,
{
    assert(-(la * lb) <= a * b <= la * lb) by (nonlinear_arith)
        requires
            -la <= a <= la,
            -lb <= b <= lb,
    ;
}

impl Vector2 {
    /// Both components lie in `[-limit, limit]`.
    pub open spec fn within(self, limit: int) -> bool {
        &&& -limit <= self.x <= limit
        &&& -limit <= self.y <= limit
    }

    /// The component-wise sum.
    pub open spec fn spec_plus(self, other: Vector2) -> Vector2 {
        Vector2 { x: (self.x + other.x) as i64, y: (self.y + other.y) as i64 }
    }

    /// The component-wise difference.
    pub open spec fn spec_minus(self, other: Vector2) -> Vector2 {
        Vector2 { x: (self.x - other.x) as i64, y: (self.y - other.y) as i64 }
    }

    /// The vector of the same length that points the other way.
    pub open spec fn spec_negated(self) -> Vector2 {
        Vector2 { x: (-self.x) as i64, y: (-self.y) as i64 }
    }

    /// The scalar product.
    pub open spec fn spec_dot(self, other: Vector2) -> int {
        self.x * other.x + self.y * other.y
    }

    /// The two-dimensional cross product `x1 * y2 - y1 * x2`.
    pub open spec fn spec_cross(self, other: Vector2) -> int {
        self.x * other.y - self.y * other.x
    }

    /// The squared length.
    pub open spec fn spec_magnitude2(self) -> int {
        self.x * self.x + self.y * self.y
    }

    pub open spec fn is_zero(self) -> bool {
        self.x == 0 && self.y == 0
    }

    /// Tells whether both components lie in `[-limit, limit]`.
    pub fn is_within(self, limit: i64) -> (r: bool)
        requires
            limit >= 0,
        ensures
            r == self.within(limit as int),
    {
        -limit <= self.x && self.x <= limit && -limit <= self.y && self.y <= limit
    }

    pub fn new(x: i64, y: i64) -> (v: Vector2)
        ensures
            v.x == x,
            v.y == y,
    {
        Vector2 { x, y }
    }

    pub fn zero() -> (v: Vector2)
        ensures
            v.x == 0,
            v.y == 0,
    {
        Vector2 { x: 0, y: 0 }
    }

    /// The component-wise sum.
    pub fn plus(self, other: Vector2) -> (v: Vector2)
        requires
            i64::MIN <= self.x + other.x <= i64::MAX,
            i64::MIN <= self.y + other.y <= i64::MAX,
        ensures
            v.x == self.x + other.x,
            v.y == self.y + other.y,
            v == self.spec_plus(other),
    {
        Vector2 { x: self.x + other.x, y: self.y + other.y }
    }

    /// The component-wise difference.
    pub fn minus(self, other: Vector2) -> (v: Vector2)
        requires
            i64::MIN <= self.x - other.x <= i64::MAX,
            i64::MIN <= self.y - other.y <= i64::MAX,
        ensures
            v.x == self.x - other.x,
            v.y == self.y - other.y,
            v == self.spec_minus(other),
    {
        Vector2 { x: self.x - other.x, y: self.y - other.y }
    }

    /// The vector of the same length that points the other way.
    pub fn negated(self) -> (v: Vector2)
        requires
            self.x > i64::MIN,
            self.y > i64::MIN,
        ensures
            v.x == -self.x,
            v.y == -self.y,
            v == self.spec_negated(),
    {
        Vector2 { x: -self.x, y: -self.y }
    }

    pub fn dot(self, other: Vector2) -> (r: i128)
        requires
            self.within(i64::MAX as int),
            other.within(i64::MAX as int),
        ensures
            r == self.spec_dot(other),
    {
        proof {
            let m: int = i64::MAX as int;
            lemma_product_bound(self.x as int, other.x as int, m, m);
            lemma_product_bound(self.y as int, other.y as int, m, m);
        }
        (self.x as i128) * (other.x as i128) + (self.y as i128) * (other.y as i128)
    }

    pub fn cross(self, other: Vector2) -> (r: i128)
        requires
            self.within(i64::MAX as int),
            other.within(i64::MAX as int),
        ensures
            r == self.spec_cross(other),
    {
        proof {
            let m: int = i64::MAX as int;
            lemma_product_bound(self.x as int, other.y as int, m, m);
            lemma_product_bound(self.y as int, other.x as int, m, m);
        }
        (self.x as i128) * (other.y as i128) - (self.y as i128) * (other.x as i128)
    }

    pub fn magnitude2(self) -> (r: u128)
        ensures
            r == self.spec_magnitude2(),
    {
        proof {
            let m: int = 0x8000_0000_0000_0000;
            lemma_product_bound(self.x as int, self.x as int, m, m);
            lemma_product_bound(self.y as int, self.y as int, m, m);
            assert(m * m == 0x4000_0000_0000_0000_0000_0000_0000_0000) by (nonlinear_arith)
                requires
                    m == 0x8000_0000_0000_0000,
            ;
            assert(self.x * self.x >= 0) by (nonlinear_arith);
            assert(self.y * self.y >= 0) by (nonlinear_arith);
        }
        let xx: i128 = (self.x as i128) * (self.x as i128);
        let yy: i128 = (self.y as i128) * (self.y as i128);
        (xx as u128) + (yy as u128)
    }
}

} // verus!
