//! Directed edges that are solid on their left side, and the first contact
//! of a moving edge with a stationary one.
//!
//! Coordinates grow to the right and downwards. An edge that runs from
//! `start` to `end` with direction `(dx, dy)` has its outward normal
//! `(dy, -dx)`: the top of a box runs left to right, its right side top to
//! bottom. A point collides with an edge only when it comes from the side the
//! normal points to.

use vstd::prelude::*;
use vstd::arithmetic::div_mod::lemma_fundamental_div_mod;
use vstd::arithmetic::div_mod::lemma_mod_pos_bound;
use crate::vector::Vector2;
use crate::vector::lemma_product_bound;
use crate::vector::POINT_LIMIT;
use crate::vector::MOVEMENT_LIMIT;

verus! {

/// Largest denominator of the fraction of a movement that a contact allows.
pub const FRACTION_LIMIT: i64 = 0x20_0000_0000_0000;

/// The quotient of `a` by a positive `b`, rounded toward zero.
pub open spec fn toward_zero(a: int, b: int) -> int {
    if a >= 0 {
        a / b
    } else {
        -((-a) / b)
    }
}

/// Rounding toward zero never overshoots: the quotient times the divisor lies
/// between zero and the dividend, less than one divisor away from it.
pub proof fn lemma_toward_zero(a: int, b: int)
    requires
        b > 0,
    ensures
        a >= 0 ==> 0 <= toward_zero(a, b) && toward_zero(a, b) * b <= a < toward_zero(a, b) * b + b,
        a <= 0 ==> toward_zero(a, b) <= 0 && toward_zero(a, b) * b - b < a <= toward_zero(a, b) * b,
        toward_zero(a, b) == -toward_zero(-a, b),
{
    let m = if a >= 0 { a } else { -a };
    lemma_fundamental_div_mod(m, b);
    lemma_mod_pos_bound(m, b);
    let q = m / b;
    assert(q * b == b * q) by (nonlinear_arith);
    assert(q >= 0) by (nonlinear_arith)
        requires
            b > 0,
            m >= 0,
            m == b * q + m % b,
            0 <= m % b < b,
    ;
    assert((-q) * b == -(q * b)) by (nonlinear_arith);
    if a == 0 {
        assert(0int / b == 0) by (nonlinear_arith)
            requires
                b > 0,
        ;
    }
}

/// Whether the squared length of `v` allows it as the movement of one tick.
pub open spec fn is_movement(v: Vector2) -> bool {
    v.spec_magnitude2() <= MOVEMENT_LIMIT * MOVEMENT_LIMIT
}

/// A vector that is short enough for a movement has small components.
pub proof fn lemma_movement_within(v: Vector2)
    requires
        is_movement(v),
    ensures
        v.within(MOVEMENT_LIMIT as int),
{
    let l = MOVEMENT_LIMIT as int;
    let x = v.x as int;
    let y = v.y as int;
    assert(-l <= x <= l && -l <= y <= l) by (nonlinear_arith)
        requires
            x * x + y * y <= l * l,
            l >= 0,
    ;
}

/// Tells whether `v` is short enough for the movement of one tick.
pub fn is_movement_vector(v: Vector2) -> (r: bool)
    ensures
        r == is_movement(v),
{
    let l: i64 = MOVEMENT_LIMIT;
    if v.x < -l || v.x > l || v.y < -l || v.y > l {
        proof {
            if is_movement(v) {
                lemma_movement_within(v);
            }
        }
        false
    } else {
        proof {
            lemma_product_bound(v.x as int, v.x as int, l as int, l as int);
            lemma_product_bound(v.y as int, v.y as int, l as int, l as int);
        }
        let m: u128 = v.magnitude2();
        m <= (l as u128) * (l as u128)
    }
}

/// The quotient of `a` by a positive `b`, rounded toward zero.
pub fn divide_toward_zero(a: i128, b: i128) -> (q: i128)
    requires
        b > 0,
        a > i128::MIN,
    ensures
        q == toward_zero(a as int, b as int),
{
    proof {
        lemma_toward_zero(a as int, b as int);
        assert(a >= 0 ==> toward_zero(a as int, b as int) <= a) by (nonlinear_arith)
            requires
                b > 0,
                a >= 0 ==> 0 <= toward_zero(a as int, b as int) && toward_zero(a as int, b as int)
                    * b <= a,
        ;
        assert(a <= 0 ==> toward_zero(a as int, b as int) >= a) by (nonlinear_arith)
            requires
                b > 0,
                a <= 0 ==> toward_zero(a as int, b as int) <= 0 && a <= toward_zero(
                    a as int,
                    b as int,
                ) * b,
        ;
    }
    if a >= 0 {
        a / b
    } else {
        -((-a) / b)
    }
}

#[derive(Clone, Copy, Debug, PartialEq, Eq, Structural)]
pub struct LeftSolidEdge {
    pub start: Vector2,
    pub end: Vector2,
}

impl LeftSolidEdge {
    /// Both ends are points the library can compute with.
    pub open spec fn wf(self) -> bool {
        &&& self.start.within(POINT_LIMIT as int)
        &&& self.end.within(POINT_LIMIT as int)
    }

    pub open spec fn dx(self) -> int {
        self.end.x - self.start.x
    }

    pub open spec fn dy(self) -> int {
        self.end.y - self.start.y
    }

    /// How far `p` stands off the edge's line on the side the normal points
    /// to, scaled by the edge's length.
    pub open spec fn offset_of(self, p: Vector2) -> int {
        (p.x - self.start.x) * self.dy() - (p.y - self.start.y) * self.dx()
    }

    /// How fast a point moving by `(vx, vy)` closes that offset: positive
    /// when it moves against the normal.
    pub open spec fn closing_rate(self, vx: int, vy: int) -> int {
        self.dx() * vy - self.dy() * vx
    }

    /// Where along the edge the path of `p` crosses the edge's line: zero at
    /// `start`, `closing_rate` at `end`.
    pub open spec fn crossing_of(self, p: Vector2, vx: int, vy: int) -> int {
        (p.x - self.start.x) * vy - (p.y - self.start.y) * vx
    }

    /// The fraction of the movement `(vx, vy)` after which the point `p`
    /// touches this edge, as numerator and denominator, if it does so within
    /// the movement. The edge holds its start and not its end, so that every
    /// point of a closed outline belongs to one edge.
    pub open spec fn vertex_contact(self, p: Vector2, vx: int, vy: int) -> Option<(int, int)> {
        let den = self.closing_rate(vx, vy);
        let num = self.offset_of(p);
        let at = self.crossing_of(p, vx, vy);
        if den > 0 && 0 <= num <= den && 0 <= at < den {
            Some((num, den))
        } else {
            None
        }
    }

    pub fn new(start: Vector2, end: Vector2) -> (e: LeftSolidEdge)
        ensures
            e.start == start,
            e.end == end,
    {
        LeftSolidEdge { start, end }
    }

    /// The edge moved by `vector`.
    pub fn add_vector(&self, vector: Vector2) -> (e: LeftSolidEdge)
        requires
            i64::MIN <= self.start.x + vector.x <= i64::MAX,
            i64::MIN <= self.start.y + vector.y <= i64::MAX,
            i64::MIN <= self.end.x + vector.x <= i64::MAX,
            i64::MIN <= self.end.y + vector.y <= i64::MAX,
        ensures
            e.start.x == self.start.x + vector.x,
            e.start.y == self.start.y + vector.y,
            e.end.x == self.end.x + vector.x,
            e.end.y == self.end.y + vector.y,
    {
        LeftSolidEdge { start: self.start.plus(vector), end: self.end.plus(vector) }
    }

    /// The vector from `start` to `end`.
    pub fn vector(&self) -> (v: Vector2)
        requires
            self.wf(),
        ensures
            v.x == self.dx(),
            v.y == self.dy(),
    {
        self.end.minus(self.start)
    }

    fn closing(&self, vx: i64, vy: i64) -> (r: i128)
        requires
            self.wf(),
            -MOVEMENT_LIMIT <= vx <= MOVEMENT_LIMIT,
            -MOVEMENT_LIMIT <= vy <= MOVEMENT_LIMIT,
        ensures
            r == self.closing_rate(vx as int, vy as int),
    {
        let dx: i128 = (self.end.x - self.start.x) as i128;
        let dy: i128 = (self.end.y - self.start.y) as i128;
        proof {
            let e: int = 2 * POINT_LIMIT;
            let m: int = MOVEMENT_LIMIT as int;
            lemma_product_bound(dx as int, vy as int, e, m);
            lemma_product_bound(dy as int, vx as int, e, m);
            assert(e * m == 0x10_0000_0000_0000) by (nonlinear_arith)
                requires
                    e == 0x1_0000_0000,
                    m == 0x10_0000,
            ;
        }
        dx * (vy as i128) - dy * (vx as i128)
    }

    fn contact_of_vertex(&self, p: Vector2, vx: i64, vy: i64) -> (r: Option<(i64, i64)>)
        requires
            self.wf(),
            p.within(POINT_LIMIT as int),
            -MOVEMENT_LIMIT <= vx <= MOVEMENT_LIMIT,
            -MOVEMENT_LIMIT <= vy <= MOVEMENT_LIMIT,
        ensures
            same_fraction(r, self.vertex_contact(p, vx as int, vy as int)),
            r matches Some(f) ==> 0 <= f.0 <= f.1 && 0 < f.1 <= FRACTION_LIMIT,
    {
        let dx: i128 = (self.end.x - self.start.x) as i128;
        let dy: i128 = (self.end.y - self.start.y) as i128;
        let px: i128 = (p.x - self.start.x) as i128;
        let py: i128 = (p.y - self.start.y) as i128;
        proof {
            let e: int = 2 * POINT_LIMIT;
            let m: int = MOVEMENT_LIMIT as int;
            lemma_product_bound(dx as int, vy as int, e, m);
            lemma_product_bound(dy as int, vx as int, e, m);
            lemma_product_bound(px as int, dy as int, e, e);
            lemma_product_bound(py as int, dx as int, e, e);
            lemma_product_bound(px as int, vy as int, e, m);
            lemma_product_bound(py as int, vx as int, e, m);
            assert(e * m == 0x10_0000_0000_0000 && e * e == 0x1_0000_0000_0000_0000)
                by (nonlinear_arith)
                requires
                    e == 0x1_0000_0000,
                    m == 0x10_0000,
            ;
        }
        let den: i128 = dx * (vy as i128) - dy * (vx as i128);
        let num: i128 = px * dy - py * dx;
        let at: i128 = px * (vy as i128) - py * (vx as i128);
        if den > 0 && 0 <= num && num <= den && 0 <= at && at < den {
            Some((num as i64, den as i64))
        } else {
            None
        }
    }
}

/// An executable fraction and a mathematical one are the same.
pub open spec fn same_fraction(r: Option<(i64, i64)>, f: Option<(int, int)>) -> bool {
    match r {
        Some(a) => f == Some((a.0 as int, a.1 as int)),
        None => f is None,
    }
}


/// The quotient of `a` by a positive `b`, rounded up where `toward` is
/// positive, down where it is negative, and toward zero where it is zero.
pub open spec fn rounded(a: int, b: int, toward: int) -> int {
    let q = toward_zero(a, b);
    if toward > 0 && q * b < a {
        q + 1
    } else if toward < 0 && q * b > a {
        q - 1
    } else {
        q
    }
}

/// Rounding up gives the least whole number that is no less than the
/// quotient, rounding down the greatest that is no more.
pub proof fn lemma_rounded(a: int, b: int, toward: int)
    requires
        b > 0,
    ensures
        toward > 0 ==> a <= rounded(a, b, toward) * b < a + b,
        toward < 0 ==> a - b < rounded(a, b, toward) * b <= a,
        toward == 0 ==> rounded(a, b, toward) == toward_zero(a, b),
{
    let q = toward_zero(a, b);
    lemma_toward_zero(a, b);
    assert((q + 1) * b == q * b + b) by (nonlinear_arith);
    assert((q - 1) * b == q * b - b) by (nonlinear_arith);
}

/// The quotient of `a` by a positive `b`, rounded up where `toward` is
/// positive, down where it is negative, and toward zero where it is zero.
pub fn divide_rounded(a: i128, b: i128, toward: i64) -> (q: i128)
    requires
        b > 0,
        -0x4000_0000_0000_0000_0000_0000_0000_0000 <= a <= 0x4000_0000_0000_0000_0000_0000_0000_0000,
    ensures
        q == rounded(a as int, b as int, toward as int),
{
    let q: i128 = divide_toward_zero(a, b);
    proof {
        lemma_toward_zero(a as int, b as int);
        assert(a >= 0 ==> q * b >= 0) by (nonlinear_arith)
            requires
                a >= 0 ==> q >= 0,
                b > 0,
        ;
        assert(a <= 0 ==> q * b <= 0) by (nonlinear_arith)
            requires
                a <= 0 ==> q <= 0,
                b > 0,
        ;
        assert(a >= 0 ==> q <= a) by (nonlinear_arith)
            requires
                a >= 0 ==> 0 <= q && q * b <= a,
                b > 0,
        ;
        assert(a <= 0 ==> q >= a) by (nonlinear_arith)
            requires
                a <= 0 ==> q <= 0 && a <= q * b,
                b > 0,
        ;
    }
    let back: i128 = q * b;
    if toward > 0 && back < a {
        q + 1
    } else if toward < 0 && back > a {
        q - 1
    } else {
        q
    }
}

/// `c * num / den`, rounded as `toward` says.
pub open spec fn scaled(c: int, num: int, den: int, toward: int) -> int {
    rounded(c * num, den, toward)
}

/// A component scaled by a fraction between zero and one keeps its sign and
/// does not grow, however it is rounded.
pub proof fn lemma_scaled_bounds(c: int, num: int, den: int, toward: int)
    requires
        0 <= num <= den,
        0 < den,
    ensures
        c >= 0 ==> 0 <= scaled(c, num, den, toward) <= c,
        c <= 0 ==> c <= scaled(c, num, den, toward) <= 0,
        num == 0 ==> scaled(c, num, den, toward) == 0,
        num == den ==> scaled(c, num, den, toward) == c,
{
    let a = c * num;
    let q = rounded(a, den, toward);
    lemma_rounded(a, den, toward);
    lemma_toward_zero(a, den);
    assert(c >= 0 ==> 0 <= a <= c * den) by (nonlinear_arith)
        requires
            a == c * num,
            0 <= num <= den,
    ;
    assert(c <= 0 ==> c * den <= a <= 0) by (nonlinear_arith)
        requires
            a == c * num,
            0 <= num <= den,
    ;
    assert(c >= 0 ==> 0 <= q <= c) by (nonlinear_arith)
        requires
            c >= 0 ==> 0 <= a <= c * den,
            den > 0,
            a - den < q * den < a + den,
    ;
    assert(c <= 0 ==> c <= q <= 0) by (nonlinear_arith)
        requires
            c <= 0 ==> c * den <= a <= 0,
            den > 0,
            a - den < q * den < a + den,
    ;
    if num == 0 {
        assert(a == 0) by (nonlinear_arith)
            requires
                a == c * num,
                num == 0,
        ;
    }
    if num == den {
        lemma_exact_rounded(c, den, toward);
    }
}

/// A product divided by one of its factors gives the other, however the
/// quotient is rounded.
pub proof fn lemma_exact_rounded(q: int, d: int, toward: int)
    requires
        d > 0,
    ensures
        rounded(q * d, d, toward) == q,
{
    lemma_exact_quotient(q, d);
}

/// The part of `(rx, ry)` that runs along `(dx, dy)`, each component rounded
/// toward zero; nothing along a direction of no length.
pub open spec fn projected(rx: int, ry: int, dx: int, dy: int) -> (int, int) {
    let n = dx * dx + dy * dy;
    let k = rx * dx + ry * dy;
    if n == 0 {
        (0, 0)
    } else {
        (toward_zero(dx * k, n), toward_zero(dy * k, n))
    }
}

/// A projection is no longer than what was projected.
pub proof fn lemma_projection_shrinks(rx: int, ry: int, dx: int, dy: int)
    ensures
        projected(rx, ry, dx, dy).0 * projected(rx, ry, dx, dy).0 + projected(rx, ry, dx, dy).1
            * projected(rx, ry, dx, dy).1 <= rx * rx + ry * ry,
{
    let n = dx * dx + dy * dy;
    let k = rx * dx + ry * dy;
    let big = rx * rx + ry * ry;
    assert(big >= 0) by (nonlinear_arith)
        requires
            big == rx * rx + ry * ry,
    ;
    assert(n >= 0) by (nonlinear_arith)
        requires
            n == dx * dx + dy * dy,
    ;
    if n != 0 {
        let ax = dx * k;
        let ay = dy * k;
        let sx = toward_zero(ax, n);
        let sy = toward_zero(ay, n);
        lemma_toward_zero(ax, n);
        lemma_toward_zero(ay, n);
        let px = sx * n;
        let py = sy * n;
        assert(sx >= 0 ==> px >= 0) by (nonlinear_arith)
            requires
                px == sx * n,
                n > 0,
        ;
        assert(sx <= 0 ==> px <= 0) by (nonlinear_arith)
            requires
                px == sx * n,
                n > 0,
        ;
        assert(sy >= 0 ==> py >= 0) by (nonlinear_arith)
            requires
                py == sy * n,
                n > 0,
        ;
        assert(sy <= 0 ==> py <= 0) by (nonlinear_arith)
            requires
                py == sy * n,
                n > 0,
        ;
        assert(px * px <= ax * ax) by (nonlinear_arith)
            requires
                (0 <= px <= ax) || (ax <= px <= 0),
        ;
        assert(py * py <= ay * ay) by (nonlinear_arith)
            requires
                (0 <= py <= ay) || (ay <= py <= 0),
        ;
        let small = sx * sx + sy * sy;
        let m = n * n;
        assert(px * px + py * py == small * m) by (nonlinear_arith)
            requires
                px == sx * n,
                py == sy * n,
                small == sx * sx + sy * sy,
                m == n * n,
        ;
        assert(ax * ax + ay * ay == n * (k * k)) by (nonlinear_arith)
            requires
                ax == dx * k,
                ay == dy * k,
                n == dx * dx + dy * dy,
        ;
        let c = rx * dy - ry * dx;
        let a = rx * dx;
        let b = ry * dy;
        let e = rx * dy;
        let f = ry * dx;
        assert((dx * dx) * (rx * rx) == a * a) by (nonlinear_arith)
            requires
                a == rx * dx,
        ;
        assert((dy * dy) * (ry * ry) == b * b) by (nonlinear_arith)
            requires
                b == ry * dy,
        ;
        assert((dy * dy) * (rx * rx) == e * e) by (nonlinear_arith)
            requires
                e == rx * dy,
        ;
        assert((dx * dx) * (ry * ry) == f * f) by (nonlinear_arith)
            requires
                f == ry * dx,
        ;
        assert(a * b == e * f) by (nonlinear_arith)
            requires
                a == rx * dx,
                b == ry * dy,
                e == rx * dy,
                f == ry * dx,
        ;
        assert(n * big == (dx * dx) * (rx * rx) + (dx * dx) * (ry * ry) + (dy * dy) * (rx * rx) + (
        dy * dy) * (ry * ry)) by (nonlinear_arith)
            requires
                n == dx * dx + dy * dy,
                big == rx * rx + ry * ry,
        ;
        assert(k * k == a * a + 2 * (a * b) + b * b) by (nonlinear_arith)
            requires
                k == a + b,
        ;
        assert(c * c == e * e - 2 * (e * f) + f * f) by (nonlinear_arith)
            requires
                c == e - f,
        ;
        assert(n * big - k * k == c * c);
        assert(c * c >= 0) by (nonlinear_arith);
        assert(n * (k * k) <= big * m) by (nonlinear_arith)
            requires
                k * k <= n * big,
                n > 0,
                m == n * n,
        ;
        assert(small <= big) by (nonlinear_arith)
            requires
                small * m <= big * m,
                m == n * n,
                n > 0,
        ;
    }
}

/// A vector whose components are no larger than those of a movement is a
/// movement.
pub proof fn lemma_smaller_is_movement(r: Vector2, v: Vector2)
    requires
        is_movement(v),
        (0 <= r.x <= v.x) || (v.x <= r.x <= 0),
        (0 <= r.y <= v.y) || (v.y <= r.y <= 0),
    ensures
        is_movement(r),
{
    let rx = r.x as int;
    let ry = r.y as int;
    let vx = v.x as int;
    let vy = v.y as int;
    assert(rx * rx <= vx * vx) by (nonlinear_arith)
        requires
            (0 <= rx <= vx) || (vx <= rx <= 0),
    ;
    assert(ry * ry <= vy * vy) by (nonlinear_arith)
        requires
            (0 <= ry <= vy) || (vy <= ry <= 0),
    ;
}

/// How the first of two fractions compares with the second: `a` is strictly
/// smaller than `b`. Both denominators are positive.
pub open spec fn fraction_less(a: (int, int), b: (int, int)) -> bool {
    a.0 * b.1 < b.0 * a.1
}

/// Of two contacts the earlier one; the first where they tie.
pub open spec fn earlier_contact(a: Option<(int, int)>, b: Option<(int, int)>) -> Option<
    (int, int),
> {
    match (a, b) {
        (None, _) => b,
        (Some(_), None) => a,
        (Some(x), Some(y)) => if fraction_less(y, x) {
            b
        } else {
            a
        },
    }
}

fn fraction_is_less(a: (i64, i64), b: (i64, i64)) -> (r: bool)
    ensures
        r == fraction_less((a.0 as int, a.1 as int), (b.0 as int, b.1 as int)),
{
    proof {
        let l: int = 0x8000_0000_0000_0000;
        lemma_product_bound(a.0 as int, b.1 as int, l, l);
        lemma_product_bound(b.0 as int, a.1 as int, l, l);
        assert(l * l == 0x4000_0000_0000_0000_0000_0000_0000_0000) by (nonlinear_arith)
            requires
                l == 0x8000_0000_0000_0000,
        ;
    }
    (a.0 as i128) * (b.1 as i128) < (b.0 as i128) * (a.1 as i128)
}

fn earlier_of(a: Option<(i64, i64)>, b: Option<(i64, i64)>) -> (r: Option<(i64, i64)>)
    requires
        a matches Some(f) ==> 0 <= f.0 <= f.1 && 0 < f.1 <= FRACTION_LIMIT,
        b matches Some(f) ==> 0 <= f.0 <= f.1 && 0 < f.1 <= FRACTION_LIMIT,
    ensures
        r == (match (a, b) {
            (None, _) => b,
            (Some(_), None) => a,
            (Some(x), Some(y)) => if fraction_less((y.0 as int, y.1 as int), (x.0 as int, x.1 as int)) {
                b
            } else {
                a
            },
        }),
        r matches Some(f) ==> 0 <= f.0 <= f.1 && 0 < f.1 <= FRACTION_LIMIT,
{
    match (a, b) {
        (None, _) => b,
        (Some(_), None) => a,
        (Some(x), Some(y)) => {
            proof {
                let l: int = FRACTION_LIMIT as int;
                lemma_product_bound(y.0 as int, x.1 as int, l, l);
                lemma_product_bound(x.0 as int, y.1 as int, l, l);
                assert(l * l == 0x400_0000_0000_0000_0000_0000_0000) by (nonlinear_arith)
                    requires
                        l == 0x20_0000_0000_0000,
                ;
            }
            if (y.0 as i128) * (x.1 as i128) < (x.0 as i128) * (y.1 as i128) {
                b
            } else {
                a
            }
        },
    }
}

/// What a moving edge learns on touching a stationary one: the fraction of the
/// movement that is free, the direction of the edge that was struck, and the
/// sideways correction that the contact asks for, if it asks for one.
#[derive(Clone, Copy, Debug, PartialEq, Eq)]
pub struct CollisionWithSlide {
    pub numerator: i64,
    pub denominator: i64,
    pub edge_vector: Vector2,
    pub bump: Option<Vector2>,
}

impl CollisionWithSlide {
    /// The fraction lies between zero and one, and the vectors are small
    /// enough to compute with.
    pub open spec fn wf(self) -> bool {
        &&& 0 <= self.numerator <= self.denominator
        &&& 0 < self.denominator <= FRACTION_LIMIT
        &&& self.edge_vector.within(2 * POINT_LIMIT)
        &&& (self.bump matches Some(b) ==> is_movement(b))
    }

    /// The free fraction of the movement, as numerator and denominator.
    pub open spec fn fraction(self) -> (int, int) {
        (self.numerator as int, self.denominator as int)
    }

    /// This contact comes strictly before `other` along the same movement.
    pub open spec fn nearer_than(self, other: CollisionWithSlide) -> bool {
        fraction_less(self.fraction(), other.fraction())
    }

    /// This contact comes exactly when `other` does.
    pub open spec fn as_near_as(self, other: CollisionWithSlide) -> bool {
        self.numerator * other.denominator == other.numerator * self.denominator
    }

    /// The part of `movement` that is free before the contact. Each
    /// component is rounded to the side that the normal of the edge that
    /// was struck points to, so that what struck it does not end behind it.
    pub open spec fn spec_movement_to_collision(self, movement: Vector2) -> Vector2 {
        Vector2 {
            x: scaled(
                movement.x as int,
                self.numerator as int,
                self.denominator as int,
                self.edge_vector.y as int,
            ) as i64,
            y: scaled(
                movement.y as int,
                self.numerator as int,
                self.denominator as int,
                -self.edge_vector.x,
            ) as i64,
        }
    }

    pub open spec fn spec_movement_following_collision(self, movement: Vector2) -> Vector2 {
        Vector2 {
            x: (movement.x - self.spec_movement_to_collision(movement).x) as i64,
            y: (movement.y - self.spec_movement_to_collision(movement).y) as i64,
        }
    }

    pub open spec fn spec_slide(self, movement: Vector2) -> Vector2 {
        let r = self.spec_movement_following_collision(movement);
        let p = projected(
            r.x as int,
            r.y as int,
            self.edge_vector.x as int,
            self.edge_vector.y as int,
        );
        Vector2 { x: p.0 as i64, y: p.1 as i64 }
    }

    /// What the three vectors of a contact are, without the casts of their
    /// definitions, and that each of them is again a movement.
    pub proof fn lemma_vectors(self, movement: Vector2)
        requires
            self.wf(),
            is_movement(movement),
        ensures
            self.spec_movement_to_collision(movement).x == scaled(
                movement.x as int,
                self.numerator as int,
                self.denominator as int,
                self.edge_vector.y as int,
            ),
            self.spec_movement_to_collision(movement).y == scaled(
                movement.y as int,
                self.numerator as int,
                self.denominator as int,
                -self.edge_vector.x,
            ),
            self.spec_movement_following_collision(movement).x == movement.x
                - self.spec_movement_to_collision(movement).x,
            self.spec_movement_following_collision(movement).y == movement.y
                - self.spec_movement_to_collision(movement).y,
            (self.spec_slide(movement).x as int, self.spec_slide(movement).y as int) == projected(
                self.spec_movement_following_collision(movement).x as int,
                self.spec_movement_following_collision(movement).y as int,
                self.edge_vector.x as int,
                self.edge_vector.y as int,
            ),
            is_movement(self.spec_movement_to_collision(movement)),
            is_movement(self.spec_movement_following_collision(movement)),
            is_movement(self.spec_slide(movement)),
            self.spec_movement_to_collision(movement).within(MOVEMENT_LIMIT as int),
            self.spec_movement_following_collision(movement).within(MOVEMENT_LIMIT as int),
            self.spec_slide(movement).within(MOVEMENT_LIMIT as int),
    {
        lemma_movement_within(movement);
        lemma_scaled_bounds(
            movement.x as int,
            self.numerator as int,
            self.denominator as int,
            self.edge_vector.y as int,
        );
        lemma_scaled_bounds(
            movement.y as int,
            self.numerator as int,
            self.denominator as int,
            -self.edge_vector.x,
        );
        let to = self.spec_movement_to_collision(movement);
        lemma_smaller_is_movement(to, movement);
        let r = self.spec_movement_following_collision(movement);
        lemma_smaller_is_movement(r, movement);
        lemma_movement_within(r);
        let p = projected(
            r.x as int,
            r.y as int,
            self.edge_vector.x as int,
            self.edge_vector.y as int,
        );
        lemma_projection_shrinks(
            r.x as int,
            r.y as int,
            self.edge_vector.x as int,
            self.edge_vector.y as int,
        );
        let l = MOVEMENT_LIMIT as int;
        assert(-l <= p.0 <= l && -l <= p.1 <= l) by (nonlinear_arith)
            requires
                p.0 * p.0 + p.1 * p.1 <= l * l,
                l >= 0,
        ;
        lemma_movement_within(self.spec_slide(movement));
    }

    /// The part of `movement` that is free before the contact.
    pub fn movement_to_collision(&self, movement: Vector2) -> (r: Vector2)
        requires
            self.wf(),
            is_movement(movement),
        ensures
            r == self.spec_movement_to_collision(movement),
    {
        proof {
            self.lemma_vectors(movement);
            lemma_movement_within(movement);
            let l: int = MOVEMENT_LIMIT as int;
            let f: int = FRACTION_LIMIT as int;
            lemma_product_bound(movement.x as int, self.numerator as int, l, f);
            lemma_product_bound(movement.y as int, self.numerator as int, l, f);
            assert(l * f == 0x200_0000_0000_0000_0000) by (nonlinear_arith)
                requires
                    l == 0x10_0000,
                    f == 0x20_0000_0000_0000,
            ;
        }
        let n: i128 = self.numerator as i128;
        let d: i128 = self.denominator as i128;
        let x: i128 = divide_rounded((movement.x as i128) * n, d, self.edge_vector.y);
        let y: i128 = divide_rounded((movement.y as i128) * n, d, -self.edge_vector.x);
        Vector2 { x: x as i64, y: y as i64 }
    }

    /// The part of `movement` that is left at the contact.
    pub fn movement_following_collision(&self, movement: Vector2) -> (r: Vector2)
        requires
            self.wf(),
            is_movement(movement),
        ensures
            r == self.spec_movement_following_collision(movement),
    {
        proof {
            self.lemma_vectors(movement);
            lemma_movement_within(movement);
        }
        let to = self.movement_to_collision(movement);
        movement.minus(to)
    }

    /// What is left of `movement` at the contact, turned along the edge that
    /// was met.
    pub fn slide(&self, movement: Vector2) -> (r: Vector2)
        requires
            self.wf(),
            is_movement(movement),
        ensures
            r == self.spec_slide(movement),
    {
        let rest = self.movement_following_collision(movement);
        let e = self.edge_vector;
        proof {
            self.lemma_vectors(movement);
            let l: int = MOVEMENT_LIMIT as int;
            let w: int = 2 * POINT_LIMIT;
            lemma_product_bound(rest.x as int, e.x as int, l, w);
            lemma_product_bound(rest.y as int, e.y as int, l, w);
            lemma_product_bound(e.x as int, e.x as int, w, w);
            lemma_product_bound(e.y as int, e.y as int, w, w);
            assert(l * w == 0x10_0000_0000_0000 && w * w == 0x1_0000_0000_0000_0000)
                by (nonlinear_arith)
                requires
                    l == 0x10_0000,
                    w == 0x1_0000_0000,
            ;
            let k: int = rest.x * e.x + rest.y * e.y;
            lemma_product_bound(e.x as int, k, w, 2 * (l * w));
            lemma_product_bound(e.y as int, k, w, 2 * (l * w));
            assert(w * (2 * (l * w)) == 0x20_0000_0000_0000_0000_0000) by (nonlinear_arith)
                requires
                    l == 0x10_0000,
                    w == 0x1_0000_0000,
            ;
        }
        let n: i128 = e.dot(e);
        if n == 0 {
            Vector2 { x: 0, y: 0 }
        } else {
            let k: i128 = rest.dot(e);
            proof {
                assert(n > 0) by (nonlinear_arith)
                    requires
                        n == e.x * e.x + e.y * e.y,
                        n != 0,
                ;
            }
            let x: i128 = divide_toward_zero((e.x as i128) * k, n);
            let y: i128 = divide_toward_zero((e.y as i128) * k, n);
            Vector2 { x: x as i64, y: y as i64 }
        }
    }

    /// How far an edge that moves by `movement` pushes what it met: the part
    /// of its movement that comes after the contact.
    pub fn displacement(&self, movement: Vector2) -> (r: Vector2)
        requires
            self.wf(),
            is_movement(movement),
        ensures
            r == self.spec_movement_following_collision(movement),
    {
        self.movement_following_collision(movement)
    }

    /// The velocity that an edge moving by `movement` hands to what it
    /// pushes: its whole movement.
    pub fn displacement_full_movement(&self, movement: Vector2) -> (r: Vector2)
        ensures
            r == movement,
    {
        movement
    }

    /// Tells whether this contact comes strictly before `other`.
    pub fn is_nearer_than(&self, other: &CollisionWithSlide) -> (r: bool)
        ensures
            r == self.nearer_than(*other),
    {
        proof {
            let l: int = 0x8000_0000_0000_0000;
            lemma_product_bound(self.numerator as int, other.denominator as int, l, l);
            lemma_product_bound(other.numerator as int, self.denominator as int, l, l);
            assert(l * l == 0x4000_0000_0000_0000_0000_0000_0000_0000) by (nonlinear_arith)
                requires
                    l == 0x8000_0000_0000_0000,
            ;
        }
        (self.numerator as i128) * (other.denominator as i128) < (other.numerator as i128) * (
        self.denominator as i128)
    }

    /// Tells whether this contact comes exactly when `other` does.
    pub fn is_as_near_as(&self, other: &CollisionWithSlide) -> (r: bool)
        ensures
            r == self.as_near_as(*other),
    {
        proof {
            let l: int = 0x8000_0000_0000_0000;
            lemma_product_bound(self.numerator as int, other.denominator as int, l, l);
            lemma_product_bound(other.numerator as int, self.denominator as int, l, l);
            assert(l * l == 0x4000_0000_0000_0000_0000_0000_0000_0000) by (nonlinear_arith)
                requires
                    l == 0x8000_0000_0000_0000,
            ;
        }
        (self.numerator as i128) * (other.denominator as i128) == (other.numerator as i128) * (
        self.denominator as i128)
    }
}

impl LeftSolidEdge {
    /// This edge, moving by `(vx, vy)`, does not come at `stationary` from
    /// behind, nor with its own back first: neither normal points along the
    /// way that the other edge takes relative to it.
    pub open spec fn approaches(self, stationary: LeftSolidEdge, vx: int, vy: int) -> bool {
        stationary.closing_rate(vx, vy) >= 0 && self.closing_rate(-vx, -vy) >= 0
    }

    /// The earliest contact of one of the two ends of this edge, moving by
    /// `(vx, vy)`, with `stationary`.
    pub open spec fn end_contact(self, stationary: LeftSolidEdge, vx: int, vy: int) -> Option<
        (int, int),
    > {
        earlier_contact(
            stationary.vertex_contact(self.start, vx, vy),
            stationary.vertex_contact(self.end, vx, vy),
        )
    }

    /// The earliest contact of one of the two ends of `stationary` with
    /// this edge, moving by `(vx, vy)`.
    pub open spec fn corner_contact(self, stationary: LeftSolidEdge, vx: int, vy: int) -> Option<
        (int, int),
    > {
        earlier_contact(
            self.vertex_contact(stationary.start, -vx, -vy),
            self.vertex_contact(stationary.end, -vx, -vy),
        )
    }

    /// The ends of `stationary` touch this edge before the ends of this edge
    /// touch `stationary`.
    pub open spec fn corner_first(self, stationary: LeftSolidEdge, vx: int, vy: int) -> bool {
        match (self.end_contact(stationary, vx, vy), self.corner_contact(stationary, vx, vy)) {
            (None, Some(_)) => true,
            (Some(x), Some(y)) => fraction_less(y, x),
            _ => false,
        }
    }

    /// The fraction of the movement `(vx, vy)` after which this edge, moving,
    /// first touches `stationary` from its solid side: the earliest contact
    /// of one of its two ends with the other edge, or of one of the other
    /// edge's ends with it.
    pub open spec fn contact_fraction(self, stationary: LeftSolidEdge, vx: int, vy: int) -> Option<
        (int, int),
    > {
        if self.approaches(stationary, vx, vy) {
            earlier_contact(
                self.end_contact(stationary, vx, vy),
                self.corner_contact(stationary, vx, vy),
            )
        } else {
            None
        }
    }

    /// The first contact of this edge, moving by `movement`, with
    /// `stationary`. The rest of the movement slides along the edge that
    /// was struck between its ends: along `stationary` where an end of
    /// this edge touches first, and along this edge, taken backwards,
    /// where an end of `stationary` does. Either way the normal of that
    /// direction points to the side on which the moving edge has to stay.
    pub open spec fn spec_collide(self, stationary: LeftSolidEdge, movement: Vector2) -> Option<
        CollisionWithSlide,
    > {
        match self.contact_fraction(stationary, movement.x as int, movement.y as int) {
            None => None,
            Some(f) => Some(
                CollisionWithSlide {
                    numerator: f.0 as i64,
                    denominator: f.1 as i64,
                    edge_vector: if self.corner_first(
                        stationary,
                        movement.x as int,
                        movement.y as int,
                    ) {
                        Vector2 { x: (-self.dx()) as i64, y: (-self.dy()) as i64 }
                    } else {
                        Vector2 { x: stationary.dx() as i64, y: stationary.dy() as i64 }
                    },
                    bump: None,
                },
            ),
        }
    }

    /// The first contact of this edge, moving by `movement`, with
    /// `stationary`, if there is one within the movement.
    pub fn collide_with_stationary_edge(
        &self,
        stationary: &LeftSolidEdge,
        movement: Vector2,
    ) -> (r: Option<CollisionWithSlide>)
        requires
            self.wf(),
            stationary.wf(),
            is_movement(movement),
        ensures
            r == self.spec_collide(*stationary, movement),
            r matches Some(c) ==> c.wf() && c.fraction() == self.contact_fraction(
                *stationary,
                movement.x as int,
                movement.y as int,
            )->0,
    {
        proof {
            lemma_movement_within(movement);
        }
        let vx: i64 = movement.x;
        let vy: i64 = movement.y;
        if stationary.closing(vx, vy) < 0 || self.closing(-vx, -vy) < 0 {
            return None;
        }
        let a = stationary.contact_of_vertex(self.start, vx, vy);
        let b = stationary.contact_of_vertex(self.end, vx, vy);
        let c = self.contact_of_vertex(stationary.start, -vx, -vy);
        let d = self.contact_of_vertex(stationary.end, -vx, -vy);
        let ends = earlier_of(a, b);
        let corners = earlier_of(c, d);
        let first = earlier_of(ends, corners);
        let corner_first = match (ends, corners) {
            (None, Some(_)) => true,
            (Some(x), Some(y)) => fraction_is_less(y, x),
            _ => false,
        };
        match first {
            None => None,
            Some(f) => Some(
                CollisionWithSlide {
                    numerator: f.0,
                    denominator: f.1,
                    edge_vector: if corner_first {
                        self.vector().negated()
                    } else {
                        stationary.vector()
                    },
                    bump: None,
                },
            ),
        }
    }
}


/// A product divided by one of its factors gives the other.
pub proof fn lemma_exact_quotient(q: int, d: int)
    requires
        d > 0,
    ensures
        toward_zero(q * d, d) == q,
{
    let a = q * d;
    let t = toward_zero(a, d);
    lemma_toward_zero(a, d);
    assert(q >= 0 ==> a >= 0) by (nonlinear_arith)
        requires
            a == q * d,
            d > 0,
    ;
    assert(q <= 0 ==> a <= 0) by (nonlinear_arith)
        requires
            a == q * d,
            d > 0,
    ;
    assert(t == q) by (nonlinear_arith)
        requires
            a == q * d,
            d > 0,
            a >= 0 ==> t * d <= a < t * d + d,
            a <= 0 ==> t * d - d < a <= t * d,
    ;
}

/// A point that comes down on a level edge stops exactly on it, and what
/// its movement has along the edge is made in full: the part before the
/// contact and the slide after it add up to it.
pub proof fn lemma_level_edge_stops_exactly(
    edge: LeftSolidEdge,
    p: Vector2,
    movement: Vector2,
    contact: CollisionWithSlide,
)
    requires
        is_movement(movement),
        edge.start.y == edge.end.y,
        edge.start.x < edge.end.x,
        contact.wf(),
        edge.vertex_contact(p, movement.x as int, movement.y as int) == Some(contact.fraction()),
        contact.edge_vector.x == edge.dx(),
        contact.edge_vector.y == edge.dy(),
    ensures
        p.y + contact.spec_movement_to_collision(movement).y == edge.start.y,
        contact.spec_movement_to_collision(movement).x + contact.spec_slide(movement).x
            == movement.x,
        contact.spec_slide(movement).y == 0,
{
    contact.lemma_vectors(movement);
    let w = edge.dx();
    let vx = movement.x as int;
    let vy = movement.y as int;
    let gap = edge.start.y - p.y;
    let den = edge.closing_rate(vx, vy);
    let num = edge.offset_of(p);
    assert(den == w * vy && num == gap * w) by (nonlinear_arith)
        requires
            den == w * vy - edge.dy() * vx,
            num == (p.x - edge.start.x) * edge.dy() - (p.y - edge.start.y) * w,
            edge.dy() == 0,
            gap == edge.start.y - p.y,
    ;
    assert(vy * num == gap * den) by (nonlinear_arith)
        requires
            den == w * vy,
            num == gap * w,
    ;
    lemma_exact_rounded(gap, den, -contact.edge_vector.x);
    let rest = contact.spec_movement_following_collision(movement);
    let n = w * w + edge.dy() * edge.dy();
    let k = rest.x * w + rest.y * edge.dy();
    assert(n == w * w && k == rest.x * w && n > 0 && w * k == rest.x * n && edge.dy() * k == 0)
        by (nonlinear_arith)
        requires
            n == w * w + edge.dy() * edge.dy(),
            k == rest.x * w + rest.y * edge.dy(),
            edge.dy() == 0,
            w > 0,
    ;
    lemma_exact_quotient(rest.x as int, n);
    lemma_toward_zero(0, n);
}


/// A point that does not move meets no edge.
pub proof fn lemma_still_point_meets_nothing(edge: LeftSolidEdge, p: Vector2)
    ensures
        edge.vertex_contact(p, 0, 0) is None,
{
    assert(edge.closing_rate(0, 0) == 0) by (nonlinear_arith)
        requires
            edge.closing_rate(0, 0) == edge.dx() * 0 - edge.dy() * 0,
    ;
}


/// The free part of a movement pushes no further against the normal of the
/// edge that was struck than the exact fraction of the movement does.
pub proof fn lemma_advance_against_normal(contact: CollisionWithSlide, movement: Vector2)
    requires
        contact.wf(),
        is_movement(movement),
    ensures
        contact.denominator * (contact.spec_movement_to_collision(movement).x
            * contact.edge_vector.y - contact.spec_movement_to_collision(movement).y
            * contact.edge_vector.x) >= contact.numerator * (movement.x * contact.edge_vector.y
            - movement.y * contact.edge_vector.x),
{
    contact.lemma_vectors(movement);
    let num = contact.numerator as int;
    let den = contact.denominator as int;
    let ex = contact.edge_vector.x as int;
    let ey = contact.edge_vector.y as int;
    let mx = contact.spec_movement_to_collision(movement).x as int;
    let my = contact.spec_movement_to_collision(movement).y as int;
    let ax = movement.x * num;
    let ay = movement.y * num;
    lemma_rounded(ax, den, ey);
    lemma_rounded(ay, den, -ex);
    lemma_toward_zero(ax, den);
    lemma_toward_zero(ay, den);
    assert((mx * den) * ey >= ax * ey) by (nonlinear_arith)
        requires
            ey > 0 ==> mx * den >= ax,
            ey < 0 ==> mx * den <= ax,
    ;
    assert((my * den) * (-ex) >= ay * (-ex)) by (nonlinear_arith)
        requires
            -ex > 0 ==> my * den >= ay,
            -ex < 0 ==> my * den <= ay,
    ;
    assert(den * (mx * ey - my * ex) == (mx * den) * ey + (my * den) * (-ex)) by (nonlinear_arith);
    assert(num * (movement.x * ey - movement.y * ex) == ax * ey + ay * (-ex)) by (nonlinear_arith)
        requires
            ax == movement.x * num,
            ay == movement.y * num,
    ;
}

/// An end of a moving edge that strikes an edge does not end behind it:
/// after the free part of the movement it stands on the edge's line or on the
/// side that the edge's normal points to.
pub proof fn lemma_end_stays_outside(
    edge: LeftSolidEdge,
    p: Vector2,
    movement: Vector2,
    contact: CollisionWithSlide,
)
    requires
        is_movement(movement),
        contact.wf(),
        edge.vertex_contact(p, movement.x as int, movement.y as int) == Some(contact.fraction()),
        contact.edge_vector.x == edge.dx(),
        contact.edge_vector.y == edge.dy(),
    ensures
        (p.x + contact.spec_movement_to_collision(movement).x - edge.start.x) * edge.dy() - (p.y
            + contact.spec_movement_to_collision(movement).y - edge.start.y) * edge.dx() >= 0,
{
    lemma_advance_against_normal(contact, movement);
    let num = contact.numerator as int;
    let den = contact.denominator as int;
    let dx = edge.dx();
    let dy = edge.dy();
    let mx = contact.spec_movement_to_collision(movement).x as int;
    let my = contact.spec_movement_to_collision(movement).y as int;
    let px = p.x - edge.start.x;
    let py = p.y - edge.start.y;
    let against = mx * dy - my * dx;
    assert((px + mx) * dy - (py + my) * dx == (px * dy - py * dx) + against) by (nonlinear_arith)
        requires
            against == mx * dy - my * dx,
    ;
    assert(num + against >= 0) by (nonlinear_arith)
        requires
            den * against >= num * (movement.x * dy - movement.y * dx),
            den == dx * movement.y - dy * movement.x,
            den > 0,
            num >= 0,
    ;
}

/// An end of a stationary edge that a moving edge strikes does not end
/// behind the moving edge: after the free part of the movement it stands on
/// the moving edge's line or on the side that its normal points to.
pub proof fn lemma_corner_stays_outside(
    moving: LeftSolidEdge,
    q: Vector2,
    movement: Vector2,
    contact: CollisionWithSlide,
)
    requires
        is_movement(movement),
        contact.wf(),
        moving.vertex_contact(q, -movement.x, -movement.y) == Some(contact.fraction()),
        contact.edge_vector.x == -moving.dx(),
        contact.edge_vector.y == -moving.dy(),
    ensures
        (q.x - contact.spec_movement_to_collision(movement).x - moving.start.x) * moving.dy() - (
        q.y - contact.spec_movement_to_collision(movement).y - moving.start.y) * moving.dx() >= 0,
{
    lemma_advance_against_normal(contact, movement);
    let num = contact.numerator as int;
    let den = contact.denominator as int;
    let dx = moving.dx();
    let dy = moving.dy();
    let mx = contact.spec_movement_to_collision(movement).x as int;
    let my = contact.spec_movement_to_collision(movement).y as int;
    let qx = q.x - moving.start.x;
    let qy = q.y - moving.start.y;
    let against = mx * (-dy) - my * (-dx);
    assert((qx - mx) * dy - (qy - my) * dx == (qx * dy - qy * dx) + against) by (nonlinear_arith)
        requires
            against == mx * (-dy) - my * (-dx),
    ;
    assert(num + against >= 0) by (nonlinear_arith)
        requires
            den * against >= num * (movement.x * (-dy) - movement.y * (-dx)),
            den == dx * (-movement.y) - dy * (-movement.x),
            den > 0,
            num >= 0,
    ;
}

} // verus!
