//! Which way the triangles of the outline turn.
//!
//! All `x` and `y` of the outline stand over the denominator `2 * size.den`
//! and all `z` over `height.den`, so the sign of a product of coordinates is
//! the sign of the product of what stands above the fraction bars. What
//! stands there are whole numbers `rat + root * sqrt(3)`, and with them the
//! volume that a triangle spans with the centre of the prism is computed
//! exactly.

use vstd::prelude::*;
use crate::hexagon::corner_value;
use crate::outline::bottom_cap_triangles;
use crate::outline::cap_vertex;
use crate::outline::cap_vertices;
use crate::outline::side_vertices;
use crate::outline::lemma_sides_take_each_edge_once;
use crate::outline::lemma_fan_is_cap_triangles;
use crate::outline::outline_indices;
use crate::outline::outline_vertices;
use crate::outline::side_edge;
use crate::outline::side_of;
use crate::outline::side_triangles;
use crate::outline::top_cap_triangles;
use crate::outline::triangle;
use crate::outline::VertexValue;
use crate::surd::SurdValue;

verus! {

/// A whole number of the form `rat + root * sqrt(3)`.
pub struct Whole {
    pub rat: int,
    pub root: int,
}

impl Whole {
    /// The number zero.
    pub open spec fn zero() -> Whole {
        Whole { rat: 0, root: 0 }
    }

    /// The sum.
    pub open spec fn plus(self, other: Whole) -> Whole {
        Whole { rat: self.rat + other.rat, root: self.root + other.root }
    }

    /// The difference.
    pub open spec fn minus(self, other: Whole) -> Whole {
        Whole { rat: self.rat - other.rat, root: self.root - other.root }
    }

    /// The number with its sign turned.
    pub open spec fn neg(self) -> Whole {
        Whole { rat: -self.rat, root: -self.root }
    }

    /// Twice the number.
    pub open spec fn twice(self) -> Whole {
        Whole { rat: 2 * self.rat, root: 2 * self.root }
    }

    /// The product, by `sqrt(3) * sqrt(3) == 3`.
    pub open spec fn times(self, other: Whole) -> Whole {
        Whole {
            rat: self.rat * other.rat + 3 * (self.root * other.root),
            root: self.rat * other.root + self.root * other.rat,
        }
    }

    /// The number times `sqrt(3)`.
    pub open spec fn times_root3(self) -> Whole {
        Whole { rat: 3 * self.root, root: self.rat }
    }

    /// The number times `rat - root * sqrt(3)`, which is a whole number
    /// without a root: positive where the rational part of the number
    /// outweighs the other, negative where the part with the root does.
    pub open spec fn norm(self) -> int {
        self.rat * self.rat - 3 * (self.root * self.root)
    }

    /// The number is greater than zero: of its two parts the one that
    /// outweighs the other is positive. The two never weigh the same but in
    /// the number zero, by [`lemma_root3_is_no_fraction`].
    pub open spec fn is_positive(self) -> bool {
        (self.norm() > 0 && self.rat > 0) || (self.norm() < 0 && self.root > 0)
    }
}

/// What stands above the fraction bar of a number.
pub open spec fn above(v: SurdValue) -> Whole {
    Whole { rat: v.rat, root: v.root }
}

/// A point or a vector in space.
pub type Triple = (Whole, Whole, Whole);

/// The vector from `a` to `b`.
pub open spec fn from_to(a: Triple, b: Triple) -> Triple {
    (b.0.minus(a.0), b.1.minus(a.1), b.2.minus(a.2))
}

/// The cross product of two vectors.
pub open spec fn cross(u: Triple, w: Triple) -> Triple {
    (
        u.1.times(w.2).minus(u.2.times(w.1)),
        u.2.times(w.0).minus(u.0.times(w.2)),
        u.0.times(w.1).minus(u.1.times(w.0)),
    )
}

/// The dot product of two vectors.
pub open spec fn dot(u: Triple, w: Triple) -> Whole {
    u.0.times(w.0).plus(u.1.times(w.1)).plus(u.2.times(w.2))
}

/// Six times the volume that the triangle `a`, `b`, `c` spans with the
/// origin. Where this is positive, the cross product of the triangle's
/// edges points away from the origin, and the triangle runs counter-clockwise
/// seen from beyond it.
pub open spec fn turn(a: Triple, b: Triple, c: Triple) -> Whole {
    dot(a, cross(from_to(a, b), from_to(a, c)))
}

/// The cross product of two vectors in the plane.
pub open spec fn cross_flat(p: (Whole, Whole), q: (Whole, Whole)) -> Whole {
    p.0.times(q.1).minus(p.1.times(q.0))
}

proof fn lemma_times_zero(x: Whole)
    ensures
        x.times(Whole::zero()) == Whole::zero(),
        Whole::zero().times(x) == Whole::zero(),
{
    assert(x.rat * 0 == 0 && x.root * 0 == 0 && 0 * x.rat == 0 && 0 * x.root == 0)
        by (nonlinear_arith);
}

proof fn lemma_times_swaps(x: Whole, y: Whole)
    ensures
        x.times(y) == y.times(x),
{
    assert(x.rat * y.rat == y.rat * x.rat && x.root * y.root == y.root * x.root && x.rat * y.root
        == y.root * x.rat && x.root * y.rat == y.rat * x.root) by (nonlinear_arith);
}

proof fn lemma_times_neg(x: Whole, y: Whole)
    ensures
        x.times(y.neg()) == x.times(y).neg(),
        x.neg().times(y) == x.times(y).neg(),
{
    assert(x.rat * (-y.rat) == -(x.rat * y.rat) && x.root * (-y.root) == -(x.root * y.root)
        && x.rat * (-y.root) == -(x.rat * y.root) && x.root * (-y.rat) == -(x.root * y.rat))
        by (nonlinear_arith);
    assert((-x.rat) * y.rat == -(x.rat * y.rat) && (-x.root) * y.root == -(x.root * y.root) && (
    -x.rat) * y.root == -(x.rat * y.root) && (-x.root) * y.rat == -(x.root * y.rat))
        by (nonlinear_arith);
}

proof fn lemma_times_spreads(x: Whole, y: Whole, w: Whole)
    ensures
        x.times(y.minus(w)) == x.times(y).minus(x.times(w)),
        x.times(y.plus(w)) == x.times(y).plus(x.times(w)),
        y.minus(w).times(x) == y.times(x).minus(w.times(x)),
{
    assert(x.rat * (y.rat - w.rat) == x.rat * y.rat - x.rat * w.rat && x.root * (y.root - w.root)
        == x.root * y.root - x.root * w.root && x.rat * (y.root - w.root) == x.rat * y.root - x.rat
        * w.root && x.root * (y.rat - w.rat) == x.root * y.rat - x.root * w.rat)
        by (nonlinear_arith);
    assert(x.rat * (y.rat + w.rat) == x.rat * y.rat + x.rat * w.rat && x.root * (y.root + w.root)
        == x.root * y.root + x.root * w.root && x.rat * (y.root + w.root) == x.rat * y.root + x.rat
        * w.root && x.root * (y.rat + w.rat) == x.root * y.rat + x.root * w.rat)
        by (nonlinear_arith);
    lemma_times_swaps(x, y.minus(w));
    lemma_times_swaps(x, y);
    lemma_times_swaps(x, w);
}

proof fn lemma_times_groups(x: Whole, y: Whole, w: Whole)
    ensures
        x.times(y).times(w) == x.times(y.times(w)),
{
    let (a, b) = (x.rat, x.root);
    let (c, d) = (y.rat, y.root);
    let (e, f) = (w.rat, w.root);
    assert((a * c + 3 * (b * d)) * e == a * (c * e) + 3 * (b * (d * e))) by (nonlinear_arith);
    assert((a * d + b * c) * f == a * (d * f) + b * (c * f)) by (nonlinear_arith);
    assert((a * c + 3 * (b * d)) * f == a * (c * f) + 3 * (b * (d * f))) by (nonlinear_arith);
    assert((a * d + b * c) * e == a * (d * e) + b * (c * e)) by (nonlinear_arith);
    assert(a * (c * e + 3 * (d * f)) == a * (c * e) + 3 * (a * (d * f))) by (nonlinear_arith);
    assert(b * (c * f + d * e) == b * (c * f) + b * (d * e)) by (nonlinear_arith);
    assert(a * (c * f + d * e) == a * (c * f) + a * (d * e)) by (nonlinear_arith);
    assert(b * (c * e + 3 * (d * f)) == b * (c * e) + 3 * (b * (d * f))) by (nonlinear_arith);
}

/// `p` times what `q` is beyond `p` is the cross product of the two.
proof fn lemma_cross_of_step(p: (Whole, Whole), q: (Whole, Whole))
    ensures
        p.0.times(q.1.minus(p.1)).minus(p.1.times(q.0.minus(p.0))) == cross_flat(p, q),
{
    lemma_times_spreads(p.0, q.1, p.1);
    lemma_times_spreads(p.1, q.0, p.0);
    lemma_times_swaps(p.0, p.1);
}

/// The cross product of the two edges that start at `p` in a triangle at
/// the height `z` that runs from `p` over the centre to `q`.
proof fn lemma_cross_of_cap(p: (Whole, Whole), q: (Whole, Whole), z: Whole)
    ensures
        cross(
            from_to((p.0, p.1, z), (Whole::zero(), Whole::zero(), z)),
            from_to((p.0, p.1, z), (q.0, q.1, z)),
        ) == (Whole::zero(), Whole::zero(), cross_flat(p, q).neg()),
{
    let zero = Whole::zero();
    let a = (p.0, p.1, z);
    let u = from_to(a, (zero, zero, z));
    let w = from_to(a, (q.0, q.1, z));
    let cr = cross(u, w);
    assert(u.2 == zero && w.2 == zero);
    assert(u.0 == p.0.neg() && u.1 == p.1.neg());
    lemma_times_zero(u.0);
    lemma_times_zero(u.1);
    lemma_times_zero(w.0);
    lemma_times_zero(w.1);
    assert(cr.0 == zero);
    assert(cr.1 == zero);
    lemma_times_neg(p.0, w.1);
    lemma_times_neg(p.1, w.0);
    lemma_cross_of_step(p, q);
    assert(cr.2 == cross_flat(p, q).neg());
}

/// A triangle at the height `z` that runs from `p` over the centre to `q`.
proof fn lemma_turn_of_cap(p: (Whole, Whole), q: (Whole, Whole), z: Whole)
    ensures
        turn((p.0, p.1, z), (Whole::zero(), Whole::zero(), z), (q.0, q.1, z)) == z.times(
            cross_flat(p, q),
        ).neg(),
{
    lemma_cross_of_cap(p, q, z);
    lemma_times_zero(p.0);
    lemma_times_zero(p.1);
    lemma_times_neg(z, cross_flat(p, q));
}

/// The two triangles of a wall that stands on the line from `p` to `q`
/// between the heights `bottom` and `top`: from the top of `p` over the
/// bottom of `p` to the top of `q`, and from the top of `q` over the bottom
/// of `p` to the bottom of `q`.
proof fn lemma_turn_of_side(p: (Whole, Whole), q: (Whole, Whole), top: Whole, bottom: Whole)
    ensures
        turn((p.0, p.1, top), (p.0, p.1, bottom), (q.0, q.1, top)) == cross_flat(p, q).times(
            top.minus(bottom),
        ),
        turn((q.0, q.1, top), (p.0, p.1, bottom), (q.0, q.1, bottom)) == cross_flat(p, q).times(
            top.minus(bottom),
        ),
{
    let zero = Whole::zero();
    let dx = q.0.minus(p.0);
    let dy = q.1.minus(p.1);
    let fall = bottom.minus(top);
    let rise = top.minus(bottom);
    let flat = cross_flat(p, q);
    assert(rise == fall.neg());
    lemma_cross_of_step(p, q);
    lemma_times_spreads(q.0, q.1, p.1);
    lemma_times_spreads(q.1, q.0, p.0);
    lemma_times_swaps(q.0, q.1);
    lemma_times_swaps(q.0, p.1);
    lemma_times_swaps(q.1, p.0);
    assert(q.0.times(dy).minus(q.1.times(dx)) == flat);
    lemma_times_zero(dx);
    lemma_times_zero(dy);
    lemma_times_zero(dx.neg());
    lemma_times_zero(dy.neg());
    lemma_times_zero(zero);
    lemma_times_zero(top);
    lemma_times_zero(fall);
    lemma_times_swaps(fall, dy);
    lemma_times_swaps(fall, dx);
    lemma_times_neg(dy, fall);
    lemma_times_neg(dx, fall);
    // the first triangle
    {
        let a = (p.0, p.1, top);
        let u = from_to(a, (p.0, p.1, bottom));
        let w = from_to(a, (q.0, q.1, top));
        let cr = cross(u, w);
        assert(u == (zero, zero, fall));
        assert(w == (dx, dy, zero));
        assert(cr.0 == dy.times(fall).neg());
        assert(cr.1 == dx.times(fall));
        assert(cr.2 == zero);
        lemma_times_groups(p.0, dy, fall);
        lemma_times_groups(p.1, dx, fall);
        lemma_times_neg(p.0, dy.times(fall));
        lemma_times_spreads(fall, p.0.times(dy), p.1.times(dx));
        lemma_times_neg(flat, fall);
        assert(dot(a, cr) == flat.times(fall).neg());
    }
    // the second triangle
    {
        let a = (q.0, q.1, top);
        let u = from_to(a, (p.0, p.1, bottom));
        let w = from_to(a, (q.0, q.1, bottom));
        let cr = cross(u, w);
        assert(u == (dx.neg(), dy.neg(), fall));
        assert(w == (zero, zero, fall));
        assert(cr.0 == dy.times(fall).neg());
        assert(cr.1 == dx.times(fall));
        assert(cr.2 == zero);
        lemma_times_groups(q.0, dy, fall);
        lemma_times_groups(q.1, dx, fall);
        lemma_times_neg(q.0, dy.times(fall));
        lemma_times_spreads(fall, q.0.times(dy), q.1.times(dx));
        lemma_times_neg(flat, fall);
        assert(dot(a, cr) == flat.times(fall).neg());
    }
}

proof fn lemma_times_twice(x: Whole, y: Whole)
    ensures
        x.times(y.twice()) == x.times(y).twice(),
{
    assert(x.rat * (2 * y.rat) == 2 * (x.rat * y.rat) && x.root * (2 * y.root) == 2 * (x.root
        * y.root) && x.rat * (2 * y.root) == 2 * (x.rat * y.root) && x.root * (2 * y.rat) == 2 * (
    x.root * y.rat)) by (nonlinear_arith);
}

/// What stands above the fraction bars of corner `i`, which both stand over
/// `2 * size.den`.
pub open spec fn corner_above(size: SurdValue, i: int) -> (Whole, Whole) {
    (above(corner_value(size, i).0), above(corner_value(size, i).1))
}

/// `2 * sqrt(3)` times the square of what stands above the fraction bar of
/// the radius: the cross product of two corners that follow each other, and
/// so four times the area of the triangle that they span with the centre. It
/// is positive for every radius but zero.
pub open spec fn hexagon_unit(size: SurdValue) -> Whole {
    above(size).times(above(size)).times_root3().twice()
}

/// The cross product of a corner and the next one is [`hexagon_unit`],
/// whichever corner it is.
pub proof fn lemma_cross_of_corners(size: SurdValue, i: int)
    ensures
        cross_flat(corner_above(size, i), corner_above(size, i + 1)) == hexagon_unit(size),
        cross_flat(corner_above(size, i + 1), corner_above(size, i)) == hexagon_unit(size).neg(),
        corner_above(size, (i + 1) % 6) == corner_above(size, i + 1),
{
    assert((i + 1) % 6 == if i % 6 == 5 { 0 } else { i % 6 + 1 });
    assert(((i + 1) % 6) % 6 == (i + 1) % 6);
    let p = corner_above(size, i);
    let q = corner_above(size, i + 1);
    let a = size.rat;
    let b = size.root;
    let unit = hexagon_unit(size);
    assert(unit.rat == 2 * (3 * (a * b + b * a)) && unit.root == 2 * (a * a + 3 * (b * b)));
    let left = p.0.times(q.1);
    let right = p.1.times(q.0);
    assert(left.rat - right.rat == unit.rat && left.root - right.root == unit.root)
        by (nonlinear_arith)
        requires
            left == p.0.times(q.1),
            right == p.1.times(q.0),
            p == corner_above(size, i),
            q == corner_above(size, i + 1),
            (i + 1) % 6 == if i % 6 == 5 { 0 } else { i % 6 + 1 },
            a == size.rat,
            b == size.root,
            unit.rat == 2 * (3 * (a * b + b * a)),
            unit.root == 2 * (a * a + 3 * (b * b)),
    ;
    lemma_times_swaps(p.0, q.1);
    lemma_times_swaps(p.1, q.0);
}

/// Where a vertex of the outline lies from the centre of the prism: `x` and
/// `y` in steps of `1 / (2 * size.den)`, and `z` in steps of
/// `1 / (2 * height.den)`, so that a vertex at the top lies as far above the
/// centre as one at the bottom lies below it.
pub open spec fn place(v: VertexValue, height: SurdValue) -> Triple {
    (
        above(v.position.0),
        above(v.position.1),
        above(v.position.2).twice().minus(above(height)),
    )
}

/// The vertex lies on the grid of [`place`]: its `x` and `y` stand over
/// `2 * size.den` or are the whole number zero, and its `z` is the height or
/// the whole number zero.
pub open spec fn on_grid(v: VertexValue, size: SurdValue, height: SurdValue) -> bool {
    &&& v.position.0.den == 2 * size.den || v.position.0 == SurdValue::whole(0)
    &&& v.position.1.den == 2 * size.den || v.position.1 == SurdValue::whole(0)
    &&& v.position.2 == height || v.position.2 == SurdValue::whole(0)
}

/// Every vertex of the outline lies on the grid.
pub proof fn lemma_outline_is_on_grid(size: SurdValue, height: SurdValue, k: int)
    requires
        0 <= k < 38,
    ensures
        on_grid(outline_vertices(size, height)[k], size, height),
{
    lemma_outline_vertex(size, height, k);
    if k >= 14 {
        let side = side_of(size, height, (k - 14) / 4);
        assert(on_grid(side[0], size, height));
        assert(on_grid(side[1], size, height));
        assert(on_grid(side[2], size, height));
        assert(on_grid(side[3], size, height));
    }
}

/// Vertex `k` of the outline.
pub proof fn lemma_outline_vertex(size: SurdValue, height: SurdValue, k: int)
    requires
        0 <= k < 38,
    ensures
        k < 7 ==> outline_vertices(size, height)[k] == cap_vertex(size, height, 1, k),
        7 <= k < 14 ==> outline_vertices(size, height)[k] == cap_vertex(
            size,
            SurdValue::whole(0),
            -1,
            k - 7,
        ),
        14 <= k ==> outline_vertices(size, height)[k] == side_of(size, height, (k - 14) / 4)[(k
            - 14) % 4],
{
    assert(side_of(size, height, 0).len() == 4);
    assert(side_of(size, height, 1).len() == 4);
    assert(side_of(size, height, 2).len() == 4);
    assert(side_of(size, height, 3).len() == 4);
    assert(side_of(size, height, 4).len() == 4);
    assert(side_of(size, height, 5).len() == 4);
}

/// Index `j` of the outline.
pub proof fn lemma_outline_index(j: int)
    requires
        0 <= j < 72,
    ensures
        j < 18 ==> outline_indices()[j] == top_cap_triangles()[j],
        18 <= j < 36 ==> outline_indices()[j] == 7 + bottom_cap_triangles()[j - 18],
        36 <= j ==> outline_indices()[j] == 14 + 4 * ((j - 36) / 6) + side_triangles()[(j - 36)
            % 6],
{
    assert(top_cap_triangles().len() == 18);
    assert(bottom_cap_triangles().len() == 18);
    assert(side_triangles().len() == 6);
}

/// The square root of three is no fraction: no square of a whole number is
/// three times another but zero.
pub proof fn lemma_root3_is_no_fraction(a: int, b: int)
    requires
        a * a == 3 * (b * b),
    ensures
        a == 0 && b == 0,
    decreases a * a,
{
    if a == 0 {
        assert(b == 0) by (nonlinear_arith)
            requires
                3 * (b * b) == 0,
        ;
    } else {
        let k = a / 3;
        let r = a % 3;
        assert(a * a == 3 * (3 * (k * k) + 2 * (k * r)) + r * r) by (nonlinear_arith)
            requires
                a == 3 * k + r,
        ;
        let rest = b * b - (3 * (k * k) + 2 * (k * r));
        assert(r * r == 3 * rest);
        if r == 1 {
            assert(r * r == 1) by (nonlinear_arith)
                requires
                    r == 1,
            ;
        } else if r == 2 {
            assert(r * r == 4) by (nonlinear_arith)
                requires
                    r == 2,
            ;
        }
        assert(r == 0);
        assert(b * b == 3 * (k * k)) by (nonlinear_arith)
            requires
                a == 3 * k,
                a * a == 3 * (b * b),
        ;
        assert(0 <= b * b < a * a) by (nonlinear_arith)
            requires
                a * a == 3 * (b * b),
                a != 0,
        ;
        lemma_root3_is_no_fraction(b, k);
    }
}

/// The norm of a product is the product of the norms.
proof fn lemma_norm_of_product(x: Whole, y: Whole)
    ensures
        x.times(y).norm() == x.norm() * y.norm(),
{
    let (a, b) = (x.rat, x.root);
    let (c, d) = (y.rat, y.root);
    let ac = a * c;
    let bd = b * d;
    let ad = a * d;
    let bc = b * c;
    assert((ac + 3 * bd) * (ac + 3 * bd) == ac * ac + 6 * (ac * bd) + 9 * (bd * bd))
        by (nonlinear_arith);
    assert((ad + bc) * (ad + bc) == ad * ad + 2 * (ad * bc) + bc * bc) by (nonlinear_arith);
    assert(ac * bd == ad * bc) by (nonlinear_arith)
        requires
            ac == a * c,
            bd == b * d,
            ad == a * d,
            bc == b * c,
    ;
    assert(ac * ac == (a * a) * (c * c) && bd * bd == (b * b) * (d * d) && ad * ad == (a * a) * (d
        * d) && bc * bc == (b * b) * (c * c)) by (nonlinear_arith)
        requires
            ac == a * c,
            bd == b * d,
            ad == a * d,
            bc == b * c,
    ;
    let (m, n, u, v) = (a * a, b * b, c * c, d * d);
    assert((m - 3 * n) * (u - 3 * v) == m * u - 3 * (m * v) - 3 * (n * u) + 9 * (n * v))
        by (nonlinear_arith);
}

/// Of two numbers of which the second has the greater square and is
/// positive, the first lies between the second and what it is below zero.
proof fn lemma_smaller_square(x: int, y: int)
    requires
        x * x < y * y,
        y > 0,
    ensures
        -y < x < y,
{
    assert(-y < x < y) by (nonlinear_arith)
        requires
            x * x < y * y,
            y > 0,
    ;
}

/// The product of two positive numbers is positive.
pub proof fn lemma_product_is_positive(x: Whole, y: Whole)
    requires
        x.is_positive(),
        y.is_positive(),
    ensures
        x.times(y).is_positive(),
{
    let (a, b) = (x.rat, x.root);
    let (c, d) = (y.rat, y.root);
    let (m, n, u, v) = (a * a, b * b, c * c, d * d);
    lemma_norm_of_product(x, y);
    assert(m >= 0 && n >= 0 && u >= 0 && v >= 0) by (nonlinear_arith)
        requires
            m == a * a,
            n == b * b,
            u == c * c,
            v == d * d,
    ;
    assert((a * c) * (a * c) == m * u && (b * d) * (b * d) == n * v && (a * d) * (a * d) == m * v
        && (b * c) * (b * c) == n * u) by (nonlinear_arith)
        requires
            m == a * a,
            n == b * b,
            u == c * c,
            v == d * d,
    ;
    if x.norm() > 0 && y.norm() > 0 {
        assert(x.norm() * y.norm() > 0) by (nonlinear_arith)
            requires
                x.norm() > 0,
                y.norm() > 0,
        ;
        // 3 * n < m and 3 * v < u, so 9 * n * v < m * u
        assert(9 * (n * v) < m * u) by (nonlinear_arith)
            requires
                0 <= 3 * n < m,
                0 <= 3 * v < u,
        ;
        assert(a * c > 0) by (nonlinear_arith)
            requires
                a > 0,
                c > 0,
        ;
        assert((3 * (b * d)) * (3 * (b * d)) == 9 * ((b * d) * (b * d))) by (nonlinear_arith);
        lemma_smaller_square(3 * (b * d), a * c);
    } else if x.norm() > 0 && y.norm() < 0 {
        assert(x.norm() * y.norm() < 0) by (nonlinear_arith)
            requires
                x.norm() > 0,
                y.norm() < 0,
        ;
        // 3 * n < m and u < 3 * v, so n * u < m * v
        assert(n * u < m * v) by (nonlinear_arith)
            requires
                0 <= 3 * n < m,
                0 <= u < 3 * v,
        ;
        assert(a * d > 0) by (nonlinear_arith)
            requires
                a > 0,
                d > 0,
        ;
        lemma_smaller_square(b * c, a * d);
    } else if x.norm() < 0 && y.norm() > 0 {
        assert(x.norm() * y.norm() < 0) by (nonlinear_arith)
            requires
                x.norm() < 0,
                y.norm() > 0,
        ;
        assert(m * v < n * u) by (nonlinear_arith)
            requires
                0 <= m < 3 * n,
                0 <= 3 * v < u,
        ;
        assert(b * c > 0) by (nonlinear_arith)
            requires
                b > 0,
                c > 0,
        ;
        lemma_smaller_square(a * d, b * c);
    } else {
        assert(x.norm() * y.norm() > 0) by (nonlinear_arith)
            requires
                x.norm() < 0,
                y.norm() < 0,
        ;
        assert(m * u < 9 * (n * v)) by (nonlinear_arith)
            requires
                0 <= m < 3 * n,
                0 <= u < 3 * v,
        ;
        assert(b * d > 0) by (nonlinear_arith)
            requires
                b > 0,
                d > 0,
        ;
        assert((3 * (b * d)) * (3 * (b * d)) == 9 * ((b * d) * (b * d))) by (nonlinear_arith);
        lemma_smaller_square(a * c, 3 * (b * d));
    }
}

/// Twice a positive number is positive.
proof fn lemma_twice_is_positive(x: Whole)
    requires
        x.is_positive(),
    ensures
        x.twice().is_positive(),
{
    assert(x.twice().norm() == 4 * x.norm()) by (nonlinear_arith)
        requires
            x.twice().norm() == (2 * x.rat) * (2 * x.rat) - 3 * ((2 * x.root) * (2 * x.root)),
            x.norm() == x.rat * x.rat - 3 * (x.root * x.root),
    ;
}

/// For every radius but zero [`hexagon_unit`] is positive: from each corner
/// the next one lies to the left.
pub proof fn lemma_hexagon_unit_is_positive(size: SurdValue)
    requires
        size.rat != 0 || size.root != 0,
    ensures
        hexagon_unit(size).is_positive(),
{
    let a = size.rat;
    let b = size.root;
    let unit = hexagon_unit(size);
    let (m, n, k) = (a * a, b * b, a * b);
    assert(unit.rat == 12 * k && unit.root == 2 * (m + 3 * n)) by (nonlinear_arith)
        requires
            unit.rat == 2 * (3 * (a * b + b * a)),
            unit.root == 2 * (a * a + 3 * (b * b)),
            m == a * a,
            n == b * b,
            k == a * b,
    ;
    assert(m >= 0 && n >= 0 && m + n > 0 && k * k == m * n) by (nonlinear_arith)
        requires
            m == a * a,
            n == b * b,
            k == a * b,
            a != 0 || b != 0,
    ;
    let w = m - 3 * n;
    if w == 0 {
        lemma_root3_is_no_fraction(a, b);
    }
    assert(unit.norm() == -12 * (w * w) && w * w > 0) by (nonlinear_arith)
        requires
            unit.norm() == (12 * k) * (12 * k) - 3 * ((2 * (m + 3 * n)) * (2 * (m + 3 * n))),
            k * k == m * n,
            w == m - 3 * n,
            w != 0,
    ;
}

/// The corners run counter-clockwise: for every radius but zero the cross
/// product of a corner and the next one is positive.
pub proof fn lemma_corners_turn_left(size: SurdValue, i: int)
    requires
        size.rat != 0 || size.root != 0,
    ensures
        cross_flat(corner_above(size, i), corner_above(size, i + 1)).is_positive(),
{
    lemma_cross_of_corners(size, i);
    lemma_hexagon_unit_is_positive(size);
}

/// What a triangle of the outline spans with the centre of the prism: for a
/// triangle of a cap the height times [`hexagon_unit`], and for a triangle
/// of a side twice as much.
pub open spec fn outward_turn(size: SurdValue, height: SurdValue, t: int) -> Whole {
    let cap = above(height).times(hexagon_unit(size));
    if t < 12 {
        cap
    } else {
        cap.twice()
    }
}

/// Six times the volume that triangle `t` of a mesh spans with the centre of
/// a prism of the given height, with the vertices at their [`place`].
pub open spec fn mesh_turn(
    vertices: Seq<VertexValue>,
    indices: Seq<int>,
    height: SurdValue,
    t: int,
) -> Whole {
    let tri = triangle(indices, t);
    turn(
        place(vertices[tri.0], height),
        place(vertices[tri.1], height),
        place(vertices[tri.2], height),
    )
}

/// [`mesh_turn`] of triangle `t` of the outline.
pub open spec fn outline_turn(size: SurdValue, height: SurdValue, t: int) -> Whole {
    mesh_turn(outline_vertices(size, height), outline_indices(), height, t)
}

/// Each of the twelve cap triangles of the outline spans with the centre of
/// the prism the same volume, and each of the twelve side triangles twice
/// that.
pub proof fn lemma_outline_turns_one_way(size: SurdValue, height: SurdValue, t: int)
    requires
        0 <= t < 24,
    ensures
        outline_turn(size, height, t) == outward_turn(size, height, t),
{
    let v = outline_vertices(size, height);
    let tri = triangle(outline_indices(), t);
    let high = above(height);
    let low = high.neg();
    let unit = hexagon_unit(size);
    lemma_outline_index(3 * t);
    lemma_outline_index(3 * t + 1);
    lemma_outline_index(3 * t + 2);
    lemma_outline_vertex(size, height, tri.0);
    lemma_outline_vertex(size, height, tri.1);
    lemma_outline_vertex(size, height, tri.2);
    if t < 12 {
        let s = if t < 6 { t } else { t - 6 };
        lemma_fan_is_cap_triangles(3 * s);
        lemma_fan_is_cap_triangles(3 * s + 1);
        lemma_fan_is_cap_triangles(3 * s + 2);
        let first = (6 - s) % 6;
        let next = (first + 1) % 6;
        lemma_cross_of_corners(size, first);
        let p = corner_above(size, first);
        let q = corner_above(size, next);
        lemma_times_neg(high, unit);
        if t < 6 {
            assert(tri == (next, 6int, first));
            assert(place(v[tri.0], height) == (q.0, q.1, high));
            assert(place(v[tri.1], height) == (Whole::zero(), Whole::zero(), high));
            assert(place(v[tri.2], height) == (p.0, p.1, high));
            lemma_turn_of_cap(q, p, high);
        } else {
            assert(tri == (7 + first, 13int, 7 + next));
            assert(place(v[tri.0], height) == (p.0, p.1, low));
            assert(place(v[tri.1], height) == (Whole::zero(), Whole::zero(), low));
            assert(place(v[tri.2], height) == (q.0, q.1, low));
            lemma_turn_of_cap(p, q, low);
        }
    } else {
        let k = (t - 12) / 2;
        let edge = side_edge(k);
        lemma_sides_take_each_edge_once(k, k);
        lemma_cross_of_corners(size, edge.0);
        let p = corner_above(size, edge.0);
        let q = corner_above(size, edge.1);
        let side = side_of(size, height, k);
        assert(place(side[0], height) == (p.0, p.1, high));
        assert(place(side[1], height) == (q.0, q.1, high));
        assert(place(side[2], height) == (p.0, p.1, low));
        assert(place(side[3], height) == (q.0, q.1, low));
        if (t - 12) % 2 == 0 {
            assert(tri == (14 + 4 * k, 14 + 4 * k + 2, 14 + 4 * k + 1));
        } else {
            assert(tri == (14 + 4 * k + 1, 14 + 4 * k + 2, 14 + 4 * k + 3));
        }
        lemma_turn_of_side(p, q, high, low);
        assert(high.minus(low) == high.twice());
        lemma_times_twice(unit, high);
        lemma_times_swaps(unit, high);
    }
}

/// Every triangle of the outline runs counter-clockwise seen from outside
/// the prism: for a positive height and a radius other than zero, the
/// volume that it spans with the centre of the prism is positive, which is
/// to say that the cross product of its edges points away from the centre.
pub proof fn lemma_outline_turns_outward(size: SurdValue, height: SurdValue, t: int)
    requires
        0 <= t < 24,
        above(height).is_positive(),
        size.rat != 0 || size.root != 0,
    ensures
        outline_turn(size, height, t).is_positive(),
{
    lemma_outline_turns_one_way(size, height, t);
    let cap = above(height).times(hexagon_unit(size));
    lemma_hexagon_unit_is_positive(size);
    lemma_product_is_positive(above(height), hexagon_unit(size));
    lemma_twice_is_positive(cap);
}

/// What stands above the fraction bars of where a vertex lies.
pub open spec fn grid_point(v: VertexValue) -> Triple {
    (above(v.position.0), above(v.position.1), above(v.position.2))
}

/// The cross product of the two edges that start at the first vertex of
/// triangle `t` of a mesh.
pub open spec fn mesh_cross(vertices: Seq<VertexValue>, indices: Seq<int>, t: int) -> Triple {
    let tri = triangle(indices, t);
    let a = grid_point(vertices[tri.0]);
    let b = grid_point(vertices[tri.1]);
    let c = grid_point(vertices[tri.2]);
    cross(from_to(a, b), from_to(a, c))
}

/// The triangles of a cap face where the normal of the cap points, at
/// whatever height the cap lies. The cross product of two edges of a
/// triangle of the top cap is `(0, 0, 1)` times [`hexagon_unit`], and that
/// of a triangle of the bottom cap is `(0, 0, -1)` times the same, which is
/// positive for every radius but zero: seen from above, the triangles of
/// the top cap run counter-clockwise, and so do those of the bottom cap
/// seen from below.
pub proof fn lemma_caps_face_their_normals(size: SurdValue, z: SurdValue, t: int)
    requires
        0 <= t < 6,
    ensures
        mesh_cross(cap_vertices(size, z, 1), top_cap_triangles(), t) == (
            Whole::zero(),
            Whole::zero(),
            hexagon_unit(size),
        ),
        mesh_cross(cap_vertices(size, z, -1), bottom_cap_triangles(), t) == (
            Whole::zero(),
            Whole::zero(),
            hexagon_unit(size).neg(),
        ),
        size.rat != 0 || size.root != 0 ==> hexagon_unit(size).is_positive(),
{
    lemma_fan_is_cap_triangles(3 * t);
    lemma_fan_is_cap_triangles(3 * t + 1);
    lemma_fan_is_cap_triangles(3 * t + 2);
    let first = (6 - t) % 6;
    let next = (first + 1) % 6;
    lemma_cross_of_corners(size, first);
    let p = corner_above(size, first);
    let q = corner_above(size, next);
    assert(triangle(top_cap_triangles(), t) == (next, 6int, first));
    assert(triangle(bottom_cap_triangles(), t) == (first, 6int, next));
    lemma_cross_of_cap(q, p, above(z));
    lemma_cross_of_cap(p, q, above(z));
    if size.rat != 0 || size.root != 0 {
        lemma_hexagon_unit_is_positive(size);
    }
}

/// Both triangles of the side along the edge from a corner to the next one
/// run counter-clockwise seen from outside the prism: each spans with the
/// centre of the prism twice the height times [`hexagon_unit`], which is
/// positive for a positive height and a radius other than zero.
pub proof fn lemma_side_turns_outward(size: SurdValue, height: SurdValue, ind1: int, t: int)
    requires
        0 <= t < 2,
    ensures
        mesh_turn(side_vertices(size, height, ind1, ind1 + 1), side_triangles(), height, t)
            == above(height).times(hexagon_unit(size)).twice(),
        side_vertices(size, height, ind1, (ind1 + 1) % 6) == side_vertices(
            size,
            height,
            ind1,
            ind1 + 1,
        ),
        above(height).is_positive() && (size.rat != 0 || size.root != 0) ==> above(height).times(
            hexagon_unit(size),
        ).twice().is_positive(),
{
    let high = above(height);
    let low = high.neg();
    let unit = hexagon_unit(size);
    lemma_cross_of_corners(size, ind1);
    assert(((ind1 + 1) % 6) % 6 == (ind1 + 1) % 6);
    let p = corner_above(size, ind1);
    let q = corner_above(size, ind1 + 1);
    let side = side_vertices(size, height, ind1, ind1 + 1);
    assert(place(side[0], height) == (p.0, p.1, high));
    assert(place(side[1], height) == (q.0, q.1, high));
    assert(place(side[2], height) == (p.0, p.1, low));
    assert(place(side[3], height) == (q.0, q.1, low));
    assert(triangle(side_triangles(), 0) == (0int, 2int, 1int));
    assert(triangle(side_triangles(), 1) == (1int, 2int, 3int));
    lemma_turn_of_side(p, q, high, low);
    assert(high.minus(low) == high.twice());
    lemma_times_twice(unit, high);
    lemma_times_swaps(unit, high);
    if high.is_positive() && (size.rat != 0 || size.root != 0) {
        lemma_hexagon_unit_is_positive(size);
        lemma_product_is_positive(high, unit);
        lemma_twice_is_positive(high.times(unit));
    }
}

} // verus!
