//! Corner positions and cap texture coordinates of a regular hexagon.
//!
//! Corner `i` sits at `60 * i + 30` degrees. Twice the cosine of such an
//! angle is `-sqrt(3)`, `0` or `sqrt(3)`, and twice its sine is an integer, so
//! every corner of a hexagon with a [`Surd`] radius is again a pair of surds.

use vstd::prelude::*;
use crate::surd::Surd;
use crate::surd::SurdValue;

verus! {

/// What can go wrong when a hexagon corner is looked up.
#[derive(Clone, Copy, Debug, PartialEq, Eq, Structural)]
pub enum HexError {
    /// The corner index is not one of `0..6`.
    InvalidCornerIndex { index: i32 },
}

/// Corner `i` of the hexagon of radius `size` around the origin:
/// `(size * cos(a), size * sin(a))` for `a = 60 * i + 30` degrees, where
/// `cos(30) = sqrt(3) / 2` and `sin(30) = 1 / 2`. Both coordinates stand over
/// the denominator `2 * size.den`.
pub open spec fn corner_value(size: SurdValue, i: int) -> (SurdValue, SurdValue) {
    let across = size.times_root3().half();
    let half = size.half();
    let zero = SurdValue { rat: 0, root: 0, den: 2 * size.den };
    let k = i % 6;
    if k == 0 {
        (across, half)
    } else if k == 1 {
        (zero, half.twice())
    } else if k == 2 {
        (across.neg(), half)
    } else if k == 3 {
        (across.neg(), half.neg())
    } else if k == 4 {
        (zero, half.twice().neg())
    } else {
        (across, half.neg())
    }
}

/// The point `(x, y)` turned by 60 degrees counter-clockwise about the
/// origin: `(x / 2 - y * sqrt(3) / 2, x * sqrt(3) / 2 + y / 2)`.
pub open spec fn turn_60(p: (SurdValue, SurdValue)) -> (SurdValue, SurdValue) {
    (
        p.0.half().minus(p.1.times_root3().half()),
        p.0.times_root3().half().plus(p.1.half()),
    )
}

/// Computes one corner of a hexagon of radius `size`. The index wraps: corner
/// `i + 6` is corner `i`.
pub fn hex_corner(size: Surd, i: i32) -> (r: (Surd, Surd))
    requires
        size.in_range(),
    ensures
        r.0@ == corner_value(size@, i as int).0,
        r.1@ == corner_value(size@, i as int).1,
{
    let k: i32 = i % 6;
    let k: i32 = if k < 0 { k + 6 } else { k };
    let den: i64 = 2 * size.den;
    let zero = Surd { rat: 0, root: 0, den };
    let across = Surd { rat: 3 * size.root, root: size.rat, den };
    let half = Surd { rat: size.rat, root: size.root, den };
    let full = Surd { rat: 2 * size.rat, root: 2 * size.root, den };
    if k == 0 {
        (across, half)
    } else if k == 1 {
        (zero, full)
    } else if k == 2 {
        (across.neg(), half)
    } else if k == 3 {
        (across.neg(), half.neg())
    } else if k == 4 {
        (zero, full.neg())
    } else {
        (across, half.neg())
    }
}

/// The texture coordinate of corner `i` on a cap, for `i` in `0..6`: the
/// corners of a hexagon of radius `1 / 2` inscribed in the unit square, at
/// `u = 1 / 2 - sqrt(3) / 4`, `1 / 2`, `1 / 2 + sqrt(3) / 4` and
/// `v = 0`, `1 / 4`, `3 / 4`, `1`.
pub open spec fn tex_value(i: int) -> (SurdValue, SurdValue) {
    let right = SurdValue { rat: 2, root: 1, den: 4 };
    let left = SurdValue { rat: 2, root: -1, den: 4 };
    let middle = SurdValue::ratio(1, 2);
    if i == 0 {
        (right, SurdValue::ratio(1, 4))
    } else if i == 1 {
        (right, SurdValue::ratio(3, 4))
    } else if i == 2 {
        (middle, SurdValue::whole(1))
    } else if i == 3 {
        (left, SurdValue::ratio(3, 4))
    } else if i == 4 {
        (left, SurdValue::ratio(1, 4))
    } else {
        (middle, SurdValue::whole(0))
    }
}

/// The texture coordinate of cap corner `i`.
pub fn cap_tex_coord(i: i32) -> (uv: (Surd, Surd))
    requires
        0 <= i < 6,
    ensures
        uv.0@ == tex_value(i as int).0,
        uv.1@ == tex_value(i as int).1,
{
    let right = Surd { rat: 2, root: 1, den: 4 };
    let left = Surd { rat: 2, root: -1, den: 4 };
    let middle = Surd { rat: 1, root: 0, den: 2 };
    if i == 0 {
        (right, Surd { rat: 1, root: 0, den: 4 })
    } else if i == 1 {
        (right, Surd { rat: 3, root: 0, den: 4 })
    } else if i == 2 {
        (middle, Surd::whole(1))
    } else if i == 3 {
        (left, Surd { rat: 3, root: 0, den: 4 })
    } else if i == 4 {
        (left, Surd { rat: 1, root: 0, den: 4 })
    } else {
        (middle, Surd::whole(0))
    }
}

/// Looks up the texture coordinate of a cap corner. An index outside `0..6`
/// names no corner and is reported.
pub fn tex_map(i: i32) -> (r: Result<(Surd, Surd), HexError>)
    ensures
        0 <= i < 6 <==> r is Ok,
        r matches Ok(uv) ==> uv.0@ == tex_value(i as int).0 && uv.1@ == tex_value(i as int).1,
        r matches Err(e) ==> e == (HexError::InvalidCornerIndex { index: i }),
{
    if 0 <= i && i < 6 {
        Ok(cap_tex_coord(i))
    } else {
        Err(HexError::InvalidCornerIndex { index: i })
    }
}

/// The squared distance of the point from the origin.
pub open spec fn norm_squared(p: (SurdValue, SurdValue)) -> SurdValue {
    p.0.times(p.0).plus(p.1.times(p.1))
}

/// Every corner lies at distance `size` from the centre: the squares of its
/// coordinates add up to the square of the radius, exactly.
pub proof fn lemma_corner_on_circle(size: SurdValue, i: int)
    requires
        size.wf(),
    ensures
        corner_value(size, i).0.wf(),
        corner_value(size, i).1.wf(),
        norm_squared(corner_value(size, i)).same(size.times(size)),
{
    let a = size.rat;
    let b = size.root;
    let d = size.den;
    let p = corner_value(size, i);
    let n = norm_squared(p);
    let sq = size.times(size);
    assert(sq.den == d * d);
    assert(sq.rat == a * a + 3 * (b * b));
    assert(sq.root == a * b + b * a);
    // Every case has the same squares: sign and order of the terms aside,
    // x * x + y * y == 4 * (size * size) over (2 * d) * (2 * d).
    let xx = p.0.times(p.0);
    let yy = p.1.times(p.1);
    assert(xx.rat + yy.rat == 4 * sq.rat && xx.root + yy.root == 4 * sq.root)
        by (nonlinear_arith)
        requires
            xx == p.0.times(p.0),
            yy == p.1.times(p.1),
            p == corner_value(size, i),
            sq.rat == size.rat * size.rat + 3 * (size.root * size.root),
            sq.root == size.rat * size.root + size.root * size.rat,
    ;
    let m = (2 * d) * (2 * d);
    assert(n.same(sq)) by (nonlinear_arith)
        requires
            n.rat == xx.rat * m + yy.rat * m,
            n.root == xx.root * m + yy.root * m,
            n.den == m * m,
            m == (2 * d) * (2 * d),
            xx.rat + yy.rat == 4 * sq.rat,
            xx.root + yy.root == 4 * sq.root,
            sq.den == d * d,
    ;
}

/// The corners are equally spaced: turning corner `i` by 60 degrees about
/// the centre gives corner `i + 1`. With corner 0 at 30 degrees, which the
/// definition of [`corner_value`] shows, this places corner `i` at
/// `60 * i + 30` degrees.
pub proof fn lemma_corners_equally_spaced(size: SurdValue, i: int)
    requires
        size.wf(),
    ensures
        turn_60(corner_value(size, i)).0.same(corner_value(size, i + 1).0),
        turn_60(corner_value(size, i)).1.same(corner_value(size, i + 1).1),
        corner_value(size, i + 6) == corner_value(size, i),
{
    let d = size.den;
    let p = corner_value(size, i);
    let q = corner_value(size, i + 1);
    let t = turn_60(p);
    assert((i + 1) % 6 == if i % 6 == 5 { 0 } else { i % 6 + 1 });
    assert((i + 6) % 6 == i % 6);
    let e = 2 * d;
    assert(t.0.den == (2 * e) * (2 * e));
    assert(t.1.den == (2 * e) * (2 * e));
    assert(t.0.same(q.0)) by (nonlinear_arith)
        requires
            t.0.den == (2 * e) * (2 * e),
            q.0.den == e,
            t.0.rat == p.0.rat * (2 * e) - 3 * p.1.root * (2 * e),
            t.0.root == p.0.root * (2 * e) - p.1.rat * (2 * e),
            2 * q.0.rat == p.0.rat - 3 * p.1.root,
            2 * q.0.root == p.0.root - p.1.rat,
    ;
    assert(t.1.same(q.1)) by (nonlinear_arith)
        requires
            t.1.den == (2 * e) * (2 * e),
            q.1.den == e,
            t.1.rat == 3 * p.0.root * (2 * e) + p.1.rat * (2 * e),
            t.1.root == p.0.rat * (2 * e) + p.1.root * (2 * e),
            2 * q.1.rat == 3 * p.0.root + p.1.rat,
            2 * q.1.root == p.0.rat + p.1.root,
    ;
}

/// The corners run counter-clockwise: the cross product of corner `i` and
/// corner `i + 1` is `size * size * sqrt(3) / 2`, which is the sine of 60
/// degrees times the square of the radius, whatever `i` is.
pub proof fn lemma_corners_run_counter_clockwise(size: SurdValue, i: int)
    requires
        size.wf(),
    ensures
        ({
            let p = corner_value(size, i);
            let q = corner_value(size, i + 1);
            p.0.times(q.1).minus(p.1.times(q.0)).same(size.times(size).times_root3().half())
        }),
{
    let p = corner_value(size, i);
    let q = corner_value(size, i + 1);
    assert((i + 1) % 6 == if i % 6 == 5 { 0 } else { i % 6 + 1 });
    let d = size.den;
    let sq = size.times(size);
    let left = p.0.times(q.1);
    let right = p.1.times(q.0);
    let m = (2 * d) * (2 * d);
    assert(left.den == m && right.den == m);
    assert(left.rat - right.rat == 2 * (3 * sq.root) && left.root - right.root == 2 * sq.rat)
        by (nonlinear_arith)
        requires
            left == p.0.times(q.1),
            right == p.1.times(q.0),
            p == corner_value(size, i),
            q == corner_value(size, i + 1),
            (i + 1) % 6 == if i % 6 == 5 { 0 } else { i % 6 + 1 },
            sq.rat == size.rat * size.rat + 3 * (size.root * size.root),
            sq.root == size.rat * size.root + size.root * size.rat,
    ;
    let cross = left.minus(right);
    let want = sq.times_root3().half();
    assert(cross.same(want)) by (nonlinear_arith)
        requires
            cross.rat == left.rat * m - right.rat * m,
            cross.root == left.root * m - right.root * m,
            cross.den == m * m,
            m == (2 * d) * (2 * d),
            left.rat - right.rat == 2 * (3 * sq.root),
            left.root - right.root == 2 * sq.rat,
            want.rat == 3 * sq.root,
            want.root == sq.rat,
            want.den == 2 * (d * d),
    ;
}

/// Every edge of the hexagon is as long as the radius: the squares of the
/// steps from a corner to the next add up to the square of the radius,
/// exactly.
pub proof fn lemma_edge_is_as_long_as_radius(size: SurdValue, i: int)
    requires
        size.wf(),
    ensures
        ({
            let p = corner_value(size, i);
            let q = corner_value(size, i + 1);
            norm_squared((q.0.minus(p.0), q.1.minus(p.1))).same(size.times(size))
        }),
{
    let p = corner_value(size, i);
    let q = corner_value(size, i + 1);
    assert((i + 1) % 6 == if i % 6 == 5 { 0 } else { i % 6 + 1 });
    let d = size.den;
    let e = 2 * d;
    let sq = size.times(size);
    // the steps, over 2 * d
    let (ux, vx) = (q.0.rat - p.0.rat, q.0.root - p.0.root);
    let (uy, vy) = (q.1.rat - p.1.rat, q.1.root - p.1.root);
    assert(ux * ux + 3 * (vx * vx) + uy * uy + 3 * (vy * vy) == 4 * sq.rat && 2 * (ux * vx) + 2 * (
    uy * vy) == 4 * sq.root) by (nonlinear_arith)
        requires
            ux == q.0.rat - p.0.rat,
            vx == q.0.root - p.0.root,
            uy == q.1.rat - p.1.rat,
            vy == q.1.root - p.1.root,
            p == corner_value(size, i),
            q == corner_value(size, i + 1),
            (i + 1) % 6 == if i % 6 == 5 { 0 } else { i % 6 + 1 },
            sq.rat == size.rat * size.rat + 3 * (size.root * size.root),
            sq.root == size.rat * size.root + size.root * size.rat,
    ;
    let dx = q.0.minus(p.0);
    let dy = q.1.minus(p.1);
    assert(dx.rat == ux * e && dx.root == vx * e && dx.den == e * e && dy.rat == uy * e && dy.root
        == vy * e && dy.den == e * e) by (nonlinear_arith)
        requires
            dx.rat == q.0.rat * e - p.0.rat * e,
            dx.root == q.0.root * e - p.0.root * e,
            dx.den == e * e,
            dy.rat == q.1.rat * e - p.1.rat * e,
            dy.root == q.1.root * e - p.1.root * e,
            dy.den == e * e,
            ux == q.0.rat - p.0.rat,
            vx == q.0.root - p.0.root,
            uy == q.1.rat - p.1.rat,
            vy == q.1.root - p.1.root,
    ;
    let m = e * e;
    let xx = dx.times(dx);
    let yy = dy.times(dy);
    assert(xx.rat == (ux * ux + 3 * (vx * vx)) * m && xx.root == (2 * (ux * vx)) * m && yy.rat == (
    uy * uy + 3 * (vy * vy)) * m && yy.root == (2 * (uy * vy)) * m) by (nonlinear_arith)
        requires
            xx.rat == (ux * e) * (ux * e) + 3 * ((vx * e) * (vx * e)),
            xx.root == (ux * e) * (vx * e) + (vx * e) * (ux * e),
            yy.rat == (uy * e) * (uy * e) + 3 * ((vy * e) * (vy * e)),
            yy.root == (uy * e) * (vy * e) + (vy * e) * (uy * e),
            m == e * e,
    ;
    let n = norm_squared((dx, dy));
    let mm = m * m;
    assert(xx.den == mm && yy.den == mm);
    assert(n.rat == (4 * sq.rat) * m * mm && n.root == (4 * sq.root) * m * mm) by (nonlinear_arith)
        requires
            n.rat == xx.rat * mm + yy.rat * mm,
            n.root == xx.root * mm + yy.root * mm,
            xx.rat == (ux * ux + 3 * (vx * vx)) * m,
            yy.rat == (uy * uy + 3 * (vy * vy)) * m,
            xx.root == (2 * (ux * vx)) * m,
            yy.root == (2 * (uy * vy)) * m,
            ux * ux + 3 * (vx * vx) + uy * uy + 3 * (vy * vy) == 4 * sq.rat,
            2 * (ux * vx) + 2 * (uy * vy) == 4 * sq.root,
    ;
    assert(n.same(sq)) by (nonlinear_arith)
        requires
            n.rat == (4 * sq.rat) * m * mm,
            n.root == (4 * sq.root) * m * mm,
            n.den == mm * mm,
            mm == m * m,
            m == e * e,
            e == 2 * d,
            sq.den == d * d,
    ;
}

/// The six corners of a hexagon are six places: for a radius other than
/// zero no two of them are the same.
pub proof fn lemma_corners_differ(size: SurdValue, i: int, j: int)
    requires
        size.wf(),
        size.rat != 0 || size.root != 0,
        0 <= i < j < 6,
    ensures
        !(corner_value(size, i).0.same(corner_value(size, j).0) && corner_value(size, i).1.same(
            corner_value(size, j).1,
        )),
{
    let p = corner_value(size, i);
    let q = corner_value(size, j);
    let e = 2 * size.den;
    if p.0.same(q.0) && p.1.same(q.1) {
        assert(p.0.rat == q.0.rat && p.0.root == q.0.root && p.1.rat == q.1.rat && p.1.root
            == q.1.root) by (nonlinear_arith)
            requires
                p.0.rat * e == q.0.rat * e,
                p.0.root * e == q.0.root * e,
                p.1.rat * e == q.1.rat * e,
                p.1.root * e == q.1.root * e,
                e > 0,
        ;
        assert(false);
    }
}

/// The cap texture is a regular hexagon too: corner `i` of the texture is
/// corner `i - 1` of the hexagon of radius `1 / 2`, moved to the centre
/// `(1 / 2, 1 / 2)` of the unit square.
pub proof fn lemma_tex_map_is_hexagon(i: int)
    requires
        0 <= i < 6,
    ensures
        tex_value(i).0.wf(),
        tex_value(i).1.wf(),
        tex_value(i).0.same(
            SurdValue::ratio(1, 2).plus(corner_value(SurdValue::ratio(1, 2), i - 1).0),
        ),
        tex_value(i).1.same(
            SurdValue::ratio(1, 2).plus(corner_value(SurdValue::ratio(1, 2), i - 1).1),
        ),
{
    assert((i - 1) % 6 == if i == 0 { 5 } else { i - 1 });
    let centre = SurdValue::ratio(1, 2);
    let c = corner_value(centre, i - 1);
    assert(c.0.den == 4 && c.1.den == 4);
    assert(centre.plus(c.0) == SurdValue { rat: 4 + 2 * c.0.rat, root: 2 * c.0.root, den: 8 });
    assert(centre.plus(c.1) == SurdValue { rat: 4 + 2 * c.1.rat, root: 2 * c.1.root, den: 8 });
}

} // verus!
