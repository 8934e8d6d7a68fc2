//! Derives a normal map from a height map.
//!
//! Heights are bytes, `255` standing for the height one. Strengths and the
//! parts of a normal are fixed-point numbers in millionths: [`UNIT`] stands
//! for one. The slope at a texel is the central difference of its
//! neighbours, where a neighbour beyond the border is the border texel
//! itself.

use vstd::prelude::*;
use crate::grid::lemma_cell_index;
use crate::grid::Grid;
use crate::grid::GridView;

verus! {

/// A field of heights in `0..=255`.
pub type HeightField = Grid<u8>;

/// A field of unit vectors.
pub type NormalField = Grid<Normal>;

/// The fixed-point number one.
pub const UNIT: i32 = 1_000_000;

/// The strength one, at which a normal map is made where no other is asked
/// for.
pub const DEFAULT_STRENGTH: u32 = 1_000_000;

/// The `z` part of every direction before it is scaled to length one: the
/// number one, times the `2 * 255 * UNIT` by which the slopes are scaled to
/// be integers.
pub const UPWARD: i64 = 510_000_000;

/// A vector of length one in tangent space, in millionths.
#[derive(Clone, Copy, Debug, PartialEq, Eq, Structural)]
pub struct Normal {
    pub x: i32,
    pub y: i32,
    pub z: i32,
}

impl View for Normal {
    type V = (int, int, int);

    open spec fn view(&self) -> (int, int, int) {
        (self.x as int, self.y as int, self.z as int)
    }
}

/// The valid index nearest to `i` in a row of `len` texels.
pub open spec fn clamp_coord(i: int, len: int) -> int {
    if i < 0 {
        0
    } else if i >= len {
        len - 1
    } else {
        i
    }
}

/// The height at `(x, y)`, or at the nearest texel of the field where
/// `(x, y)` lies beyond its border.
pub open spec fn sample(map: GridView<u8>, x: int, y: int) -> int {
    map.at(clamp_coord(x, map.width as int), clamp_coord(y, map.height as int)) as int
}

/// The rise of the height from the left neighbour to the right one.
pub open spec fn slope_x(map: GridView<u8>, x: int, y: int) -> int {
    sample(map, x + 1, y) - sample(map, x - 1, y)
}

/// The rise of the height from the neighbour above to the one below.
pub open spec fn slope_y(map: GridView<u8>, x: int, y: int) -> int {
    sample(map, x, y + 1) - sample(map, x, y - 1)
}

/// The direction of the surface at `(x, y)`, not yet of length one:
/// `(-dh/dx * strength, -dh/dy * strength, 1)`, all three times
/// `2 * 255 * UNIT`. Here `dh/dx` is `slope_x / (2 * 255)` and the strength
/// is `strength / UNIT`.
pub open spec fn direction(map: GridView<u8>, strength: int, x: int, y: int) -> (int, int, int) {
    (-(slope_x(map, x, y) * strength), -(slope_y(map, x, y) * strength), UPWARD as int)
}

/// The square of the length of `g`.
pub open spec fn length_squared(g: (int, int, int)) -> int {
    g.0 * g.0 + g.1 * g.1 + g.2 * g.2
}

/// `r` is `UNIT * |g| / sqrt(q)`, rounded down.
pub open spec fn is_scaled_floor(r: int, g: int, q: int) -> bool {
    0 <= r && r * r * q <= UNIT * UNIT * (g * g) < (r + 1) * (r + 1) * q
}

/// `UNIT * |g| / sqrt(q)`, rounded down.
pub open spec fn scaled_floor(g: int, q: int) -> int {
    choose|r: int| is_scaled_floor(r, g, q)
}

/// One part of the vector of length one: `UNIT * g / sqrt(q)`, rounded
/// towards zero.
pub open spec fn unit_part(g: int, q: int) -> int {
    if g < 0 {
        -scaled_floor(g, q)
    } else {
        scaled_floor(g, q)
    }
}

/// `g` scaled to the length [`UNIT`], each part rounded towards zero.
pub open spec fn unit_vector(g: (int, int, int)) -> (int, int, int) {
    let q = length_squared(g);
    (unit_part(g.0, q), unit_part(g.1, q), unit_part(g.2, q))
}

/// The normal at `(x, y)` of the height field `map`, at the given strength.
pub open spec fn normal_value(map: GridView<u8>, strength: int, x: int, y: int) -> (int, int, int) {
    unit_vector(direction(map, strength, x, y))
}

/// Only one number is `UNIT * |g| / sqrt(q)` rounded down.
pub proof fn lemma_scaled_floor_unique(r1: int, r2: int, g: int, q: int)
    requires
        q > 0,
        is_scaled_floor(r1, g, q),
        is_scaled_floor(r2, g, q),
    ensures
        r1 == r2,
{
    if r1 < r2 {
        assert((r1 + 1) * (r1 + 1) * q <= r2 * r2 * q) by (nonlinear_arith)
            requires
                0 <= r1,
                r1 + 1 <= r2,
                q > 0,
        ;
    } else if r2 < r1 {
        assert((r2 + 1) * (r2 + 1) * q <= r1 * r1 * q) by (nonlinear_arith)
            requires
                0 <= r2,
                r2 + 1 <= r1,
                q > 0,
        ;
    }
}

/// What is known to be the rounded quotient is [`scaled_floor`].
pub proof fn lemma_scaled_floor_is(r: int, g: int, q: int)
    requires
        q > 0,
        is_scaled_floor(r, g, q),
    ensures
        scaled_floor(g, q) == r,
{
    lemma_scaled_floor_unique(r, scaled_floor(g, q), g, q);
}

/// The largest part that a direction can have: `255 * u32::MAX`, and
/// [`UPWARD`] is smaller.
pub const PART_LIMIT: i64 = 1_095_216_660_225;

/// The largest squared length that a direction can have.
pub const LENGTH_LIMIT: u128 = 0x4_0000_0000_0000_0000_0000;

/// The square of a part of a direction.
fn square(g: i64) -> (r: u128)
    requires
        -PART_LIMIT <= g <= PART_LIMIT,
    ensures
        r == g * g,
        r <= PART_LIMIT * PART_LIMIT,
{
    let a: u128 = if g < 0 { (-g) as u128 } else { g as u128 };
    assert(a * a == g * g && a * a <= PART_LIMIT * PART_LIMIT) by (nonlinear_arith)
        requires
            a == g || a == -g,
            0 <= a <= PART_LIMIT,
    ;
    a * a
}

/// Computes `UNIT * |g| / sqrt(q)`, rounded down, by bisection.
fn scaled_floor_of(g: i64, q: u128) -> (r: i32)
    requires
        -PART_LIMIT <= g <= PART_LIMIT,
        0 < q < LENGTH_LIMIT,
        g * g <= q,
    ensures
        0 <= r <= UNIT,
        r == scaled_floor(g as int, q as int),
        is_scaled_floor(r as int, g as int, q as int),
{
    let gg: u128 = square(g);
    assert(1_000_000_000_000 * gg < 0x1_0000_0000_0000_0000_0000_0000_0000_0000 && 1_000_000_000_000 * gg
        == UNIT * UNIT * (g * g)) by (nonlinear_arith)
        requires
            gg == g * g,
            gg <= PART_LIMIT * PART_LIMIT,
            PART_LIMIT == 1_095_216_660_225,
            UNIT == 1_000_000,
    ;
    let t: u128 = 1_000_000_000_000 * gg;
    let mut lo: u128 = 0;
    let mut hi: u128 = 1_000_001;
    assert(lo * lo * q <= t < hi * hi * q) by (nonlinear_arith)
        requires
            lo == 0,
            hi == 1_000_001,
            t == 1_000_000_000_000 * gg,
            0 <= gg <= q,
            0 < q,
    ;
    while hi - lo > 1
        invariant
            0 <= lo < hi <= 1_000_001,
            0 < q < LENGTH_LIMIT,
            lo * lo * q <= t < hi * hi * q,
        decreases hi - lo,
    {
        let mid: u128 = lo + (hi - lo) / 2;
        assert(mid * mid <= 1_000_002_000_001 && mid * mid * q < 0x1_0000_0000_0000_0000_0000_0000_0000_0000)
            by (nonlinear_arith)
            requires
                0 <= mid <= 1_000_001,
                0 < q < 0x4_0000_0000_0000_0000_0000,
        ;
        if mid * mid * q <= t {
            lo = mid;
        } else {
            hi = mid;
        }
    }
    proof {
        assert(hi == lo + 1);
        assert(is_scaled_floor(lo as int, g as int, q as int));
        lemma_scaled_floor_is(lo as int, g as int, q as int);
    }
    lo as i32
}

/// One part of the vector of length one.
fn unit_part_of(g: i64, q: u128) -> (r: i32)
    requires
        -PART_LIMIT <= g <= PART_LIMIT,
        0 < q < LENGTH_LIMIT,
        g * g <= q,
    ensures
        r == unit_part(g as int, q as int),
        -UNIT <= r <= UNIT,
{
    let m: i32 = scaled_floor_of(g, q);
    if g < 0 {
        -m
    } else {
        m
    }
}

/// The height at the neighbour of `(x, y)` that lies `dx` columns and `dy`
/// rows away, each of them -1, 0 or 1; beyond the border, the height of the
/// border texel.
fn neighbour(map: &HeightField, x: usize, y: usize, dx: i8, dy: i8) -> (r: i64)
    requires
        map@.contains(x as int, y as int),
        -1 <= dx <= 1,
        -1 <= dy <= 1,
    ensures
        r == sample(map@, x + dx, y + dy),
        0 <= r <= 255,
{
    let width: usize = map.width();
    let height: usize = map.height();
    let nx: usize = if dx < 0 {
        if x == 0 { 0 } else { x - 1 }
    } else if dx > 0 {
        if x + 1 >= width { width - 1 } else { x + 1 }
    } else {
        x
    };
    let ny: usize = if dy < 0 {
        if y == 0 { 0 } else { y - 1 }
    } else if dy > 0 {
        if y + 1 >= height { height - 1 } else { y + 1 }
    } else {
        y
    };
    *map.at(nx, ny) as i64
}

/// Computes the normal at one texel.
fn normal_at(map: &HeightField, strength: u32, x: usize, y: usize) -> (r: Normal)
    requires
        map@.contains(x as int, y as int),
    ensures
        r@ == normal_value(map@, strength as int, x as int, y as int),
{
    let sx: i64 = neighbour(map, x, y, 1, 0) - neighbour(map, x, y, -1, 0);
    let sy: i64 = neighbour(map, x, y, 0, 1) - neighbour(map, x, y, 0, -1);
    let s: i64 = strength as i64;
    assert(-PART_LIMIT <= sx * s <= PART_LIMIT && -PART_LIMIT <= sy * s <= PART_LIMIT)
        by (nonlinear_arith)
        requires
            -255 <= sx <= 255,
            -255 <= sy <= 255,
            0 <= s <= 0xFFFF_FFFF,
            PART_LIMIT == 1_095_216_660_225,
    ;
    let gx: i64 = -(sx * s);
    let gy: i64 = -(sy * s);
    let gz: i64 = UPWARD;
    let xx: u128 = square(gx);
    let yy: u128 = square(gy);
    let zz: u128 = square(gz);
    assert(zz == 260_100_000_000_000_000) by (nonlinear_arith)
        requires
            zz == gz * gz,
            gz == 510_000_000,
    ;
    assert(PART_LIMIT * PART_LIMIT < 0x1_0000_0000_0000_0000_0000) by (nonlinear_arith)
        requires
            PART_LIMIT == 1_095_216_660_225,
    ;
    let q: u128 = xx + yy + zz;
    proof {
        let g = direction(map@, strength as int, x as int, y as int);
        assert(g == (gx as int, gy as int, gz as int));
        assert(length_squared(g) == q);
    }
    Normal { x: unit_part_of(gx, q), y: unit_part_of(gy, q), z: unit_part_of(gz, q) }
}

/// `normals` is the normal map of the height map `map` at the given
/// strength: of the same size, with the normal of each texel in its place.
pub open spec fn is_normal_map_of(normals: GridView<Normal>, map: GridView<u8>, strength: int) -> bool {
    &&& normals.wf()
    &&& normals.width == map.width
    &&& normals.height == map.height
    &&& forall|x: int, y: int|
        map.contains(x, y) ==> (#[trigger] normals.at(x, y))@ == normal_value(map, strength, x, y)
}

/// Makes the normal map of a height map: for each texel the direction
/// `(-dh/dx * strength, -dh/dy * strength, 1)`, scaled to length one. The
/// strength is given in millionths.
pub fn convert(map: &HeightField, strength: u32) -> (r: NormalField)
    ensures
        is_normal_map_of(r@, map@, strength as int),
{
    let width: usize = map.width();
    let height: usize = map.height();
    let mut cells: Vec<Normal> = Vec::new();
    let mut y: usize = 0;
    while y < height
        invariant
            y <= height,
            width == map@.width,
            height == map@.height,
            map@.wf(),
            cells@.len() == y * width,
            forall|i: int|
                0 <= i < cells@.len() ==> (#[trigger] cells@[i])@ == normal_value(
                    map@,
                    strength as int,
                    i % (width as int),
                    i / (width as int),
                ),
        decreases height - y,
    {
        let mut x: usize = 0;
        while x < width
            invariant
                x <= width,
                y < height,
                width == map@.width,
                height == map@.height,
                map@.wf(),
                cells@.len() == y * width + x,
                forall|i: int|
                    0 <= i < cells@.len() ==> (#[trigger] cells@[i])@ == normal_value(
                        map@,
                        strength as int,
                        i % (width as int),
                        i / (width as int),
                    ),
            decreases width - x,
        {
            let n = normal_at(map, strength, x, y);
            proof {
                lemma_cell_index(width as int, height as int, x as int, y as int);
            }
            cells.push(n);
            x = x + 1;
        }
        proof {
            assert((y + 1) * width == y * width + width) by (nonlinear_arith);
        }
        y = y + 1;
    }
    let ghost all = cells@;
    proof {
        assert(height * width == width * height) by (nonlinear_arith);
    }
    let r = Grid::from_cells(width, height, cells);
    proof {
        assert forall|x: int, y: int| map@.contains(x, y) implies (#[trigger] r@.at(x, y))@
            == normal_value(map@, strength as int, x, y) by {
            lemma_cell_index(width as int, height as int, x, y);
            let i = y * width + x;
            assert(all[i]@ == normal_value(
                map@,
                strength as int,
                i % (width as int),
                i / (width as int),
            ));
        }
    }
    r
}

proof fn lemma_floor_search(r: int, g: int, q: int)
    requires
        q > 0,
        0 <= r,
        r * r * q <= UNIT * UNIT * (g * g),
    ensures
        exists|s: int| is_scaled_floor(s, g, q),
    decreases UNIT * UNIT * (g * g) - r * r * q,
{
    if UNIT * UNIT * (g * g) < (r + 1) * (r + 1) * q {
        assert(is_scaled_floor(r, g, q));
    } else {
        assert((r + 1) * (r + 1) * q > r * r * q) by (nonlinear_arith)
            requires
                0 <= r,
                q > 0,
        ;
        lemma_floor_search(r + 1, g, q);
    }
}

/// For a positive `q` the rounded quotient exists, so [`scaled_floor`] is it.
pub proof fn lemma_scaled_floor_exists(g: int, q: int)
    requires
        q > 0,
    ensures
        is_scaled_floor(scaled_floor(g, q), g, q),
        unit_part(g, q) * unit_part(g, q) == scaled_floor(g, q) * scaled_floor(g, q),
{
    assert(0 * 0 * q <= UNIT * UNIT * (g * g)) by (nonlinear_arith);
    lemma_floor_search(0, g, q);
    let r = scaled_floor(g, q);
    assert((-r) * (-r) == r * r) by (nonlinear_arith);
}

/// A direction scaled to length one has length one, up to the rounding of
/// its three parts: its length lies between `UNIT - 10` and `UNIT`, which
/// is within a hundred-thousandth of one.
pub proof fn lemma_unit_length(g: (int, int, int))
    requires
        length_squared(g) > 0,
    ensures
        (UNIT - 10) * (UNIT - 10) <= length_squared(unit_vector(g)) <= UNIT * UNIT,
{
    let q = length_squared(g);
    let n = unit_vector(g);
    let a = scaled_floor(g.0, q);
    let b = scaled_floor(g.1, q);
    let c = scaled_floor(g.2, q);
    lemma_scaled_floor_exists(g.0, q);
    lemma_scaled_floor_exists(g.1, q);
    lemma_scaled_floor_exists(g.2, q);
    assert(length_squared(n) == a * a + b * b + c * c);
    let u = UNIT as int;
    let ta = u * u * (g.0 * g.0);
    let tb = u * u * (g.1 * g.1);
    let tc = u * u * (g.2 * g.2);
    assert(ta + tb + tc == u * u * q) by (nonlinear_arith)
        requires
            ta == u * u * (g.0 * g.0),
            tb == u * u * (g.1 * g.1),
            tc == u * u * (g.2 * g.2),
            q == g.0 * g.0 + g.1 * g.1 + g.2 * g.2,
    ;
    let low = a * a + b * b + c * c;
    let high = (a + 1) * (a + 1) + (b + 1) * (b + 1) + (c + 1) * (c + 1);
    assert(low * q == a * a * q + b * b * q + c * c * q) by (nonlinear_arith)
        requires
            low == a * a + b * b + c * c,
    ;
    assert(high * q == (a + 1) * (a + 1) * q + (b + 1) * (b + 1) * q + (c + 1) * (c + 1) * q)
        by (nonlinear_arith)
        requires
            high == (a + 1) * (a + 1) + (b + 1) * (b + 1) + (c + 1) * (c + 1),
    ;
    assert(low <= u * u && high > u * u) by (nonlinear_arith)
        requires
            low * q <= u * u * q,
            high * q > u * u * q,
            q > 0,
    ;
    assert(a <= u && b <= u && c <= u) by (nonlinear_arith)
        requires
            a * a + b * b + c * c <= u * u,
            0 <= a,
            0 <= b,
            0 <= c,
            u == 1_000_000,
    ;
    assert(high == low + 2 * a + 2 * b + 2 * c + 3) by (nonlinear_arith)
        requires
            low == a * a + b * b + c * c,
            high == (a + 1) * (a + 1) + (b + 1) * (b + 1) + (c + 1) * (c + 1),
    ;
    assert((u - 10) * (u - 10) == u * u - 20 * u + 100) by (nonlinear_arith);
}

/// A direction that points straight up becomes `(0, 0, UNIT)`.
pub proof fn lemma_upright(gz: int)
    requires
        gz > 0,
    ensures
        unit_vector((0, 0, gz)) == (0int, 0int, UNIT as int),
{
    let q = length_squared((0, 0, gz));
    let u = UNIT as int;
    assert(q == gz * gz && q > 0) by (nonlinear_arith)
        requires
            q == 0 * 0 + 0 * 0 + gz * gz,
            gz > 0,
    ;
    assert(is_scaled_floor(0, 0, q)) by (nonlinear_arith)
        requires
            q > 0,
            UNIT == 1_000_000,
    ;
    assert(is_scaled_floor(u, gz, q)) by (nonlinear_arith)
        requires
            q == gz * gz,
            q > 0,
            u == UNIT,
            UNIT == 1_000_000,
    ;
    lemma_scaled_floor_is(0, 0, q);
    lemma_scaled_floor_is(u, gz, q);
}

/// Every normal of a normal map has length one within a hundred-thousandth,
/// whatever the heights and the strength.
pub proof fn lemma_normal_has_unit_length(map: GridView<u8>, strength: int, x: int, y: int)
    ensures
        (UNIT - 10) * (UNIT - 10) <= length_squared(normal_value(map, strength, x, y)) <= UNIT
            * UNIT,
        normal_value(map, strength, x, y).2 >= 0,
{
    let g = direction(map, strength, x, y);
    assert(length_squared(g) > 0) by (nonlinear_arith)
        requires
            length_squared(g) == g.0 * g.0 + g.1 * g.1 + g.2 * g.2,
            g.2 == 510_000_000,
    ;
    lemma_unit_length(g);
    lemma_scaled_floor_exists(g.2, length_squared(g));
}

/// At strength zero every normal is `(0, 0, UNIT)`, whatever the heights.
pub proof fn lemma_zero_strength(map: GridView<u8>, x: int, y: int)
    ensures
        normal_value(map, 0, x, y) == (0int, 0int, UNIT as int),
{
    assert(slope_x(map, x, y) * 0 == 0 && slope_y(map, x, y) * 0 == 0) by (nonlinear_arith);
    lemma_upright(UPWARD as int);
}

/// Over a field of one height throughout every normal is `(0, 0, UNIT)`,
/// whatever the strength.
pub proof fn lemma_flat_field(map: GridView<u8>, level: u8, strength: int, x: int, y: int)
    requires
        map.wf(),
        map.contains(x, y),
        forall|i: int| 0 <= i < map.cells.len() ==> #[trigger] map.cells[i] == level,
    ensures
        normal_value(map, strength, x, y) == (0int, 0int, UNIT as int),
{
    let w = map.width as int;
    let h = map.height as int;
    lemma_cell_index(w, h, clamp_coord(x + 1, w), clamp_coord(y, h));
    lemma_cell_index(w, h, clamp_coord(x - 1, w), clamp_coord(y, h));
    lemma_cell_index(w, h, clamp_coord(x, w), clamp_coord(y + 1, h));
    lemma_cell_index(w, h, clamp_coord(x, w), clamp_coord(y - 1, h));
    assert(slope_x(map, x, y) == 0);
    assert(slope_y(map, x, y) == 0);
    assert(0 * strength == 0) by (nonlinear_arith);
    lemma_upright(UPWARD as int);
}

/// At the border the neighbour beyond it is the border texel itself: in a
/// field of one column no normal leans sideways, and in a field of one row
/// none leans up or down the rows.
pub proof fn lemma_border_is_clamped(map: GridView<u8>, strength: int, x: int, y: int)
    requires
        map.wf(),
        map.contains(x, y),
    ensures
        sample(map, -1, y) == sample(map, 0, y),
        sample(map, map.width as int, y) == sample(map, map.width - 1, y),
        sample(map, x, -1) == sample(map, x, 0),
        sample(map, x, map.height as int) == sample(map, x, map.height - 1),
        map.width == 1 ==> normal_value(map, strength, x, y).0 == 0,
        map.height == 1 ==> normal_value(map, strength, x, y).1 == 0,
{
    let g = direction(map, strength, x, y);
    let q = length_squared(g);
    assert(q > 0) by (nonlinear_arith)
        requires
            q == g.0 * g.0 + g.1 * g.1 + g.2 * g.2,
            g.2 == 510_000_000,
    ;
    assert(is_scaled_floor(0, 0, q)) by (nonlinear_arith)
        requires
            q > 0,
            UNIT == 1_000_000,
    ;
    lemma_scaled_floor_is(0, 0, q);
    assert(0 * strength == 0) by (nonlinear_arith);
}

/// A greater strength tilts the surface further: where the height is not
/// level, the horizontal part of the direction grows strictly with the
/// strength while its upward part stays, and the upward part of the normal
/// does not grow.
pub proof fn lemma_strength_tilts(map: GridView<u8>, low: int, high: int, x: int, y: int)
    requires
        0 <= low < high,
        slope_x(map, x, y) != 0 || slope_y(map, x, y) != 0,
    ensures
        direction(map, low, x, y).2 == direction(map, high, x, y).2,
        direction(map, low, x, y).0 * direction(map, low, x, y).0 + direction(map, low, x, y).1
            * direction(map, low, x, y).1 < direction(map, high, x, y).0 * direction(
            map,
            high,
            x,
            y,
        ).0 + direction(map, high, x, y).1 * direction(map, high, x, y).1,
        normal_value(map, high, x, y).2 <= normal_value(map, low, x, y).2,
{
    let sx = slope_x(map, x, y);
    let sy = slope_y(map, x, y);
    let d1 = direction(map, low, x, y);
    let d2 = direction(map, high, x, y);
    assert(d1.0 * d1.0 <= d2.0 * d2.0 && (sx != 0 ==> d1.0 * d1.0 < d2.0 * d2.0))
        by (nonlinear_arith)
        requires
            d1.0 == -(sx * low),
            d2.0 == -(sx * high),
            0 <= low < high,
    ;
    assert(d1.1 * d1.1 <= d2.1 * d2.1 && (sy != 0 ==> d1.1 * d1.1 < d2.1 * d2.1))
        by (nonlinear_arith)
        requires
            d1.1 == -(sy * low),
            d2.1 == -(sy * high),
            0 <= low < high,
    ;
    let gz = UPWARD as int;
    let q1 = length_squared(d1);
    let q2 = length_squared(d2);
    assert(0 < q1 <= q2) by (nonlinear_arith)
        requires
            q1 == d1.0 * d1.0 + d1.1 * d1.1 + gz * gz,
            q2 == d2.0 * d2.0 + d2.1 * d2.1 + gz * gz,
            d1.0 * d1.0 <= d2.0 * d2.0,
            d1.1 * d1.1 <= d2.1 * d2.1,
            gz == 510_000_000,
    ;
    lemma_scaled_floor_exists(gz, q1);
    lemma_scaled_floor_exists(gz, q2);
    let r1 = scaled_floor(gz, q1);
    let r2 = scaled_floor(gz, q2);
    if r2 > r1 {
        assert((r1 + 1) * (r1 + 1) * q1 <= r2 * r2 * q2) by (nonlinear_arith)
            requires
                0 <= r1,
                r1 + 1 <= r2,
                0 < q1 <= q2,
        ;
    }
}

/// The normal map is determined by the height map and the strength: whatever
/// is made of them twice is the same, texel for texel.
pub proof fn lemma_normal_map_is_determined(
    first: GridView<Normal>,
    second: GridView<Normal>,
    map: GridView<u8>,
    strength: int,
)
    requires
        map.wf(),
        is_normal_map_of(first, map, strength),
        is_normal_map_of(second, map, strength),
    ensures
        first == second,
{
    let w = map.width as int;
    let h = map.height as int;
    assert forall|i: int| 0 <= i < first.cells.len() implies first.cells[i] == second.cells[i] by {
        assert(w > 0) by (nonlinear_arith)
            requires
                0 <= i < w * h,
                0 <= w,
                0 <= h,
        ;
        let x = i % w;
        let y = i / w;
        vstd::arithmetic::div_mod::lemma_fundamental_div_mod(i, w);
        assert(w * y == y * w) by (nonlinear_arith);
        assert(0 <= y < h) by (nonlinear_arith)
            requires
                0 <= i < w * h,
                i == y * w + x,
                0 <= x < w,
        ;
        assert(first.at(x, y)@ == second.at(x, y)@);
    }
    assert(first.cells =~= second.cells);
}

} // verus!
