//! Makes the surface textures of a ground material: a height map and a
//! colour map of [`TEXTURE_SIZE`] texels each way.
//!
//! The height is value noise: random heights on a coarse lattice, blended
//! between the lattice points, in four layers of which each is twice as fine
//! and counts half as much as the one before. The lattice wraps round at the
//! border, so that the texture can be tiled. Nothing depends on anything but
//! the material, so that a texture made twice is the same.

use vstd::prelude::*;
use crate::grid::Grid;
use crate::grid::GridView;
use crate::material::GroundMaterial;
use crate::normal_converter::HeightField;

verus! {

/// The number of texels along each side of a texture.
pub const TEXTURE_SIZE: usize = 256;

/// A colour of three channels.
#[derive(Clone, Copy, Debug, PartialEq, Eq, Structural)]
pub struct Color {
    pub r: u8,
    pub g: u8,
    pub b: u8,
}

/// A field of colours.
pub type ColorField = Grid<Color>;

/// How the texture of one material is made.
#[derive(Clone, Copy, Debug, PartialEq, Eq, Structural)]
pub struct Recipe {
    /// Tells the noise of one material from that of another.
    pub seed: u32,
    /// The distance of the lattice points of the coarsest layer: 8, 16, 32,
    /// 64, 128 or 256 texels.
    pub cell: u32,
    /// The colour of the lowest texels.
    pub dark: Color,
    /// The colour of the highest texels.
    pub light: Color,
}

impl Recipe {
    /// The coarsest layer, and with it the three finer ones, has a
    /// distance of lattice points that fits the texture.
    pub open spec fn wf(self) -> bool {
        self.cell == 8 || self.cell == 16 || self.cell == 32 || self.cell == 64 || self.cell
            == 128 || self.cell == 256
    }
}

/// The recipe of each material.
pub open spec fn recipe_value(material: GroundMaterial) -> Recipe {
    match material {
        GroundMaterial::Sand => Recipe {
            seed: 11,
            cell: 32,
            dark: Color { r: 194, g: 170, b: 120 },
            light: Color { r: 238, g: 221, b: 170 },
        },
        GroundMaterial::Snow => Recipe {
            seed: 23,
            cell: 128,
            dark: Color { r: 215, g: 225, b: 235 },
            light: Color { r: 255, g: 255, b: 255 },
        },
        GroundMaterial::Grass => Recipe {
            seed: 37,
            cell: 16,
            dark: Color { r: 40, g: 95, b: 30 },
            light: Color { r: 110, g: 170, b: 60 },
        },
        GroundMaterial::Stone => Recipe {
            seed: 41,
            cell: 64,
            dark: Color { r: 80, g: 80, b: 85 },
            light: Color { r: 170, g: 170, b: 175 },
        },
        GroundMaterial::Dirt => Recipe {
            seed: 53,
            cell: 32,
            dark: Color { r: 70, g: 45, b: 25 },
            light: Color { r: 135, g: 95, b: 60 },
        },
        GroundMaterial::Mulch => Recipe {
            seed: 67,
            cell: 8,
            dark: Color { r: 50, g: 30, b: 20 },
            light: Color { r: 120, g: 80, b: 50 },
        },
    }
}

/// The recipe of a material.
pub fn recipe(material: GroundMaterial) -> (r: Recipe)
    ensures
        r == recipe_value(material),
        r.wf(),
{
    match material {
        GroundMaterial::Sand => Recipe {
            seed: 11,
            cell: 32,
            dark: Color { r: 194, g: 170, b: 120 },
            light: Color { r: 238, g: 221, b: 170 },
        },
        GroundMaterial::Snow => Recipe {
            seed: 23,
            cell: 128,
            dark: Color { r: 215, g: 225, b: 235 },
            light: Color { r: 255, g: 255, b: 255 },
        },
        GroundMaterial::Grass => Recipe {
            seed: 37,
            cell: 16,
            dark: Color { r: 40, g: 95, b: 30 },
            light: Color { r: 110, g: 170, b: 60 },
        },
        GroundMaterial::Stone => Recipe {
            seed: 41,
            cell: 64,
            dark: Color { r: 80, g: 80, b: 85 },
            light: Color { r: 170, g: 170, b: 175 },
        },
        GroundMaterial::Dirt => Recipe {
            seed: 53,
            cell: 32,
            dark: Color { r: 70, g: 45, b: 25 },
            light: Color { r: 135, g: 95, b: 60 },
        },
        GroundMaterial::Mulch => Recipe {
            seed: 67,
            cell: 8,
            dark: Color { r: 50, g: 30, b: 20 },
            light: Color { r: 120, g: 80, b: 50 },
        },
    }
}

/// `cell` is a distance that lattice points can have: a power of two from
/// 1 to 256, so that the lattice fits the texture a whole number of times.
pub open spec fn is_cell_size(cell: int) -> bool {
    cell == 1 || cell == 2 || cell == 4 || cell == 8 || cell == 16 || cell == 32 || cell == 64
        || cell == 128 || cell == 256
}

/// The height in `0..256` at the lattice point `(i, j)` of a layer: three
/// rounds of scrambling by a square modulo the prime 65521.
#[verifier::opaque]
pub open spec fn lattice(seed: int, layer: int, i: int, j: int) -> int {
    let a = (seed + 7919 * i + 104_729 * j + 1_299_709 * layer) % 65_521;
    let b = (a * a + 31 * a + 7) % 65_521;
    let c = (b * b + 17 * b + 3) % 65_521;
    c % 256
}

/// The height in `0..256` at the lattice point `(i, j)` of a layer.
fn lattice_of(seed: u32, layer: u32, i: u32, j: u32) -> (r: u64)
    requires
        layer < 4,
        i < 256,
        j < 256,
    ensures
        r == lattice(seed as int, layer as int, i as int, j as int),
        r < 256,
{
    reveal(lattice);
    let a: u64 = (seed as u64 + 7919 * (i as u64) + 104_729 * (j as u64) + 1_299_709 * (layer as u64))
        % 65_521;
    assert(a * a <= 65_520 * 65_520) by (nonlinear_arith)
        requires
            0 <= a <= 65_520,
    ;
    let b: u64 = (a * a + 31 * a + 7) % 65_521;
    assert(b * b <= 65_520 * 65_520) by (nonlinear_arith)
        requires
            0 <= b <= 65_520,
    ;
    let c: u64 = (b * b + 17 * b + 3) % 65_521;
    c % 256
}

/// The four lattice heights `v` round a texel, blended by its place
/// `(fx, fy)` in the lattice cell of side `cell`, times `cell * cell`.
pub open spec fn blend_sum(v: (int, int, int, int), cell: int, fx: int, fy: int) -> int {
    v.0 * ((cell - fx) * (cell - fy)) + v.1 * (fx * (cell - fy)) + v.2 * ((cell - fx) * fy) + v.3
        * (fx * fy)
}

/// The height in `0..256` that one layer gives at `(x, y)`: the heights at
/// the four lattice points round `(x, y)`, blended by its place between
/// them. Beyond the last lattice point the first one comes again.
#[verifier::opaque]
pub open spec fn octave(seed: int, layer: int, cell: int, x: int, y: int) -> int {
    let period = 256int / cell;
    let i = x / cell;
    let j = y / cell;
    let i1 = (i + 1) % period;
    let j1 = (j + 1) % period;
    let v = (
        lattice(seed, layer, i, j),
        lattice(seed, layer, i1, j),
        lattice(seed, layer, i, j1),
        lattice(seed, layer, i1, j1),
    );
    blend_sum(v, cell, x % cell, y % cell) / (cell * cell)
}

/// A blend of heights in `0..256` is a height in `0..256`.
pub proof fn lemma_blend_bounded(v: (int, int, int, int), cell: int, fx: int, fy: int)
    requires
        0 <= v.0 <= 255,
        0 <= v.1 <= 255,
        0 <= v.2 <= 255,
        0 <= v.3 <= 255,
        0 <= fx < cell,
        0 <= fy < cell,
    ensures
        0 <= (cell - fx) * (cell - fy) <= cell * cell,
        0 <= fx * (cell - fy) <= cell * cell,
        0 <= (cell - fx) * fy <= cell * cell,
        0 <= fx * fy <= cell * cell,
        0 <= blend_sum(v, cell, fx, fy) <= 255 * (cell * cell),
        0 <= blend_sum(v, cell, fx, fy) / (cell * cell) <= 255,
{
    let w0 = (cell - fx) * (cell - fy);
    let w1 = fx * (cell - fy);
    let w2 = (cell - fx) * fy;
    let w3 = fx * fy;
    assert(w0 >= 0 && w1 >= 0 && w2 >= 0 && w3 >= 0 && w0 + w1 + w2 + w3 == cell * cell)
        by (nonlinear_arith)
        requires
            w0 == (cell - fx) * (cell - fy),
            w1 == fx * (cell - fy),
            w2 == (cell - fx) * fy,
            w3 == fx * fy,
            0 <= fx < cell,
            0 <= fy < cell,
    ;
    assert(0 <= v.0 * w0 <= 255 * w0 && 0 <= v.1 * w1 <= 255 * w1 && 0 <= v.2 * w2 <= 255 * w2 && 0
        <= v.3 * w3 <= 255 * w3) by (nonlinear_arith)
        requires
            0 <= v.0 <= 255,
            0 <= v.1 <= 255,
            0 <= v.2 <= 255,
            0 <= v.3 <= 255,
            w0 >= 0 && w1 >= 0 && w2 >= 0 && w3 >= 0,
    ;
    let n = cell * cell;
    let sum = blend_sum(v, cell, fx, fy);
    assert(n > 0) by (nonlinear_arith)
        requires
            n == cell * cell,
            cell > 0,
    ;
    assert(0 <= sum / n <= 255) by (nonlinear_arith)
        requires
            0 <= sum <= 255 * n,
            n > 0,
    ;
}

/// Where a texel lies in a layer: its lattice point, the next one, and its
/// place between the two.
proof fn lemma_lattice_place(cell: int, x: int)
    requires
        is_cell_size(cell),
        0 <= x < 256,
    ensures
        0 < 256int / cell <= 256,
        0 <= x / cell < 256,
        0 <= (x / cell + 1) % (256int / cell) < 256,
        0 <= x % cell < cell,
        0 < cell * cell <= 65_536,
{
    if cell == 1 {
    } else if cell == 2 {
    } else if cell == 4 {
    } else if cell == 8 {
    } else if cell == 16 {
    } else if cell == 32 {
    } else if cell == 64 {
    } else if cell == 128 {
    } else {
    }
}

/// The height in `0..256` that one layer gives at `(x, y)`.
fn octave_of(seed: u32, layer: u32, cell: u32, x: u32, y: u32) -> (r: u64)
    requires
        layer < 4,
        is_cell_size(cell as int),
        x < 256,
        y < 256,
    ensures
        r == octave(seed as int, layer as int, cell as int, x as int, y as int),
        r <= 255,
{
    proof {
        reveal(octave);
        lemma_lattice_place(cell as int, x as int);
        lemma_lattice_place(cell as int, y as int);
    }
    let period: u32 = 256 / cell;
    let i: u32 = x / cell;
    let j: u32 = y / cell;
    let i1: u32 = (i + 1) % period;
    let j1: u32 = (j + 1) % period;
    let c: u64 = cell as u64;
    let fx: u64 = (x % cell) as u64;
    let fy: u64 = (y % cell) as u64;
    let v00: u64 = lattice_of(seed, layer, i, j);
    let v10: u64 = lattice_of(seed, layer, i1, j);
    let v01: u64 = lattice_of(seed, layer, i, j1);
    let v11: u64 = lattice_of(seed, layer, i1, j1);
    let ghost v = (v00 as int, v10 as int, v01 as int, v11 as int);
    proof {
        lemma_blend_bounded(v, c as int, fx as int, fy as int);
    }
    let w00: u64 = (c - fx) * (c - fy);
    let w10: u64 = fx * (c - fy);
    let w01: u64 = (c - fx) * fy;
    let w11: u64 = fx * fy;
    let n: u64 = c * c;
    assert(v00 * w00 <= 255 * 65_536 && v10 * w10 <= 255 * 65_536 && v01 * w01 <= 255 * 65_536
        && v11 * w11 <= 255 * 65_536) by (nonlinear_arith)
        requires
            0 <= w00 <= 65_536,
            0 <= w10 <= 65_536,
            0 <= w01 <= 65_536,
            0 <= w11 <= 65_536,
            0 <= v00 <= 255,
            0 <= v10 <= 255,
            0 <= v01 <= 255,
            0 <= v11 <= 255,
    ;
    let sum: u64 = v00 * w00 + v10 * w10 + v01 * w01 + v11 * w11;
    assert(sum == blend_sum(v, c as int, fx as int, fy as int));
    sum / n
}

/// The height in `0..256` of the texture at `(x, y)`: four layers, the
/// coarsest counted eight times, the next four times, then twice and once.
#[verifier::opaque]
pub open spec fn height_value(recipe: Recipe, x: int, y: int) -> int {
    let seed = recipe.seed as int;
    let cell = recipe.cell as int;
    (8 * octave(seed, 0, cell, x, y) + 4 * octave(seed, 1, cell / 2, x, y) + 2 * octave(
        seed,
        2,
        cell / 4,
        x,
        y,
    ) + octave(seed, 3, cell / 8, x, y)) / 15
}

/// The height of the texture at `(x, y)`.
fn height_of(recipe: Recipe, x: u32, y: u32) -> (r: u8)
    requires
        recipe.wf(),
        x < 256,
        y < 256,
    ensures
        r == height_value(recipe, x as int, y as int),
{
    proof {
        reveal(height_value);
    }
    let o0: u64 = octave_of(recipe.seed, 0, recipe.cell, x, y);
    let o1: u64 = octave_of(recipe.seed, 1, recipe.cell / 2, x, y);
    let o2: u64 = octave_of(recipe.seed, 2, recipe.cell / 4, x, y);
    let o3: u64 = octave_of(recipe.seed, 3, recipe.cell / 8, x, y);
    ((8 * o0 + 4 * o1 + 2 * o2 + o3) / 15) as u8
}

/// One channel of the colour at the height `h`: from `dark` at the height 0
/// to `light` at the height 255.
#[verifier::opaque]
pub open spec fn channel_value(dark: int, light: int, h: int) -> int {
    (dark * (255 - h) + light * h) / 255
}

/// The colour of the texture at a texel of the height `h`.
pub open spec fn color_value(recipe: Recipe, h: int) -> Color {
    Color {
        r: channel_value(recipe.dark.r as int, recipe.light.r as int, h) as u8,
        g: channel_value(recipe.dark.g as int, recipe.light.g as int, h) as u8,
        b: channel_value(recipe.dark.b as int, recipe.light.b as int, h) as u8,
    }
}

/// One channel of the colour at the height `h`.
fn channel_of(dark: u8, light: u8, h: u8) -> (r: u8)
    ensures
        r == channel_value(dark as int, light as int, h as int),
{
    proof {
        reveal(channel_value);
    }
    let d: u32 = dark as u32;
    let l: u32 = light as u32;
    let t: u32 = h as u32;
    assert(d * (255 - t) + l * t <= 255 * 255) by (nonlinear_arith)
        requires
            0 <= d <= 255,
            0 <= l <= 255,
            0 <= t <= 255,
    ;
    ((d * (255 - t) + l * t) / 255) as u8
}

/// The colour of the texture at a texel of the height `h`.
fn color_of(recipe: Recipe, h: u8) -> (r: Color)
    ensures
        r == color_value(recipe, h as int),
{
    Color {
        r: channel_of(recipe.dark.r, recipe.light.r, h),
        g: channel_of(recipe.dark.g, recipe.light.g, h),
        b: channel_of(recipe.dark.b, recipe.light.b, h),
    }
}

/// The texel after `x` in a row or a column of the texture, where the first
/// one comes after the last.
pub open spec fn next_texel(x: int) -> int {
    (x + 1) % 256
}

/// The blend with one of its two weights moved by one: `v` weighted by
/// `(n - f) * g` and `w` by `f * g`, for `f` and for `f + 1`.
proof fn lemma_weight_step(v: int, w: int, n: int, f: int, g: int)
    ensures
        v * ((n - (f + 1)) * g) + w * ((f + 1) * g) == v * ((n - f) * g) + w * (f * g) + (w - v)
            * g,
        v * (g * (n - (f + 1))) + w * (g * (f + 1)) == v * (g * (n - f)) + w * (g * f) + (w - v)
            * g,
{
    assert((n - (f + 1)) * g == (n - f) * g - g && (f + 1) * g == f * g + g) by (nonlinear_arith);
    assert(g * (n - (f + 1)) == (n - f) * g - g && g * (f + 1) == f * g + g && g * (n - f) == (n
        - f) * g && g * f == f * g) by (nonlinear_arith);
    let a = (n - f) * g;
    let b = f * g;
    assert(v * (a - g) == v * a - v * g && w * (b + g) == w * b + w * g && (w - v) * g == w * g
        - v * g) by (nonlinear_arith);
}

/// From a texel to the next, the blend moves by what the lattice heights
/// differ, and so by less than one lattice height per cell side.
proof fn lemma_blend_step(v: (int, int, int, int), cell: int, fx: int, fy: int)
    requires
        0 <= v.0 <= 255,
        0 <= v.1 <= 255,
        0 <= v.2 <= 255,
        0 <= v.3 <= 255,
        0 <= fx < cell,
        0 <= fy < cell,
    ensures
        -255 * cell <= blend_sum(v, cell, fx + 1, fy) - blend_sum(v, cell, fx, fy) <= 255 * cell,
        -255 * cell <= blend_sum(v, cell, fx, fy + 1) - blend_sum(v, cell, fx, fy) <= 255 * cell,
{
    lemma_weight_step(v.0, v.1, cell, fx, cell - fy);
    lemma_weight_step(v.2, v.3, cell, fx, fy);
    let along = (v.1 - v.0) * (cell - fy) + (v.3 - v.2) * fy;
    assert(blend_sum(v, cell, fx + 1, fy) - blend_sum(v, cell, fx, fy) == along);
    assert(-255 * cell <= along <= 255 * cell) by (nonlinear_arith)
        requires
            along == (v.1 - v.0) * (cell - fy) + (v.3 - v.2) * fy,
            -255 <= v.1 - v.0 <= 255,
            -255 <= v.3 - v.2 <= 255,
            0 <= fy < cell,
    ;
    lemma_weight_step(v.0, v.2, cell, fy, cell - fx);
    lemma_weight_step(v.1, v.3, cell, fy, fx);
    let down = (v.2 - v.0) * (cell - fx) + (v.3 - v.1) * fx;
    assert(blend_sum(v, cell, fx, fy + 1) - blend_sum(v, cell, fx, fy) == down);
    assert(-255 * cell <= down <= 255 * cell) by (nonlinear_arith)
        requires
            down == (v.2 - v.0) * (cell - fx) + (v.3 - v.1) * fx,
            -255 <= v.2 - v.0 <= 255,
            -255 <= v.3 - v.1 <= 255,
            0 <= fx < cell,
    ;
}

/// At the far side of a cell the blend is that of the near side of the next
/// cell, whatever the far lattice heights `w` of that cell are.
proof fn lemma_blend_edge(v: (int, int, int, int), w: (int, int), cell: int, f: int)
    ensures
        blend_sum(v, cell, cell, f) == blend_sum((v.1, w.0, v.3, w.1), cell, 0, f),
        blend_sum(v, cell, f, cell) == blend_sum((v.2, v.3, w.0, w.1), cell, f, 0),
{
    assert(blend_sum(v, cell, cell, f) == blend_sum((v.1, w.0, v.3, w.1), cell, 0, f))
        by (nonlinear_arith)
        requires
            blend_sum(v, cell, cell, f) == v.0 * ((cell - cell) * (cell - f)) + v.1 * (cell * (cell
                - f)) + v.2 * ((cell - cell) * f) + v.3 * (cell * f),
            blend_sum((v.1, w.0, v.3, w.1), cell, 0, f) == v.1 * ((cell - 0) * (cell - f)) + w.0
                * (0 * (cell - f)) + v.3 * ((cell - 0) * f) + w.1 * (0 * f),
    ;
    assert(blend_sum(v, cell, f, cell) == blend_sum((v.2, v.3, w.0, w.1), cell, f, 0))
        by (nonlinear_arith)
        requires
            blend_sum(v, cell, f, cell) == v.0 * ((cell - f) * (cell - cell)) + v.1 * (f * (cell
                - cell)) + v.2 * ((cell - f) * cell) + v.3 * (f * cell),
            blend_sum((v.2, v.3, w.0, w.1), cell, f, 0) == v.2 * ((cell - f) * (cell - 0)) + v.3
                * (f * (cell - 0)) + w.0 * ((cell - f) * 0) + w.1 * (f * 0),
    ;
}

/// Where the next texel lies in a layer: in the same cell one place on, or
/// at the near side of the next cell, which after the last cell is the
/// first.
proof fn lemma_next_place(cell: int, x: int)
    requires
        is_cell_size(cell),
        0 <= x < 256,
    ensures
        0 <= next_texel(x) < 256,
        (x % cell < cell - 1 && next_texel(x) / cell == x / cell && next_texel(x) % cell == x % cell
            + 1) || (x % cell == cell - 1 && next_texel(x) % cell == 0 && next_texel(x) / cell == (x
            / cell + 1) % (256int / cell)),
{
    let next = next_texel(x);
    assert(next == if x == 255 { 0 } else { x + 1 });
    let i = x / cell;
    let f = x % cell;
    assert(x == i * cell + f && 0 <= f < cell) by (nonlinear_arith)
        requires
            i == x / cell,
            f == x % cell,
            cell > 0,
    ;
    let period = 256int / cell;
    assert(period * cell == 256 && period > 0);
    if f < cell - 1 {
        if x == 255 {
            let k = period - i;
            assert(k * cell == f + 1) by (nonlinear_arith)
                requires
                    k == period - i,
                    period * cell == 256,
                    255 == i * cell + f,
            ;
            assert(k <= 0 ==> k * cell <= 0) by (nonlinear_arith)
                requires
                    cell > 0,
            ;
            assert(k >= 1 ==> k * cell >= cell) by (nonlinear_arith)
                requires
                    cell > 0,
            ;
        }
        vstd::arithmetic::div_mod::lemma_fundamental_div_mod_converse(x + 1, cell, i, f + 1);
    } else {
        assert(0 <= i < period) by (nonlinear_arith)
            requires
                x == i * cell + f,
                0 <= f < cell,
                0 <= x < 256,
                period * cell == 256,
        ;
        if i + 1 < period {
            assert(x + 1 == (i + 1) * cell) by (nonlinear_arith)
                requires
                    x == i * cell + f,
                    f == cell - 1,
            ;
            assert(x + 1 < 256) by (nonlinear_arith)
                requires
                    x + 1 == (i + 1) * cell,
                    i + 1 < period,
                    period * cell == 256,
                    cell > 0,
            ;
            vstd::arithmetic::div_mod::lemma_fundamental_div_mod_converse(x + 1, cell, i + 1, 0);
            vstd::arithmetic::div_mod::lemma_small_mod((i + 1) as nat, period as nat);
        } else {
            assert(x + 1 == 256) by (nonlinear_arith)
                requires
                    x == i * cell + f,
                    f == cell - 1,
                    i + 1 == period,
                    period * cell == 256,
            ;
            vstd::arithmetic::div_mod::lemma_mod_self_0(period);
        }
    }
}

/// Two blends that differ by less than `255 * cell` give heights that
/// differ by at most `255 / cell + 1`.
proof fn lemma_floor_step(low: int, high: int, cell: int)
    requires
        is_cell_size(cell),
        -255 * cell <= high - low <= 255 * cell,
    ensures
        -layer_step(cell) <= high / (cell * cell) - low / (cell * cell) <= layer_step(cell),
{
    if cell == 1 {
        assert(cell * cell == 1) by (nonlinear_arith)
            requires
                cell == 1,
        ;
    } else if cell == 2 {
        assert(cell * cell == 4) by (nonlinear_arith)
            requires
                cell == 2,
        ;
    } else if cell == 4 {
        assert(cell * cell == 16) by (nonlinear_arith)
            requires
                cell == 4,
        ;
    } else if cell == 8 {
        assert(cell * cell == 64) by (nonlinear_arith)
            requires
                cell == 8,
        ;
    } else if cell == 16 {
        assert(cell * cell == 256) by (nonlinear_arith)
            requires
                cell == 16,
        ;
    } else if cell == 32 {
        assert(cell * cell == 1024) by (nonlinear_arith)
            requires
                cell == 32,
        ;
    } else if cell == 64 {
        assert(cell * cell == 4096) by (nonlinear_arith)
            requires
                cell == 64,
        ;
    } else if cell == 128 {
        assert(cell * cell == 16_384) by (nonlinear_arith)
            requires
                cell == 128,
        ;
    } else {
        assert(cell * cell == 65_536) by (nonlinear_arith)
            requires
                cell == 256,
        ;
    }
}

/// Every lattice height is in `0..256`.
pub proof fn lemma_lattice_bounded(seed: int, layer: int, i: int, j: int)
    ensures
        0 <= lattice(seed, layer, i, j) <= 255,
{
    reveal(lattice);
}

/// The most that the height of a layer moves from one texel to the next.
pub open spec fn layer_step(cell: int) -> int {
    255int / cell + 1
}

/// A layer has no seam: from a texel to the next in its row or its column
/// the height moves by at most [`layer_step`], and so it does from the last
/// texel of a row or a column to the first.
pub proof fn lemma_layer_has_no_seam(seed: int, layer: int, cell: int, x: int, y: int)
    requires
        is_cell_size(cell),
        0 <= x < 256,
        0 <= y < 256,
    ensures
        -layer_step(cell) <= octave(seed, layer, cell, next_texel(x), y) - octave(
            seed,
            layer,
            cell,
            x,
            y,
        ) <= layer_step(cell),
        -layer_step(cell) <= octave(seed, layer, cell, x, next_texel(y)) - octave(
            seed,
            layer,
            cell,
            x,
            y,
        ) <= layer_step(cell),
{
    reveal(octave);
    lemma_lattice_place(cell, x);
    lemma_lattice_place(cell, y);
    lemma_next_place(cell, x);
    lemma_next_place(cell, y);
    let period = 256int / cell;
    let i = x / cell;
    let j = y / cell;
    let i1 = (i + 1) % period;
    let j1 = (j + 1) % period;
    let i2 = (i1 + 1) % period;
    let j2 = (j1 + 1) % period;
    let fx = x % cell;
    let fy = y % cell;
    lemma_lattice_bounded(seed, layer, i, j);
    lemma_lattice_bounded(seed, layer, i1, j);
    lemma_lattice_bounded(seed, layer, i, j1);
    lemma_lattice_bounded(seed, layer, i1, j1);
    let v = (
        lattice(seed, layer, i, j),
        lattice(seed, layer, i1, j),
        lattice(seed, layer, i, j1),
        lattice(seed, layer, i1, j1),
    );
    let here = blend_sum(v, cell, fx, fy);
    lemma_blend_step(v, cell, fx, fy);
    let right = (lattice(seed, layer, i2, j), lattice(seed, layer, i2, j1));
    lemma_blend_edge(v, right, cell, fy);
    let below = (lattice(seed, layer, i, j2), lattice(seed, layer, i1, j2));
    lemma_blend_edge(v, below, cell, fx);
    let along = if fx < cell - 1 {
        blend_sum(v, cell, fx + 1, fy)
    } else {
        blend_sum((v.1, right.0, v.3, right.1), cell, 0, fy)
    };
    let down = if fy < cell - 1 {
        blend_sum(v, cell, fx, fy + 1)
    } else {
        blend_sum((v.2, v.3, below.0, below.1), cell, fx, 0)
    };
    assert(octave(seed, layer, cell, x, y) == here / (cell * cell));
    assert(octave(seed, layer, cell, next_texel(x), y) == along / (cell * cell));
    assert(octave(seed, layer, cell, x, next_texel(y)) == down / (cell * cell));
    lemma_floor_step(here, along, cell);
    lemma_floor_step(here, down, cell);
}

/// The most that the height of a texture moves from one texel to the next,
/// where the coarsest layer has lattice points `cell` texels apart.
pub open spec fn texture_step(cell: int) -> int {
    (8 * layer_step(cell) + 4 * layer_step(cell / 2) + 2 * layer_step(cell / 4) + layer_step(
        cell / 8,
    )) / 15 + 1
}

/// A texture can be tiled: from the last texel of a row or a column to the
/// first the height moves by no more than it may from any texel to the
/// next, which is [`texture_step`].
pub proof fn lemma_texture_has_no_seam(recipe: Recipe, x: int, y: int)
    requires
        recipe.wf(),
        0 <= x < 256,
        0 <= y < 256,
    ensures
        -texture_step(recipe.cell as int) <= height_value(recipe, next_texel(x), y) - height_value(
            recipe,
            x,
            y,
        ) <= texture_step(recipe.cell as int),
        -texture_step(recipe.cell as int) <= height_value(recipe, x, next_texel(y)) - height_value(
            recipe,
            x,
            y,
        ) <= texture_step(recipe.cell as int),
{
    reveal(height_value);
    let seed = recipe.seed as int;
    let cell = recipe.cell as int;
    lemma_layer_has_no_seam(seed, 0, cell, x, y);
    lemma_layer_has_no_seam(seed, 1, cell / 2, x, y);
    lemma_layer_has_no_seam(seed, 2, cell / 4, x, y);
    lemma_layer_has_no_seam(seed, 3, cell / 8, x, y);
}

/// `maps` are the height map and the colour map of the material: both of
/// [`TEXTURE_SIZE`] texels each way, every height as the recipe of the
/// material gives it, and every colour that of its texel's height.
pub open spec fn is_texture_of(maps: (GridView<u8>, GridView<Color>), material: GroundMaterial) -> bool {
    let recipe = recipe_value(material);
    &&& maps.0.wf()
    &&& maps.1.wf()
    &&& maps.0.width == TEXTURE_SIZE
    &&& maps.0.height == TEXTURE_SIZE
    &&& maps.1.width == TEXTURE_SIZE
    &&& maps.1.height == TEXTURE_SIZE
    &&& forall|x: int, y: int|
        0 <= x < TEXTURE_SIZE && 0 <= y < TEXTURE_SIZE ==> #[trigger] maps.0.at(x, y)
            == height_value(recipe, x, y)
    &&& forall|x: int, y: int|
        0 <= x < TEXTURE_SIZE && 0 <= y < TEXTURE_SIZE ==> #[trigger] maps.1.at(x, y)
            == color_value(recipe, height_value(recipe, x, y))
}

/// Makes the height map and the colour map of a material.
pub fn create_texture_maps(material: GroundMaterial) -> (r: (HeightField, ColorField))
    ensures
        is_texture_of((r.0@, r.1@), material),
{
    let recipe = recipe(material);
    let mut heights: Vec<u8> = Vec::new();
    let mut colors: Vec<Color> = Vec::new();
    let mut y: u32 = 0;
    while y < 256
        invariant
            y <= 256,
            recipe == recipe_value(material),
            recipe.wf(),
            heights@.len() == y * 256,
            colors@.len() == y * 256,
            forall|i: int|
                0 <= i < heights@.len() ==> #[trigger] heights@[i] == height_value(
                    recipe,
                    i % 256,
                    i / 256,
                ),
            forall|i: int|
                0 <= i < colors@.len() ==> #[trigger] colors@[i] == color_value(
                    recipe,
                    height_value(recipe, i % 256, i / 256),
                ),
        decreases 256 - y,
    {
        let mut x: u32 = 0;
        while x < 256
            invariant
                x <= 256,
                y < 256,
                recipe == recipe_value(material),
                recipe.wf(),
                heights@.len() == y * 256 + x,
                colors@.len() == y * 256 + x,
                forall|i: int|
                    0 <= i < heights@.len() ==> #[trigger] heights@[i] == height_value(
                        recipe,
                        i % 256,
                        i / 256,
                    ),
                forall|i: int|
                    0 <= i < colors@.len() ==> #[trigger] colors@[i] == color_value(
                        recipe,
                        height_value(recipe, i % 256, i / 256),
                    ),
            decreases 256 - x,
        {
            let h: u8 = height_of(recipe, x, y);
            heights.push(h);
            colors.push(color_of(recipe, h));
            x = x + 1;
        }
        y = y + 1;
    }
    let ghost all_heights = heights@;
    let ghost all_colors = colors@;
    let height_map = Grid::from_cells(256, 256, heights);
    let color_map = Grid::from_cells(256, 256, colors);
    proof {
        assert forall|x: int, y: int| 0 <= x < 256 && 0 <= y < 256 implies #[trigger] height_map@.at(
            x,
            y,
        ) == height_value(recipe, x, y) by {
            let i = y * 256 + x;
            assert(all_heights[i] == height_value(recipe, i % 256, i / 256));
        }
        assert forall|x: int, y: int| 0 <= x < 256 && 0 <= y < 256 implies #[trigger] color_map@.at(
            x,
            y,
        ) == color_value(recipe, height_value(recipe, x, y)) by {
            let i = y * 256 + x;
            assert(all_colors[i] == color_value(recipe, height_value(recipe, i % 256, i / 256)));
        }
    }
    (height_map, color_map)
}

/// The textures of a material are determined by the material: whatever is
/// made for it twice is the same, texel for texel.
pub proof fn lemma_texture_is_determined(
    first: (GridView<u8>, GridView<Color>),
    second: (GridView<u8>, GridView<Color>),
    material: GroundMaterial,
)
    requires
        is_texture_of(first, material),
        is_texture_of(second, material),
    ensures
        first == second,
{
    assert forall|i: int| 0 <= i < 65_536 implies first.0.cells[i] == second.0.cells[i]
        && first.1.cells[i] == second.1.cells[i] by {
        let x = i % 256;
        let y = i / 256;
        assert(first.0.at(x, y) == second.0.at(x, y));
        assert(first.1.at(x, y) == second.1.at(x, y));
    }
    assert(first.0.cells =~= second.0.cells);
    assert(first.1.cells =~= second.1.cells);
}

} // verus!
