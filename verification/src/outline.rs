//! The outline mesh of one pillar: a hexagonal prism with a top cap, a bottom
//! cap and six side quads. Every face has vertices of its own, so that each
//! face is shaded flat.

use vstd::prelude::*;
use crate::hexagon::cap_tex_coord;
use crate::hexagon::corner_value;
use crate::hexagon::hex_corner;
use crate::hexagon::tex_value;
use crate::surd::Surd;
use crate::surd::SurdValue;
use crate::winding::above;
use crate::winding::hexagon_unit;
use crate::winding::lemma_caps_face_their_normals;
use crate::winding::lemma_side_turns_outward;
use crate::winding::mesh_cross;
use crate::winding::Whole;
use crate::winding::lemma_outline_turns_outward;
use crate::winding::mesh_turn;
use crate::winding::outline_turn;

verus! {

/// The mathematical value of an [`OutlineVertex`].
pub struct VertexValue {
    pub position: (SurdValue, SurdValue, SurdValue),
    pub normal: (SurdValue, SurdValue, SurdValue),
    pub tex_coords: (SurdValue, SurdValue),
}

/// One vertex of the outline mesh, in the pillar's own space: `z = 0` is the
/// bottom face.
#[derive(Clone, Copy, Debug)]
pub struct OutlineVertex {
    pub position: [Surd; 3],
    pub normal: [Surd; 3],
    pub tex_coords: [Surd; 2],
}

impl View for OutlineVertex {
    type V = VertexValue;

    open spec fn view(&self) -> VertexValue {
        VertexValue {
            position: (self.position[0]@, self.position[1]@, self.position[2]@),
            normal: (self.normal[0]@, self.normal[1]@, self.normal[2]@),
            tex_coords: (self.tex_coords[0]@, self.tex_coords[1]@),
        }
    }
}

/// The values of a run of vertices.
pub open spec fn vertex_values(s: Seq<OutlineVertex>) -> Seq<VertexValue> {
    Seq::new(s.len(), |i: int| s[i]@)
}

/// The indices of a run, as integers.
pub open spec fn index_values(s: Seq<u32>) -> Seq<int> {
    Seq::new(s.len(), |i: int| s[i] as int)
}

/// Each index moved up by `base`.
pub open spec fn shifted(local: Seq<int>, base: int) -> Seq<int> {
    Seq::new(local.len(), |i: int| base + local[i])
}

/// Vertex `i` of a cap at height `z` whose normal is `(0, 0, facing)`:
/// the six corners in order, then the centre.
pub open spec fn cap_vertex(size: SurdValue, z: SurdValue, facing: int, i: int) -> VertexValue {
    let normal = (SurdValue::whole(0), SurdValue::whole(0), SurdValue::whole(facing));
    if 0 <= i < 6 {
        VertexValue {
            position: (corner_value(size, i).0, corner_value(size, i).1, z),
            normal,
            tex_coords: tex_value(i),
        }
    } else {
        VertexValue {
            position: (SurdValue::whole(0), SurdValue::whole(0), z),
            normal,
            tex_coords: (SurdValue::ratio(1, 2), SurdValue::ratio(1, 2)),
        }
    }
}

/// The seven vertices of a cap.
pub open spec fn cap_vertices(size: SurdValue, z: SurdValue, facing: int) -> Seq<VertexValue> {
    Seq::new(7, |i: int| cap_vertex(size, z, facing, i))
}

/// The six triangles of the top cap, as indices into the cap's vertices.
/// Each names a corner, the centre and the corner before it, which is
/// counter-clockwise seen from above.
pub open spec fn top_cap_triangles() -> Seq<int> {
    seq![1, 6, 0, 0, 6, 5, 5, 6, 4, 4, 6, 3, 3, 6, 2, 2, 6, 1]
}

/// The six triangles of the bottom cap: those of the top cap, each turned
/// round, which is counter-clockwise seen from below.
pub open spec fn bottom_cap_triangles() -> Seq<int> {
    seq![0, 6, 1, 5, 6, 0, 4, 6, 5, 3, 6, 4, 2, 6, 3, 1, 6, 2]
}

/// Index `j` of the fan of six triangles round the centre vertex 6. Triangle
/// `t` spans the edge from corner `(6 - t) % 6` to the next corner. A fan
/// that faces upward names the next corner first, then the centre, then
/// the corner; one that faces downward names the two corners the other way
/// round.
pub open spec fn fan_index(upward: bool, j: int) -> int {
    let first = (6 - j / 3) % 6;
    let next = (first + 1) % 6;
    if j % 3 == 1 {
        6
    } else if (j % 3 == 0) == upward {
        next
    } else {
        first
    }
}

/// The fan is the list of triangles written out.
pub proof fn lemma_fan_is_cap_triangles(j: int)
    requires
        0 <= j < 18,
    ensures
        fan_index(true, j) == top_cap_triangles()[j],
        fan_index(false, j) == bottom_cap_triangles()[j],
{
}

/// Appends the 18 indices of a cap's fan of triangles, counted from `base`.
fn push_fan(base: u32, upward: bool, indices: &mut Vec<u32>)
    requires
        base + 6 <= u32::MAX,
    ensures
        index_values(final(indices)@) == index_values(old(indices)@) + shifted(
            if upward { top_cap_triangles() } else { bottom_cap_triangles() },
            base as int,
        ),
{
    let ghost before = indices@;
    let mut t: u32 = 0;
    while t < 6
        invariant
            t <= 6,
            base + 6 <= u32::MAX,
            indices@.len() == before.len() + 3 * t,
            forall|j: int| 0 <= j < before.len() ==> indices@[j] == before[j],
            forall|j: int| 0 <= j < 3 * t ==> indices@[before.len() + j] == base + fan_index(upward, j),
        decreases 6 - t,
    {
        let first: u32 = if t == 0 { 0 } else { 6 - t };
        let next: u32 = if first == 5 { 0 } else { first + 1 };
        let ghost len = indices@.len() as int;
        assert(len == before.len() + 3 * t);
        assert(fan_index(upward, 3 * t) == if upward { next } else { first });
        assert(fan_index(upward, 3 * t + 1) == 6);
        assert(fan_index(upward, 3 * t + 2) == if upward { first } else { next });
        if upward {
            indices.push(base + next);
            indices.push(base + 6);
            indices.push(base + first);
        } else {
            indices.push(base + first);
            indices.push(base + 6);
            indices.push(base + next);
        }
        t = t + 1;
    }
    proof {
        let local = if upward { top_cap_triangles() } else { bottom_cap_triangles() };
        assert forall|j: int| 0 <= j < 18 implies fan_index(upward, j) == local[j] by {
            lemma_fan_is_cap_triangles(j);
        }
        assert(index_values(indices@) =~= index_values(before) + shifted(local, base as int));
    }
}

/// Appends the seven vertices of a cap at height `z` whose normal is
/// `(0, 0, facing)`.
fn push_cap_vertices(size: Surd, z: Surd, facing: i64, vertices: &mut Vec<OutlineVertex>)
    requires
        size.in_range(),
    ensures
        final(vertices)@.len() == old(vertices)@.len() + 7,
        final(vertices)@.subrange(0, old(vertices)@.len() as int) == old(vertices)@,
        vertex_values(final(vertices)@) == vertex_values(old(vertices)@) + cap_vertices(
            size@,
            z@,
            facing as int,
        ),
        forall|j: int|
            old(vertices)@.len() <= j < final(vertices)@.len()
                ==> (#[trigger] final(vertices)@[j]).position[2] == z,
{
    let ghost before = vertices@;
    let normal = [Surd::whole(0), Surd::whole(0), Surd::whole(facing)];
    let mut i: i32 = 0;
    while i < 6
        invariant
            0 <= i <= 6,
            size.in_range(),
            normal[0]@ == SurdValue::whole(0),
            normal[1]@ == SurdValue::whole(0),
            normal[2]@ == SurdValue::whole(facing as int),
            vertices@.len() == before.len() + i,
            forall|j: int| 0 <= j < before.len() ==> vertices@[j] == before[j],
            forall|j: int|
                0 <= j < i ==> (#[trigger] vertices@[before.len() + j])@ == cap_vertex(
                    size@,
                    z@,
                    facing as int,
                    j,
                ),
            forall|j: int|
                before.len() <= j < vertices@.len() ==> (#[trigger] vertices@[j]).position[2] == z,
        decreases 6 - i,
    {
        let (x, y) = hex_corner(size, i);
        let (u, v) = cap_tex_coord(i);
        vertices.push(OutlineVertex { position: [x, y, z], normal, tex_coords: [u, v] });
        i = i + 1;
    }
    vertices.push(
        OutlineVertex {
            position: [Surd::whole(0), Surd::whole(0), z],
            normal,
            tex_coords: [Surd { rat: 1, root: 0, den: 2 }, Surd { rat: 1, root: 0, den: 2 }],
        },
    );
    proof {
        assert(vertices@.subrange(0, before.len() as int) =~= before);
        let cap = cap_vertices(size@, z@, facing as int);
        let all = vertex_values(before) + cap;
        let n = before.len() as int;
        assert(vertices@[n + 6]@ == cap_vertex(size@, z@, facing as int, 6));
        assert forall|j: int| 0 <= j < all.len() implies vertex_values(vertices@)[j] == all[j] by {
            if j >= before.len() {
                let k = j - before.len();
                assert(vertices@[n + k]@ == cap_vertex(size@, z@, facing as int, k));
            }
        }
        assert(vertex_values(vertices@) =~= all);
    }
}

/// Appends the top face of the hexagon: seven vertices at height `height`
/// with the normal `(0, 0, 1)`, and six triangles that run counter-clockwise
/// seen from above: the cross product of the edges of each is `(0, 0, 1)`
/// times a number that is positive for every radius but zero.
pub fn get_top_hexagon_model(
    size: Surd,
    height: Surd,
    vertices: &mut Vec<OutlineVertex>,
    indices: &mut Vec<u32>,
)
    requires
        size.in_range(),
        old(vertices)@.len() + 7 <= u32::MAX,
    ensures
        final(vertices)@.len() == old(vertices)@.len() + 7,
        final(vertices)@.subrange(0, old(vertices)@.len() as int) == old(vertices)@,
        vertex_values(final(vertices)@) == vertex_values(old(vertices)@) + cap_vertices(
            size@,
            height@,
            1,
        ),
        forall|j: int|
            old(vertices)@.len() <= j < final(vertices)@.len() ==> {
                &&& (#[trigger] final(vertices)@[j]).position[2] == height
                &&& final(vertices)@[j]@.normal == (
                    SurdValue::whole(0),
                    SurdValue::whole(0),
                    SurdValue::whole(1),
                )
            },
        index_values(final(indices)@) == index_values(old(indices)@) + shifted(
            top_cap_triangles(),
            old(vertices)@.len() as int,
        ),
        forall|t: int|
            0 <= t < 6 ==> (#[trigger] mesh_cross(
                vertex_values(final(vertices)@).subrange(
                    old(vertices)@.len() as int,
                    final(vertices)@.len() as int,
                ),
                top_cap_triangles(),
                t,
            )) == (Whole::zero(), Whole::zero(), hexagon_unit(size@)),
{
    let ghost before = vertices@;
    let cur_len: u32 = vertices.len() as u32;
    push_cap_vertices(size, height, 1, vertices);
    push_fan(cur_len, true, indices);
    proof {
        assert(vertex_values(vertices@).subrange(before.len() as int, vertices@.len() as int)
            =~= cap_vertices(size@, height@, 1));
        assert forall|t: int| 0 <= t < 6 implies (#[trigger] mesh_cross(
            cap_vertices(size@, height@, 1),
            top_cap_triangles(),
            t,
        )) == (Whole::zero(), Whole::zero(), hexagon_unit(size@)) by {
            lemma_caps_face_their_normals(size@, height@, t);
        }
        assert forall|j: int| before.len() <= j < vertices@.len() implies (#[trigger] vertices@[j])@.normal
            == (SurdValue::whole(0), SurdValue::whole(0), SurdValue::whole(1)) by {
            let k = j - before.len();
            assert(vertex_values(vertices@)[j] == cap_vertices(size@, height@, 1)[k]);
        }
    }
}

/// Appends the bottom face of the hexagon: seven vertices at height `0` with
/// the normal `(0, 0, -1)`, and six triangles, each turned the other way
/// round than on the top face, so that they run counter-clockwise seen from
/// below.
pub fn get_bottom_hexagon_model(
    size: Surd,
    vertices: &mut Vec<OutlineVertex>,
    indices: &mut Vec<u32>,
)
    requires
        size.in_range(),
        old(vertices)@.len() + 7 <= u32::MAX,
    ensures
        final(vertices)@.len() == old(vertices)@.len() + 7,
        final(vertices)@.subrange(0, old(vertices)@.len() as int) == old(vertices)@,
        vertex_values(final(vertices)@) == vertex_values(old(vertices)@) + cap_vertices(
            size@,
            SurdValue::whole(0),
            -1,
        ),
        forall|j: int|
            old(vertices)@.len() <= j < final(vertices)@.len() ==> {
                &&& (#[trigger] final(vertices)@[j]).position[2]@ == SurdValue::whole(0)
                &&& final(vertices)@[j]@.normal == (
                    SurdValue::whole(0),
                    SurdValue::whole(0),
                    SurdValue::whole(-1),
                )
            },
        index_values(final(indices)@) == index_values(old(indices)@) + shifted(
            bottom_cap_triangles(),
            old(vertices)@.len() as int,
        ),
        forall|t: int|
            0 <= t < 6 ==> (#[trigger] mesh_cross(
                vertex_values(final(vertices)@).subrange(
                    old(vertices)@.len() as int,
                    final(vertices)@.len() as int,
                ),
                bottom_cap_triangles(),
                t,
            )) == (Whole::zero(), Whole::zero(), hexagon_unit(size@).neg()),
{
    let ghost before = vertices@;
    let cur_len: u32 = vertices.len() as u32;
    push_cap_vertices(size, Surd::whole(0), -1, vertices);
    push_fan(cur_len, false, indices);
    proof {
        assert(vertex_values(vertices@).subrange(before.len() as int, vertices@.len() as int)
            =~= cap_vertices(size@, SurdValue::whole(0), -1));
        assert forall|t: int| 0 <= t < 6 implies (#[trigger] mesh_cross(
            cap_vertices(size@, SurdValue::whole(0), -1),
            bottom_cap_triangles(),
            t,
        )) == (Whole::zero(), Whole::zero(), hexagon_unit(size@).neg()) by {
            lemma_caps_face_their_normals(size@, SurdValue::whole(0), t);
        }
        assert forall|j: int| before.len() <= j < vertices@.len() implies (#[trigger] vertices@[j])@.normal
            == (SurdValue::whole(0), SurdValue::whole(0), SurdValue::whole(-1)) by {
            let k = j - before.len();
            assert(vertex_values(vertices@)[j] == cap_vertices(size@, SurdValue::whole(0), -1)[k]);
        }
    }
}

/// The two triangles of a side quad, as indices into the quad's vertices:
/// the first top corner, the first bottom corner and the second top corner,
/// then the second top corner, the first bottom corner and the second bottom
/// corner.
pub open spec fn side_triangles() -> Seq<int> {
    seq![0, 2, 1, 1, 2, 3]
}

/// The four vertices of the side quad along the edge from corner `ind1` to
/// corner `ind2`: the two corners at the top, then the two at the bottom.
/// All four carry the one normal `(y1 + y2, x1 + x2, 0)`, which is not
/// scaled to length one, and the corners of the unit square as texture
/// coordinates.
pub open spec fn side_vertices(size: SurdValue, height: SurdValue, ind1: int, ind2: int) -> Seq<
    VertexValue,
> {
    let start = corner_value(size, ind1);
    let end = corner_value(size, ind2);
    let normal = (start.1.plus_over(end.1), start.0.plus_over(end.0), SurdValue::whole(0));
    let zero = SurdValue::whole(0);
    let one = SurdValue::whole(1);
    seq![
        VertexValue { position: (start.0, start.1, height), normal, tex_coords: (zero, one) },
        VertexValue { position: (end.0, end.1, height), normal, tex_coords: (one, one) },
        VertexValue { position: (start.0, start.1, zero), normal, tex_coords: (zero, zero) },
        VertexValue { position: (end.0, end.1, zero), normal, tex_coords: (one, zero) },
    ]
}

/// Appends one side of the hexagon: the quad along the edge from corner
/// `ind1` to corner `ind2`, as four vertices and two triangles. Where `ind2`
/// is the corner after `ind1`, both triangles run counter-clockwise seen
/// from outside the hexagon.
pub fn get_side_hexagon_model(
    size: Surd,
    height: Surd,
    ind1: i32,
    ind2: i32,
    vertices: &mut Vec<OutlineVertex>,
    indices: &mut Vec<u32>,
)
    requires
        size.in_range(),
        old(vertices)@.len() + 4 <= u32::MAX,
    ensures
        final(vertices)@.len() == old(vertices)@.len() + 4,
        final(vertices)@.subrange(0, old(vertices)@.len() as int) == old(vertices)@,
        vertex_values(final(vertices)@) == vertex_values(old(vertices)@) + side_vertices(
            size@,
            height@,
            ind1 as int,
            ind2 as int,
        ),
        index_values(final(indices)@) == index_values(old(indices)@) + shifted(
            side_triangles(),
            old(vertices)@.len() as int,
        ),
        ind2 == (ind1 + 1) % 6 ==> forall|t: int|
            0 <= t < 2 ==> (#[trigger] mesh_turn(
                vertex_values(final(vertices)@).subrange(
                    old(vertices)@.len() as int,
                    final(vertices)@.len() as int,
                ),
                side_triangles(),
                height@,
                t,
            )) == above(height@).times(hexagon_unit(size@)).twice(),
{
    let ghost before = vertices@;
    let ghost indices_before = indices@;
    let cur_len: u32 = vertices.len() as u32;
    let (x1, y1) = hex_corner(size, ind1);
    let (x2, y2) = hex_corner(size, ind2);
    let zero = Surd::whole(0);
    let one = Surd::whole(1);
    let normal = [y1.plus_over(y2), x1.plus_over(x2), zero];

    vertices.push(OutlineVertex { position: [x1, y1, height], normal, tex_coords: [zero, one] });
    vertices.push(OutlineVertex { position: [x2, y2, height], normal, tex_coords: [one, one] });
    vertices.push(OutlineVertex { position: [x1, y1, zero], normal, tex_coords: [zero, zero] });
    vertices.push(OutlineVertex { position: [x2, y2, zero], normal, tex_coords: [one, zero] });

    indices.push(cur_len);
    indices.push(cur_len + 2);
    indices.push(cur_len + 1);
    indices.push(cur_len + 1);
    indices.push(cur_len + 2);
    indices.push(cur_len + 3);
    proof {
        assert(vertices@.subrange(0, before.len() as int) =~= before);
        assert(vertex_values(vertices@) =~= vertex_values(before) + side_vertices(
            size@,
            height@,
            ind1 as int,
            ind2 as int,
        ));
        assert(index_values(indices@) =~= index_values(indices_before) + shifted(
            side_triangles(),
            cur_len as int,
        ));
        let made = side_vertices(size@, height@, ind1 as int, ind2 as int);
        assert(vertex_values(vertices@).subrange(before.len() as int, vertices@.len() as int)
            =~= made);
        if ind2 == (ind1 + 1) % 6 {
            assert forall|t: int| 0 <= t < 2 implies (#[trigger] mesh_turn(
                made,
                side_triangles(),
                height@,
                t,
            )) == above(height@).times(hexagon_unit(size@)).twice() by {
                lemma_side_turns_outward(size@, height@, ind1 as int, t);
            }
        }
    }
}

/// The edge of the hexagon along which side `k` runs, as its first and its
/// second corner. The sides come in the order of the world's neighbour
/// directions.
pub open spec fn side_edge(k: int) -> (int, int) {
    if k == 0 {
        (4, 5)
    } else if k == 1 {
        (1, 2)
    } else if k == 2 {
        (5, 0)
    } else if k == 3 {
        (0, 1)
    } else if k == 4 {
        (3, 4)
    } else {
        (2, 3)
    }
}

/// The four vertices of side `k`.
pub open spec fn side_of(size: SurdValue, height: SurdValue, k: int) -> Seq<VertexValue> {
    side_vertices(size, height, side_edge(k).0, side_edge(k).1)
}

/// The 38 vertices of the outline: the top cap, the bottom cap, then the six
/// sides.
pub open spec fn outline_vertices(size: SurdValue, height: SurdValue) -> Seq<VertexValue> {
    cap_vertices(size, height, 1) + cap_vertices(size, SurdValue::whole(0), -1) + side_of(
        size,
        height,
        0,
    ) + side_of(size, height, 1) + side_of(size, height, 2) + side_of(size, height, 3) + side_of(
        size,
        height,
        4,
    ) + side_of(size, height, 5)
}

/// Each side runs along one edge of the hexagon, from a corner to the next
/// one counter-clockwise, and no two sides run along the same edge: the six
/// sides close the prism.
pub proof fn lemma_sides_take_each_edge_once(k: int, other: int)
    requires
        0 <= k < 6,
        0 <= other < 6,
    ensures
        0 <= side_edge(k).0 < 6,
        side_edge(k).1 == (side_edge(k).0 + 1) % 6,
        k != other ==> side_edge(k).0 != side_edge(other).0,
{
}

/// Every triangle of the top cap names a corner, the centre and the corner
/// before it. Every triangle of the bottom cap names the same three the
/// other way round, so that the two caps face opposite ways.
pub proof fn lemma_caps_turn_opposite_ways(t: int)
    requires
        0 <= t < 6,
    ensures
        0 <= triangle(top_cap_triangles(), t).2 < 6,
        triangle(top_cap_triangles(), t).1 == 6,
        triangle(top_cap_triangles(), t).0 == (triangle(top_cap_triangles(), t).2 + 1) % 6,
        triangle(bottom_cap_triangles(), t) == (
            triangle(top_cap_triangles(), t).2,
            6int,
            triangle(top_cap_triangles(), t).0,
        ),
{
    lemma_fan_is_cap_triangles(3 * t);
    lemma_fan_is_cap_triangles(3 * t + 1);
    lemma_fan_is_cap_triangles(3 * t + 2);
}

/// The 72 indices of the outline: 24 triangles.
pub open spec fn outline_indices() -> Seq<int> {
    shifted(top_cap_triangles(), 0) + shifted(bottom_cap_triangles(), 7) + shifted(
        side_triangles(),
        14,
    ) + shifted(side_triangles(), 18) + shifted(side_triangles(), 22) + shifted(
        side_triangles(),
        26,
    ) + shifted(side_triangles(), 30) + shifted(side_triangles(), 34)
}

/// The three indices of triangle `t` of an index list.
pub open spec fn triangle(indices: Seq<int>, t: int) -> (int, int, int) {
    (indices[3 * t], indices[3 * t + 1], indices[3 * t + 2])
}

/// The indices come in threes, each names one of `vertex_count` vertices, and
/// no triangle names a vertex twice.
pub open spec fn is_triangle_list(indices: Seq<int>, vertex_count: int) -> bool {
    &&& indices.len() % 3 == 0
    &&& forall|k: int| 0 <= k < indices.len() ==> 0 <= #[trigger] indices[k] < vertex_count
    &&& forall|t: int|
        0 <= t < indices.len() / 3 ==> {
            let tri = #[trigger] triangle(indices, t);
            tri.0 != tri.1 && tri.1 != tri.2 && tri.0 != tri.2
        }
}

/// The outline has 38 vertices and 72 indices, which are 24 triangles;
/// every index names one of the 38 vertices, and the three indices of every
/// triangle differ.
pub proof fn lemma_outline_topology(size: SurdValue, height: SurdValue)
    ensures
        outline_vertices(size, height).len() == 38,
        outline_indices().len() == 72,
        is_triangle_list(outline_indices(), 38),
{
    let ix = outline_indices();
    assert(top_cap_triangles().len() == 18);
    assert(bottom_cap_triangles().len() == 18);
    assert(side_triangles().len() == 6);
    assert(side_of(size, height, 0).len() == 4);
    assert(side_of(size, height, 1).len() == 4);
    assert(side_of(size, height, 2).len() == 4);
    assert(side_of(size, height, 3).len() == 4);
    assert(side_of(size, height, 4).len() == 4);
    assert(side_of(size, height, 5).len() == 4);
    assert(ix.len() == 72);
    assert forall|k: int| 0 <= k < 72 implies 0 <= #[trigger] ix[k] < 38 by {
        if k < 18 {
            assert(ix[k] == top_cap_triangles()[k]);
        } else if k < 36 {
            assert(ix[k] == 7 + bottom_cap_triangles()[k - 18]);
        } else {
            let q = (k - 36) / 6;
            let r = (k - 36) % 6;
            assert(ix[k] == 14 + 4 * q + side_triangles()[r]);
        }
    }
    assert forall|t: int| 0 <= t < 24 implies ({
        let tri = #[trigger] triangle(ix, t);
        tri.0 != tri.1 && tri.1 != tri.2 && tri.0 != tri.2
    }) by {
        if t < 6 {
            assert(ix[3 * t] == top_cap_triangles()[3 * t]);
            assert(ix[3 * t + 1] == top_cap_triangles()[3 * t + 1]);
            assert(ix[3 * t + 2] == top_cap_triangles()[3 * t + 2]);
        } else if t < 12 {
            assert(ix[3 * t] == 7 + bottom_cap_triangles()[3 * t - 18]);
            assert(ix[3 * t + 1] == 7 + bottom_cap_triangles()[3 * t + 1 - 18]);
            assert(ix[3 * t + 2] == 7 + bottom_cap_triangles()[3 * t + 2 - 18]);
        } else {
            let q = (t - 12) / 2;
            let r = 3 * ((t - 12) % 2);
            assert(ix[3 * t] == 14 + 4 * q + side_triangles()[r]);
            assert(ix[3 * t + 1] == 14 + 4 * q + side_triangles()[r + 1]);
            assert(ix[3 * t + 2] == 14 + 4 * q + side_triangles()[r + 2]);
        }
    }
}

/// The outline of one pillar, shown over the pillar that is selected.
pub struct HexagonOutline {
    /// The vertices of the mesh.
    pub vertices: Vec<OutlineVertex>,
    /// The indices of the mesh; every three are one triangle.
    pub indices: Vec<u32>,
    /// Where in the world the outline stands.
    pub pos: [Surd; 3],
    /// Whether the outline is shown at all.
    pub display: bool,
}

impl HexagonOutline {
    /// Builds the outline of a pillar whose hexagon has the outer radius
    /// `size` and which is `height` high. For a positive height and a radius
    /// other than zero every triangle runs counter-clockwise seen from
    /// outside the prism. The outline starts hidden, at `(0, 0, 50)`.
    pub fn new(size: Surd, height: Surd) -> (r: HexagonOutline)
        requires
            size.in_range(),
        ensures
            vertex_values(r.vertices@) == outline_vertices(size@, height@),
            index_values(r.indices@) == outline_indices(),
            r.vertices@.len() == 38,
            r.indices@.len() == 72,
            is_triangle_list(index_values(r.indices@), 38),
            forall|j: int|
                0 <= j < 7 ==> {
                    &&& (#[trigger] r.vertices@[j]).position[2] == height
                    &&& r.vertices@[j]@.normal == (
                        SurdValue::whole(0),
                        SurdValue::whole(0),
                        SurdValue::whole(1),
                    )
                },
            forall|j: int|
                7 <= j < 14 ==> {
                    &&& (#[trigger] r.vertices@[j]).position[2]@ == SurdValue::whole(0)
                    &&& r.vertices@[j]@.normal == (
                        SurdValue::whole(0),
                        SurdValue::whole(0),
                        SurdValue::whole(-1),
                    )
                },
            above(height@).is_positive() && (size.rat != 0 || size.root != 0) ==> forall|t: int|
                0 <= t < 24 ==> (#[trigger] mesh_turn(
                    vertex_values(r.vertices@),
                    index_values(r.indices@),
                    height@,
                    t,
                )).is_positive(),
            r.pos[0]@ == SurdValue::whole(0),
            r.pos[1]@ == SurdValue::whole(0),
            r.pos[2]@ == SurdValue::whole(50),
            !r.display,
    {
        let mut vertices: Vec<OutlineVertex> = Vec::new();
        let mut indices: Vec<u32> = Vec::new();
        get_top_hexagon_model(size, height, &mut vertices, &mut indices);
        let ghost top = vertices@;
        get_bottom_hexagon_model(size, &mut vertices, &mut indices);
        let ghost caps = vertices@;
        assert(caps.subrange(0, 7) == top);
        get_side_hexagon_model(size, height, 4, 5, &mut vertices, &mut indices);
        get_side_hexagon_model(size, height, 1, 2, &mut vertices, &mut indices);
        get_side_hexagon_model(size, height, 5, 0, &mut vertices, &mut indices);
        get_side_hexagon_model(size, height, 0, 1, &mut vertices, &mut indices);
        get_side_hexagon_model(size, height, 3, 4, &mut vertices, &mut indices);
        get_side_hexagon_model(size, height, 2, 3, &mut vertices, &mut indices);
        proof {
            lemma_outline_topology(size@, height@);
            assert(vertex_values(Seq::<OutlineVertex>::empty()) =~= Seq::<VertexValue>::empty());
            assert(index_values(Seq::<u32>::empty()) =~= Seq::<int>::empty());
            assert(vertex_values(vertices@) =~= outline_vertices(size@, height@));
            assert(index_values(indices@) =~= outline_indices());
            if above(height@).is_positive() && (size.rat != 0 || size.root != 0) {
                assert forall|t: int| 0 <= t < 24 implies (#[trigger] mesh_turn(
                    vertex_values(vertices@),
                    index_values(indices@),
                    height@,
                    t,
                )).is_positive() by {
                    lemma_outline_turns_outward(size@, height@, t);
                    assert(mesh_turn(
                        vertex_values(vertices@),
                        index_values(indices@),
                        height@,
                        t,
                    ) == outline_turn(size@, height@, t));
                }
            }
            assert forall|j: int| 0 <= j < 14 implies #[trigger] vertices@[j] == caps[j] by {
                assert(vertices@.subrange(0, 14) == caps);
                assert(vertices@.subrange(0, 14)[j] == vertices@[j]);
            }
            assert forall|j: int| 0 <= j < 7 implies #[trigger] caps[j] == top[j] by {
                assert(caps.subrange(0, 7)[j] == caps[j]);
            }
        }
        HexagonOutline {
            vertices,
            indices,
            pos: [Surd::whole(0), Surd::whole(0), Surd::whole(50)],
            display: false,
        }
    }

    /// Where in the world the outline stands.
    pub fn position(&self) -> (r: &[Surd; 3])
        ensures
            *r == self.pos,
    {
        &self.pos
    }

    /// The vertices of the mesh.
    pub fn vertices(&self) -> (r: &Vec<OutlineVertex>)
        ensures
            r@ == self.vertices@,
    {
        &self.vertices
    }

    /// The indices of the mesh; every three are one triangle.
    pub fn indices(&self) -> (r: &Vec<u32>)
        ensures
            r@ == self.indices@,
    {
        &self.indices
    }
}

} // verus!
