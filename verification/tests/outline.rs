use pillar_render::hexagon::hex_corner;
use pillar_render::hexagon::tex_map;
use pillar_render::outline::get_bottom_hexagon_model;
use pillar_render::outline::get_side_hexagon_model;
use pillar_render::outline::get_top_hexagon_model;
use pillar_render::outline::HexagonOutline;
use pillar_render::outline::OutlineVertex;
use pillar_render::surd::Surd;

fn radius() -> Surd {
    Surd { rat: 0, root: 2, den: 3 }
}

fn step() -> Surd {
    Surd { rat: 1, root: 0, den: 2 }
}

fn zero() -> Surd {
    Surd::whole(0)
}

fn one() -> Surd {
    Surd::whole(1)
}

fn value(s: Surd) -> f64 {
    (s.rat as f64 + s.root as f64 * 3.0f64.sqrt()) / s.den as f64
}

#[test]
fn outline_has_38_vertices_and_24_triangles() {
    let outline = HexagonOutline::new(radius(), step());
    assert_eq!(outline.vertices().len(), 38);
    assert_eq!(outline.indices().len(), 72);
    assert!(outline.indices().iter().all(|&i| i < 38));
    for t in outline.indices().chunks(3) {
        assert!(t[0] != t[1] && t[1] != t[2] && t[0] != t[2]);
    }
    // every vertex is used
    for v in 0..38u32 {
        assert!(outline.indices().contains(&v));
    }
}

#[test]
fn outline_indices_are_the_written_lists() {
    let outline = HexagonOutline::new(radius(), step());
    let top = [1, 6, 0, 0, 6, 5, 5, 6, 4, 4, 6, 3, 3, 6, 2, 2, 6, 1];
    let bottom = [0, 6, 1, 5, 6, 0, 4, 6, 5, 3, 6, 4, 2, 6, 3, 1, 6, 2];
    let side = [0, 2, 1, 1, 2, 3];
    let mut expected: Vec<u32> = Vec::new();
    expected.extend(top.iter());
    expected.extend(bottom.iter().map(|i| i + 7));
    for quad in 0..6u32 {
        expected.extend(side.iter().map(|i| i + 14 + 4 * quad));
    }
    assert_eq!(outline.indices(), &expected);
}

#[test]
fn outline_starts_hidden_at_its_place() {
    let outline = HexagonOutline::new(radius(), step());
    assert!(!outline.display);
    assert_eq!(outline.pos, [zero(), zero(), Surd::whole(50)]);
    assert_eq!(outline.position(), &[zero(), zero(), Surd::whole(50)]);
}

#[test]
fn top_cap_faces_up_at_step_height() {
    let outline = HexagonOutline::new(radius(), step());
    for (i, v) in outline.vertices()[0..7].iter().enumerate() {
        assert_eq!(v.normal, [zero(), zero(), one()]);
        assert_eq!(v.position[2], step());
        if i < 6 {
            let (x, y) = hex_corner(radius(), i as i32);
            assert_eq!([v.position[0], v.position[1]], [x, y]);
            let (a, b) = tex_map(i as i32).unwrap();
            assert_eq!(v.tex_coords, [a, b]);
        } else {
            assert_eq!([v.position[0], v.position[1]], [zero(), zero()]);
            assert_eq!(v.tex_coords, [Surd { rat: 1, root: 0, den: 2 }; 2]);
        }
    }
}

#[test]
fn bottom_cap_faces_down_at_zero() {
    let outline = HexagonOutline::new(radius(), step());
    for (i, v) in outline.vertices()[7..14].iter().enumerate() {
        assert_eq!(v.normal, [zero(), zero(), Surd::whole(-1)]);
        assert_eq!(v.position[2], zero());
        if i < 6 {
            let (x, y) = hex_corner(radius(), i as i32);
            assert_eq!([v.position[0], v.position[1]], [x, y]);
            let (a, b) = tex_map(i as i32).unwrap();
            assert_eq!(v.tex_coords, [a, b]);
        } else {
            assert_eq!([v.position[0], v.position[1]], [zero(), zero()]);
            assert_eq!(v.tex_coords, [Surd { rat: 1, root: 0, den: 2 }; 2]);
        }
    }
}

#[test]
fn sides_follow_the_neighbour_directions() {
    let outline = HexagonOutline::new(radius(), step());
    let pairs = [(4, 5), (1, 2), (5, 0), (0, 1), (3, 4), (2, 3)];
    for (quad, &(a, b)) in pairs.iter().enumerate() {
        let (x1, y1) = hex_corner(radius(), a);
        let (x2, y2) = hex_corner(radius(), b);
        let normal = [y1.plus_over(y2), x1.plus_over(x2), zero()];
        let v = &outline.vertices()[14 + 4 * quad..18 + 4 * quad];
        assert_eq!(v[0].position, [x1, y1, step()]);
        assert_eq!(v[1].position, [x2, y2, step()]);
        assert_eq!(v[2].position, [x1, y1, zero()]);
        assert_eq!(v[3].position, [x2, y2, zero()]);
        assert_eq!(v[0].tex_coords, [zero(), one()]);
        assert_eq!(v[1].tex_coords, [one(), one()]);
        assert_eq!(v[2].tex_coords, [zero(), zero()]);
        assert_eq!(v[3].tex_coords, [one(), zero()]);
        for vertex in v {
            assert_eq!(vertex.normal, normal);
        }
    }
}

#[test]
fn side_normal_is_the_swapped_sum() {
    // corners 0 and 1 of the unit hexagon: (sqrt(3) / 2, 1 / 2) and (0, 1)
    let mut vertices: Vec<OutlineVertex> = Vec::new();
    let mut indices: Vec<u32> = Vec::new();
    get_side_hexagon_model(one(), step(), 0, 1, &mut vertices, &mut indices);
    assert_eq!(vertices.len(), 4);
    assert_eq!(indices, vec![0, 2, 1, 1, 2, 3]);
    let n = vertices[0].normal;
    assert_eq!(n, [Surd { rat: 3, root: 0, den: 2 }, Surd { rat: 0, root: 1, den: 2 }, zero()]);
    assert!((value(n[0]) - 1.5).abs() < 1e-12);
    assert!((value(n[1]) - 3.0f64.sqrt() / 2.0).abs() < 1e-12);
}

#[test]
fn models_append_after_what_is_there() {
    let mut vertices: Vec<OutlineVertex> = Vec::new();
    let mut indices: Vec<u32> = vec![9, 9, 9];
    get_side_hexagon_model(radius(), step(), 2, 3, &mut vertices, &mut indices);
    let kept = vertices.clone();
    get_bottom_hexagon_model(radius(), &mut vertices, &mut indices);
    get_top_hexagon_model(radius(), step(), &mut vertices, &mut indices);
    assert_eq!(vertices.len(), 18);
    for (a, b) in kept.iter().zip(vertices.iter()) {
        assert_eq!(a.position, b.position);
    }
    assert_eq!(&indices[0..9], &[9, 9, 9, 0, 2, 1, 1, 2, 3]);
    assert_eq!(&indices[9..27], &[4, 10, 5, 9, 10, 4, 8, 10, 9, 7, 10, 8, 6, 10, 7, 5, 10, 6]);
    assert_eq!(&indices[27..45], &[12, 17, 11, 11, 17, 16, 16, 17, 15, 15, 17, 14, 14, 17, 13, 13, 17, 12]);
    assert_eq!(vertices[4].position[2], zero());
    assert_eq!(vertices[11].position[2], step());
}

fn cross_of_edges(a: [f64; 3], b: [f64; 3], c: [f64; 3]) -> [f64; 3] {
    let u = [b[0] - a[0], b[1] - a[1], b[2] - a[2]];
    let w = [c[0] - a[0], c[1] - a[1], c[2] - a[2]];
    [u[1] * w[2] - u[2] * w[1], u[2] * w[0] - u[0] * w[2], u[0] * w[1] - u[1] * w[0]]
}

fn places(outline: &HexagonOutline) -> Vec<[f64; 3]> {
    outline
        .vertices()
        .iter()
        .map(|v| [value(v.position[0]), value(v.position[1]), value(v.position[2])])
        .collect()
}

#[test]
fn all_triangles_run_counter_clockwise_seen_from_outside() {
    for (size, height) in [(radius(), step()), (one(), Surd::whole(3)), (Surd { rat: -1, root: 1, den: 5 }, step())] {
        let outline = HexagonOutline::new(size, height);
        let p = places(&outline);
        let centre = [0.0, 0.0, value(height) / 2.0];
        for t in outline.indices().chunks(3) {
            let (a, b, c) = (p[t[0] as usize], p[t[1] as usize], p[t[2] as usize]);
            let n = cross_of_edges(a, b, c);
            let out = [a[0] - centre[0], a[1] - centre[1], a[2] - centre[2]];
            let dot = n[0] * out[0] + n[1] * out[1] + n[2] * out[2];
            assert!(dot > 1e-9);
        }
    }
}

#[test]
fn cap_triangles_face_their_stored_normal() {
    let outline = HexagonOutline::new(radius(), step());
    let p = places(&outline);
    let expected = 3.0f64.sqrt() / 2.0 * value(radius()) * value(radius());
    for (k, t) in outline.indices()[0..36].chunks(3).enumerate() {
        let n = cross_of_edges(p[t[0] as usize], p[t[1] as usize], p[t[2] as usize]);
        let stored = outline.vertices()[t[0] as usize].normal;
        let facing = value(stored[2]);
        assert_eq!(facing, if k < 6 { 1.0 } else { -1.0 });
        assert!(n[0].abs() < 1e-12 && n[1].abs() < 1e-12);
        assert!((n[2] - facing * expected).abs() < 1e-12);
    }
}

#[test]
fn side_triangles_face_away_from_the_axis() {
    let outline = HexagonOutline::new(radius(), step());
    let p = places(&outline);
    for t in outline.indices()[36..72].chunks(3) {
        let (a, b, c) = (p[t[0] as usize], p[t[1] as usize], p[t[2] as usize]);
        let n = cross_of_edges(a, b, c);
        assert!(n[2].abs() < 1e-12);
        let middle = [(a[0] + b[0] + c[0]) / 3.0, (a[1] + b[1] + c[1]) / 3.0];
        assert!(n[0] * middle[0] + n[1] * middle[1] > 1e-9);
    }
}
