use pillar_render::hexagon::cap_tex_coord;
use pillar_render::hexagon::hex_corner;
use pillar_render::hexagon::tex_map;
use pillar_render::hexagon::HexError;
use pillar_render::surd::Surd;

fn value(s: Surd) -> f64 {
    (s.rat as f64 + s.root as f64 * 3.0f64.sqrt()) / s.den as f64
}

fn surd(rat: i64, root: i64, den: i64) -> Surd {
    Surd::new(rat, root, den).unwrap()
}

#[test]
fn surd_needs_a_positive_denominator() {
    assert_eq!(Surd::new(1, 2, 3), Some(Surd { rat: 1, root: 2, den: 3 }));
    assert_eq!(Surd::new(1, 2, 0), None);
    assert_eq!(Surd::new(1, 2, -3), None);
    assert_eq!(Surd::whole(7), Surd { rat: 7, root: 0, den: 1 });
    assert_eq!(surd(1, -2, 3).neg(), surd(-1, 2, 3));
    assert_eq!(surd(1, -2, 3).plus_over(surd(4, 5, 3)), surd(5, 3, 3));
}

#[test]
fn corners_of_the_unit_hexagon_are_exact() {
    let one = Surd::whole(1);
    assert_eq!(hex_corner(one, 0), (surd(0, 1, 2), surd(1, 0, 2)));
    assert_eq!(hex_corner(one, 1), (surd(0, 0, 2), surd(2, 0, 2)));
    assert_eq!(hex_corner(one, 2), (surd(0, -1, 2), surd(1, 0, 2)));
    assert_eq!(hex_corner(one, 3), (surd(0, -1, 2), surd(-1, 0, 2)));
    assert_eq!(hex_corner(one, 4), (surd(0, 0, 2), surd(-2, 0, 2)));
    assert_eq!(hex_corner(one, 5), (surd(0, 1, 2), surd(-1, 0, 2)));
}

#[test]
fn corner_scales_with_a_surd_radius() {
    // radius 2 / sqrt(3) = 2 * sqrt(3) / 3: corner 0 is (1, sqrt(3) / 3)
    let radius = surd(0, 2, 3);
    assert_eq!(hex_corner(radius, 0), (surd(6, 0, 6), surd(0, 2, 6)));
    // radius (5 - 2 * sqrt(3)) / 7
    let radius = surd(5, -2, 7);
    assert_eq!(hex_corner(radius, 0), (surd(-6, 5, 14), surd(5, -2, 14)));
    assert_eq!(hex_corner(radius, 3), (surd(6, -5, 14), surd(-5, 2, 14)));
    assert_eq!(hex_corner(radius, 4), (surd(0, 0, 14), surd(-10, 4, 14)));
}

#[test]
fn corner_index_wraps() {
    let radius = surd(3, 1, 2);
    for i in 0..6 {
        assert_eq!(hex_corner(radius, i + 6), hex_corner(radius, i));
        assert_eq!(hex_corner(radius, i - 6), hex_corner(radius, i));
        assert_eq!(hex_corner(radius, i + 600), hex_corner(radius, i));
    }
    assert_eq!(hex_corner(radius, -1), hex_corner(radius, 5));
    assert_eq!(hex_corner(radius, i32::MIN), hex_corner(radius, 4));
    assert_eq!(hex_corner(radius, i32::MAX), hex_corner(radius, 1));
}

#[test]
fn corners_lie_on_the_circle_every_sixty_degrees() {
    for radius in [surd(1, 0, 1), surd(0, 2, 3), surd(7, 3, 5), surd(1, 0, 1000)] {
        let r = value(radius);
        for i in 0..6 {
            let (x, y) = hex_corner(radius, i);
            let (x, y) = (value(x), value(y));
            assert!(((x * x + y * y).sqrt() - r).abs() < 1e-6 * r.max(1.0));
            let angle = (60.0 * i as f64 + 30.0).to_radians();
            assert!((x - r * angle.cos()).abs() < 1e-9 * r.max(1.0));
            assert!((y - r * angle.sin()).abs() < 1e-9 * r.max(1.0));
        }
    }
}

#[test]
fn corner_accepts_the_largest_radius() {
    let limit = pillar_render::surd::SURD_LIMIT;
    let radius = surd(limit, -limit, limit);
    assert_eq!(hex_corner(radius, 2), (surd(3 * limit, -limit, 2 * limit), surd(limit, -limit, 2 * limit)));
    assert_eq!(hex_corner(radius, 4), (surd(0, 0, 2 * limit), surd(-2 * limit, 2 * limit, 2 * limit)));
}

#[test]
fn tex_map_is_the_table() {
    assert_eq!(tex_map(0), Ok((surd(2, 1, 4), surd(1, 0, 4))));
    assert_eq!(tex_map(1), Ok((surd(2, 1, 4), surd(3, 0, 4))));
    assert_eq!(tex_map(2), Ok((surd(1, 0, 2), surd(1, 0, 1))));
    assert_eq!(tex_map(3), Ok((surd(2, -1, 4), surd(3, 0, 4))));
    assert_eq!(tex_map(4), Ok((surd(2, -1, 4), surd(1, 0, 4))));
    assert_eq!(tex_map(5), Ok((surd(1, 0, 2), surd(0, 0, 1))));
    for i in 0..6 {
        assert_eq!(tex_map(i), Ok(cap_tex_coord(i)));
    }
}

#[test]
fn tex_map_matches_the_decimal_table() {
    let q = 3.0f64.sqrt() / 4.0;
    let table = [
        (1.0 - (0.5 - q), 0.25),
        (1.0 - (0.5 - q), 0.75),
        (0.5, 1.0),
        (0.5 - q, 0.75),
        (0.5 - q, 0.25),
        (0.5, 0.0),
    ];
    for i in 0..6 {
        let (u, v) = tex_map(i as i32).unwrap();
        assert!((value(u) - table[i].0).abs() < 1e-12);
        assert!((value(v) - table[i].1).abs() < 1e-12);
    }
}

#[test]
fn tex_map_rejects_other_indices() {
    assert_eq!(tex_map(6), Err(HexError::InvalidCornerIndex { index: 6 }));
    assert_eq!(tex_map(-1), Err(HexError::InvalidCornerIndex { index: -1 }));
    assert_eq!(tex_map(i32::MAX), Err(HexError::InvalidCornerIndex { index: i32::MAX }));
    assert_eq!(tex_map(i32::MIN), Err(HexError::InvalidCornerIndex { index: i32::MIN }));
}

#[test]
fn tex_hexagon_is_inscribed_in_the_unit_square() {
    for i in 0..6 {
        let (u, v) = tex_map(i).unwrap();
        let (u, v) = (value(u), value(v));
        assert!((0.0..=1.0).contains(&u) && (0.0..=1.0).contains(&v));
        let (du, dv) = (u - 0.5, v - 0.5);
        assert!(((du * du + dv * dv).sqrt() - 0.5).abs() < 1e-12);
        let (x, y) = hex_corner(surd(1, 0, 2), i - 1);
        assert!((du - value(x)).abs() < 1e-12 && (dv - value(y)).abs() < 1e-12);
    }
}

#[test]
fn neighbouring_corners_are_a_radius_apart_and_turn_left() {
    for radius in [surd(1, 0, 1), surd(0, 2, 3), surd(7, 3, 5), surd(-2, 1, 9)] {
        let r = value(radius);
        assert!(r != 0.0);
        for i in 0..6 {
            let (x0, y0) = hex_corner(radius, i);
            let (x1, y1) = hex_corner(radius, (i + 1) % 6);
            let (x0, y0, x1, y1) = (value(x0), value(y0), value(x1), value(y1));
            assert!(x0 * y1 - y0 * x1 > 0.0);
            assert!((x0 * y1 - y0 * x1 - 3.0f64.sqrt() / 2.0 * r * r).abs() < 1e-9);
            let edge = ((x1 - x0) * (x1 - x0) + (y1 - y0) * (y1 - y0)).sqrt();
            assert!((edge - r.abs()).abs() < 1e-5 * r.abs());
            for j in i + 1..6 {
                assert_ne!(hex_corner(radius, i), hex_corner(radius, j));
            }
        }
    }
}
