use pillar_render::grid::Grid;
use pillar_render::normal_converter::convert;
use pillar_render::normal_converter::Normal;
use pillar_render::normal_converter::DEFAULT_STRENGTH;
use pillar_render::normal_converter::UNIT;

fn up() -> Normal {
    Normal { x: 0, y: 0, z: UNIT }
}

fn field(width: usize, height: usize, cells: &[u8]) -> Grid<u8> {
    Grid::new(width, height, cells.to_vec()).unwrap()
}

fn noisy(width: usize, height: usize) -> Grid<u8> {
    let cells: Vec<u8> = (0..width * height).map(|i| ((i * i * 31 + i * 7 + 3) % 256) as u8).collect();
    Grid::new(width, height, cells).unwrap()
}

fn length(n: &Normal) -> f64 {
    let (x, y, z) = (n.x as f64 / 1e6, n.y as f64 / 1e6, n.z as f64 / 1e6);
    (x * x + y * y + z * z).sqrt()
}

#[test]
fn normal_map_has_the_size_of_the_height_map() {
    for (w, h) in [(1, 1), (3, 2), (2, 5), (16, 16), (0, 0), (0, 4), (4, 0)] {
        let normals = convert(&noisy(w, h), DEFAULT_STRENGTH);
        assert_eq!((normals.width(), normals.height()), (w, h));
        assert_eq!(normals.cells().len(), w * h);
    }
}

#[test]
fn slope_of_one_step_gives_the_exact_normal() {
    // heights 0, 0, 1 in a row: at the middle the direction is (-1, 0, 2) / 2
    let map = field(3, 1, &[0, 0, 255]);
    let normals = convert(&map, DEFAULT_STRENGTH);
    assert_eq!(*normals.at(0, 0), up());
    assert_eq!(*normals.at(1, 0), Normal { x: -447_213, y: 0, z: 894_427 });
    assert_eq!(*normals.at(2, 0), Normal { x: -447_213, y: 0, z: 894_427 });
    // at twice the strength the direction is (-1, 0, 1)
    let normals = convert(&map, 2 * DEFAULT_STRENGTH);
    assert_eq!(*normals.at(1, 0), Normal { x: -707_106, y: 0, z: 707_106 });
    // downhill to the right the normal leans to the right
    let normals = convert(&field(3, 1, &[255, 0, 0]), DEFAULT_STRENGTH);
    assert_eq!(*normals.at(1, 0), Normal { x: 447_213, y: 0, z: 894_427 });
    // and the same along a column
    let normals = convert(&field(1, 3, &[0, 0, 255]), DEFAULT_STRENGTH);
    assert_eq!(*normals.at(0, 1), Normal { x: 0, y: -447_213, z: 894_427 });
}

#[test]
fn normals_of_a_small_field_are_exact() {
    let map = field(3, 3, &[10, 20, 30, 40, 50, 60, 70, 80, 200]);
    let normals = convert(&map, DEFAULT_STRENGTH);
    let expected = [
        (-19_570, -58_710, 998_083),
        (-39_118, -58_677, 997_510),
        (-19_570, -58_710, 998_083),
        (-19_469, -116_819, 992_962),
        (-38_917, -116_752, 992_398),
        (-18_598, -316_173, 948_519),
        (-19_570, -58_710, 998_083),
        (-246_603, -56_908, 967_444),
        (-221_275, -258_154, 940_421),
    ];
    for (i, &(x, y, z)) in expected.iter().enumerate() {
        assert_eq!(normals.cells()[i], Normal { x, y, z });
    }
}

#[test]
fn greatest_strength_and_slope_do_not_overflow() {
    let map = field(3, 3, &[10, 20, 30, 40, 50, 60, 70, 80, 200]);
    let normals = convert(&map, u32::MAX);
    assert_eq!(*normals.at(0, 0), Normal { x: -316_225, y: -948_676, z: 3_754 });
    assert_eq!(*normals.at(2, 2), Normal { x: -650_791, y: -759_256, z: 643 });
    let steep = field(2, 2, &[0, 255, 255, 0]);
    let normals = convert(&steep, u32::MAX);
    for n in normals.cells() {
        assert!((length(n) - 1.0).abs() < 1e-5);
        assert!(n.z >= 0);
    }
    assert_eq!(*normals.at(0, 0), Normal { x: -707_106, y: -707_106, z: 329 });
}

#[test]
fn zero_strength_gives_upright_normals() {
    for (w, h) in [(1, 1), (4, 4), (7, 3)] {
        let normals = convert(&noisy(w, h), 0);
        assert!(normals.cells().iter().all(|n| *n == up()));
    }
}

#[test]
fn every_normal_has_unit_length() {
    for strength in [1, 1_000, DEFAULT_STRENGTH, 8 * DEFAULT_STRENGTH, u32::MAX] {
        let normals = convert(&noisy(9, 7), strength);
        for n in normals.cells() {
            assert!((length(n) - 1.0).abs() < 1e-5);
            assert!(n.z >= 0);
        }
    }
}

#[test]
fn flat_field_gives_upright_normals() {
    for level in [0u8, 1, 128, 255] {
        for strength in [0, 1, DEFAULT_STRENGTH, u32::MAX] {
            let normals = convert(&field(5, 4, &[level; 20]), strength);
            assert!(normals.cells().iter().all(|n| *n == up()));
        }
    }
}

#[test]
fn border_neighbours_are_clamped() {
    // one column: no normal leans sideways
    let column = field(1, 4, &[0, 50, 200, 100]);
    let normals = convert(&column, DEFAULT_STRENGTH);
    assert_eq!((normals.width(), normals.height()), (1, 4));
    for n in normals.cells() {
        assert_eq!(n.x, 0);
        assert!((length(n) - 1.0).abs() < 1e-5);
    }
    // one row: none leans along the rows
    let row = field(4, 1, &[0, 50, 200, 100]);
    let normals = convert(&row, DEFAULT_STRENGTH);
    for n in normals.cells() {
        assert_eq!(n.y, 0);
        assert!((length(n) - 1.0).abs() < 1e-5);
    }
    // at the left border the left neighbour is the texel itself:
    // the slope there is 50 - 0, at the right border 100 - 200
    assert_eq!(*normals.at(0, 0), Normal { x: -97_571, y: 0, z: 995_228 });
    assert_eq!(*normals.at(3, 0), Normal { x: 192_414, y: 0, z: 981_313 });
    // a single texel
    assert_eq!(convert(&field(1, 1, &[77]), u32::MAX).cells(), &vec![up()]);
}

#[test]
fn greater_strength_tilts_further() {
    let map = noisy(6, 6);
    let weak = convert(&map, DEFAULT_STRENGTH);
    let strong = convert(&map, 3 * DEFAULT_STRENGTH);
    let mut tilted = 0;
    for (a, b) in weak.cells().iter().zip(strong.cells().iter()) {
        assert!(b.z <= a.z);
        if a.x != 0 || a.y != 0 {
            assert!(b.z < a.z);
            assert!(b.x.abs() >= a.x.abs() && b.y.abs() >= a.y.abs());
            tilted += 1;
        }
    }
    assert!(tilted > 0);
}

#[test]
fn normal_map_is_the_same_when_made_again() {
    let map = noisy(8, 8);
    assert_eq!(convert(&map, 12_345).cells(), convert(&map, 12_345).cells());
}
