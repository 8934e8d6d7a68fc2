use pillar_render::material::GroundMaterial;
use pillar_render::tex_generator::create_texture_maps;
use pillar_render::tex_generator::recipe;
use pillar_render::tex_generator::Color;
use pillar_render::tex_generator::TEXTURE_SIZE;

fn all_materials() -> [GroundMaterial; 6] {
    [
        GroundMaterial::Sand,
        GroundMaterial::Snow,
        GroundMaterial::Grass,
        GroundMaterial::Stone,
        GroundMaterial::Dirt,
        GroundMaterial::Mulch,
    ]
}

#[test]
fn textures_have_the_fixed_size() {
    assert_eq!(TEXTURE_SIZE, 256);
    for material in all_materials() {
        let (height, color) = create_texture_maps(material);
        assert_eq!((height.width(), height.height()), (256, 256));
        assert_eq!((color.width(), color.height()), (256, 256));
        assert_eq!(height.cells().len(), 65_536);
        assert_eq!(color.cells().len(), 65_536);
    }
}

#[test]
fn heights_are_the_expected_noise() {
    // (material, h(0, 0), h(5, 9), h(255, 255), h(100, 200), least, greatest, sum)
    let expected = [
        (GroundMaterial::Sand, 122, 127, 123, 97, 34, 224, 8_361_156u64),
        (GroundMaterial::Snow, 54, 68, 56, 121, 54, 175, 6_912_458),
        (GroundMaterial::Grass, 136, 115, 132, 144, 20, 222, 7_952_465),
        (GroundMaterial::Stone, 80, 85, 79, 131, 47, 210, 8_058_124),
        (GroundMaterial::Dirt, 158, 125, 152, 152, 30, 214, 8_021_966),
        (GroundMaterial::Mulch, 134, 110, 109, 85, 18, 233, 8_381_336),
    ];
    for (material, a, b, c, d, least, greatest, sum) in expected {
        let (height, _) = create_texture_maps(material);
        assert_eq!(*height.at(0, 0), a);
        assert_eq!(*height.at(5, 9), b);
        assert_eq!(*height.at(255, 255), c);
        assert_eq!(*height.at(100, 200), d);
        assert_eq!(*height.cells().iter().min().unwrap(), least);
        assert_eq!(*height.cells().iter().max().unwrap(), greatest);
        assert_eq!(height.cells().iter().map(|&h| h as u64).sum::<u64>(), sum);
    }
}

#[test]
fn colors_blend_from_dark_to_light_by_height() {
    let expected = [
        (GroundMaterial::Sand, (210, 189, 139)),
        (GroundMaterial::Snow, (233, 239, 244)),
        (GroundMaterial::Grass, (79, 137, 46)),
        (GroundMaterial::Stone, (126, 126, 131)),
        (GroundMaterial::Dirt, (108, 74, 45)),
        (GroundMaterial::Mulch, (73, 46, 30)),
    ];
    for (material, (r, g, b)) in expected {
        let (height, color) = create_texture_maps(material);
        assert_eq!(*color.at(100, 200), Color { r, g, b });
        let made = recipe(material);
        for (h, c) in height.cells().iter().zip(color.cells().iter()) {
            let h = *h as u32;
            let blend = |dark: u8, light: u8| ((dark as u32 * (255 - h) + light as u32 * h) / 255) as u8;
            assert_eq!(c.r, blend(made.dark.r, made.light.r));
            assert_eq!(c.g, blend(made.dark.g, made.light.g));
            assert_eq!(c.b, blend(made.dark.b, made.light.b));
        }
    }
}

#[test]
fn recipes_differ_by_material() {
    let stone = recipe(GroundMaterial::Stone);
    assert_eq!((stone.seed, stone.cell), (41, 64));
    assert_eq!(stone.dark, Color { r: 80, g: 80, b: 85 });
    assert_eq!(stone.light, Color { r: 170, g: 170, b: 175 });
    let materials = all_materials();
    for (i, a) in materials.iter().enumerate() {
        for b in &materials[i + 1..] {
            assert_ne!(recipe(*a).seed, recipe(*b).seed);
            assert_ne!(create_texture_maps(*a).0.cells(), create_texture_maps(*b).0.cells());
        }
    }
}

#[test]
fn texture_tiles_without_a_seam() {
    // the last column is as near to the first as neighbours are elsewhere
    for material in all_materials() {
        let (height, _) = create_texture_maps(material);
        let mut inner = 0i32;
        for y in 0..256 {
            for x in 0..255 {
                inner = inner.max((*height.at(x, y) as i32 - *height.at(x + 1, y) as i32).abs());
            }
        }
        for y in 0..256 {
            let seam = (*height.at(255, y) as i32 - *height.at(0, y) as i32).abs();
            assert!(seam <= inner);
        }
    }
}

#[test]
fn same_material_gives_the_same_texture() {
    for material in all_materials() {
        let (h1, c1) = create_texture_maps(material);
        let (h2, c2) = create_texture_maps(material);
        assert_eq!(h1.cells(), h2.cells());
        assert_eq!(c1.cells(), c2.cells());
    }
}

#[test]
fn neighbouring_texels_differ_by_at_most_the_step() {
    for material in all_materials() {
        let cell = recipe(material).cell as i32;
        let layer = |c: i32| 255 / c + 1;
        let step = (8 * layer(cell) + 4 * layer(cell / 2) + 2 * layer(cell / 4) + layer(cell / 8)) / 15 + 1;
        let (height, _) = create_texture_maps(material);
        for y in 0..256 {
            for x in 0..256 {
                let here = *height.at(x, y) as i32;
                let right = *height.at((x + 1) % 256, y) as i32;
                let below = *height.at(x, (y + 1) % 256) as i32;
                assert!((right - here).abs() <= step);
                assert!((below - here).abs() <= step);
            }
        }
    }
}
