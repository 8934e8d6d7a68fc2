use pillar_render::chunk_renderer::ChunkRenderer;
use pillar_render::chunk_renderer::MaterialTextures;
use pillar_render::material::GroundMaterial;
use pillar_render::normal_converter::convert;
use pillar_render::normal_converter::Normal;
use pillar_render::normal_converter::DEFAULT_STRENGTH;
use pillar_render::surd::Surd;
use pillar_render::tex_generator::create_texture_maps;

#[test]
fn stone_then_dirt_then_stone_again() {
    let first = MaterialTextures::new(GroundMaterial::Stone, DEFAULT_STRENGTH);
    let dirt = MaterialTextures::new(GroundMaterial::Dirt, DEFAULT_STRENGTH);
    let again = MaterialTextures::new(GroundMaterial::Stone, DEFAULT_STRENGTH);
    assert_eq!(first.height.cells(), again.height.cells());
    assert_eq!(first.color.cells(), again.color.cells());
    assert_eq!(first.normal.cells(), again.normal.cells());
    assert_ne!(first.height.cells(), dirt.height.cells());
}

#[test]
fn textures_are_the_maps_and_their_normals() {
    let textures = MaterialTextures::new(GroundMaterial::Stone, DEFAULT_STRENGTH);
    let (height, color) = create_texture_maps(GroundMaterial::Stone);
    assert_eq!(textures.height.cells(), height.cells());
    assert_eq!(textures.color.cells(), color.cells());
    assert_eq!(textures.normal.cells(), convert(&height, DEFAULT_STRENGTH).cells());
    assert_eq!(*textures.normal.at(0, 0), Normal { x: 0, y: 1_960, z: 999_998 });
    assert_eq!(*textures.normal.at(100, 200), Normal { x: 5_882, y: 1_960, z: 999_980 });
    assert_eq!(*textures.normal.at(255, 255), Normal { x: 0, y: 1_960, z: 999_998 });
    let stronger = MaterialTextures::new(GroundMaterial::Stone, 4 * DEFAULT_STRENGTH);
    assert_eq!(stronger.height.cells(), height.cells());
    assert_ne!(stronger.normal.cells(), textures.normal.cells());
}

#[test]
fn renderer_holds_the_textures_of_every_material() {
    let radius = Surd { rat: 0, root: 2, den: 3 };
    let step = Surd { rat: 1, root: 0, den: 2 };
    let renderer = ChunkRenderer::new(radius, step);
    let materials = [
        GroundMaterial::Sand,
        GroundMaterial::Snow,
        GroundMaterial::Grass,
        GroundMaterial::Stone,
        GroundMaterial::Dirt,
        GroundMaterial::Mulch,
    ];
    for material in materials {
        let kept = renderer.textures(material);
        let made = MaterialTextures::new(material, DEFAULT_STRENGTH);
        assert_eq!(kept.height.cells(), made.height.cells());
        assert_eq!(kept.color.cells(), made.color.cells());
        assert_eq!(kept.normal.cells(), made.normal.cells());
        for n in kept.normal.cells() {
            let (x, y, z) = (n.x as f64 / 1e6, n.y as f64 / 1e6, n.z as f64 / 1e6);
            assert!(((x * x + y * y + z * z).sqrt() - 1.0).abs() < 1e-5);
        }
    }
    assert_eq!(renderer.textures(GroundMaterial::Sand).height.cells(), renderer.sand.height.cells());
    assert_eq!(renderer.textures(GroundMaterial::Mulch).height.cells(), renderer.mulch.height.cells());
    assert_eq!(renderer.outline.vertices().len(), 38);
    assert_eq!(renderer.outline.indices().len(), 72);
    assert_eq!(renderer.outline.vertices()[0].position[2], step);
    assert!(!renderer.outline.display);
}
