//! The textures of all ground materials and the pillar outline, made once and
//! then only read.

use vstd::prelude::*;
use crate::material::GroundMaterial;
use crate::normal_converter::convert;
use crate::normal_converter::is_normal_map_of;
use crate::normal_converter::HeightField;
use crate::normal_converter::NormalField;
use crate::normal_converter::DEFAULT_STRENGTH;
use crate::outline::index_values;
use crate::outline::outline_indices;
use crate::outline::outline_vertices;
use crate::outline::vertex_values;
use crate::outline::HexagonOutline;
use crate::surd::Surd;
use crate::surd::SurdValue;
use crate::winding::above;
use crate::winding::mesh_turn;
use crate::tex_generator::create_texture_maps;
use crate::tex_generator::is_texture_of;
use crate::tex_generator::ColorField;

verus! {

/// The textures of one material.
pub struct MaterialTextures {
    /// The height of the surface.
    pub height: HeightField,
    /// The colour of the surface.
    pub color: ColorField,
    /// The normals of the surface, made of its heights.
    pub normal: NormalField,
}

impl MaterialTextures {
    /// These are the textures of `material`, with the normal map made at the
    /// given strength.
    pub open spec fn is_made_of(&self, material: GroundMaterial, strength: int) -> bool {
        &&& is_texture_of((self.height@, self.color@), material)
        &&& is_normal_map_of(self.normal@, self.height@, strength)
    }

    /// Makes the textures of a material: its height map and colour map, and
    /// the normal map of the height map at the given strength, in
    /// millionths.
    pub fn new(material: GroundMaterial, strength: u32) -> (r: MaterialTextures)
        ensures
            r.is_made_of(material, strength as int),
    {
        let (height, color) = create_texture_maps(material);
        let normal = convert(&height, strength);
        MaterialTextures { height, color, normal }
    }
}

/// What is drawn of a chunk: the textures of each material and the outline
/// of the selected pillar.
pub struct ChunkRenderer {
    pub sand: MaterialTextures,
    pub snow: MaterialTextures,
    pub grass: MaterialTextures,
    pub stone: MaterialTextures,
    pub dirt: MaterialTextures,
    pub mulch: MaterialTextures,
    pub outline: HexagonOutline,
}

impl ChunkRenderer {
    /// The textures that are kept for a material.
    pub open spec fn textures_of(&self, material: GroundMaterial) -> MaterialTextures {
        match material {
            GroundMaterial::Sand => self.sand,
            GroundMaterial::Snow => self.snow,
            GroundMaterial::Grass => self.grass,
            GroundMaterial::Stone => self.stone,
            GroundMaterial::Dirt => self.dirt,
            GroundMaterial::Mulch => self.mulch,
        }
    }

    /// Makes the textures of every material, each normal map at
    /// [`DEFAULT_STRENGTH`], and the outline of a pillar whose hexagon has
    /// the outer radius `size` and which is `height` high. For a positive
    /// height and a radius other than zero every triangle of the outline
    /// runs counter-clockwise seen from outside the prism.
    pub fn new(size: Surd, height: Surd) -> (r: ChunkRenderer)
        requires
            size.in_range(),
        ensures
            forall|material: GroundMaterial|
                (#[trigger] r.textures_of(material)).is_made_of(material, DEFAULT_STRENGTH as int),
            vertex_values(r.outline.vertices@) == outline_vertices(size@, height@),
            index_values(r.outline.indices@) == outline_indices(),
            above(height@).is_positive() && (size.rat != 0 || size.root != 0) ==> forall|t: int|
                0 <= t < 24 ==> (#[trigger] mesh_turn(
                    vertex_values(r.outline.vertices@),
                    index_values(r.outline.indices@),
                    height@,
                    t,
                )).is_positive(),
            r.outline.pos[0]@ == SurdValue::whole(0),
            r.outline.pos[1]@ == SurdValue::whole(0),
            r.outline.pos[2]@ == SurdValue::whole(50),
            !r.outline.display,
    {
        ChunkRenderer {
            sand: MaterialTextures::new(GroundMaterial::Sand, DEFAULT_STRENGTH),
            snow: MaterialTextures::new(GroundMaterial::Snow, DEFAULT_STRENGTH),
            grass: MaterialTextures::new(GroundMaterial::Grass, DEFAULT_STRENGTH),
            stone: MaterialTextures::new(GroundMaterial::Stone, DEFAULT_STRENGTH),
            dirt: MaterialTextures::new(GroundMaterial::Dirt, DEFAULT_STRENGTH),
            mulch: MaterialTextures::new(GroundMaterial::Mulch, DEFAULT_STRENGTH),
            outline: HexagonOutline::new(size, height),
        }
    }

    /// Looks up the textures of a material.
    pub fn textures(&self, material: GroundMaterial) -> (r: &MaterialTextures)
        ensures
            *r == self.textures_of(material),
    {
        match material {
            GroundMaterial::Sand => &self.sand,
            GroundMaterial::Snow => &self.snow,
            GroundMaterial::Grass => &self.grass,
            GroundMaterial::Stone => &self.stone,
            GroundMaterial::Dirt => &self.dirt,
            GroundMaterial::Mulch => &self.mulch,
        }
    }
}

/// Textures are determined by their material and strength: whatever is made
/// for one material twice, also with others made in between, is the same.
pub proof fn lemma_textures_are_determined(
    first: MaterialTextures,
    second: MaterialTextures,
    material: GroundMaterial,
    strength: int,
)
    requires
        first.is_made_of(material, strength),
        second.is_made_of(material, strength),
    ensures
        first.height@ == second.height@,
        first.color@ == second.color@,
        first.normal@ == second.normal@,
{
    crate::tex_generator::lemma_texture_is_determined(
        (first.height@, first.color@),
        (second.height@, second.color@),
        material,
    );
    crate::normal_converter::lemma_normal_map_is_determined(
        first.normal@,
        second.normal@,
        first.height@,
        strength,
    );
}

} // verus!
