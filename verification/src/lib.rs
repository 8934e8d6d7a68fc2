//! Geometry and texture synthesis for a world of hexagonal pillars.
//!
//! The crate builds the outline mesh of a pillar and the surface textures of
//! the ground materials. Everything is plain data, computed in exact integer
//! arithmetic: coordinates are numbers of the form
//! `(rat + root * sqrt(3)) / den`, heights are bytes, and normals are
//! fixed-point vectors in millionths. What each function returns is stated
//! in its contract and proved.

pub mod chunk_renderer;
pub mod grid;
pub mod hexagon;
pub mod material;
pub mod normal_converter;
pub mod outline;
pub mod provider;
pub mod surd;
pub mod tex_generator;
pub mod winding;
