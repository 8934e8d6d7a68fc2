//! The kinds of ground that a pillar can be made of.

use vstd::prelude::*;

verus! {

/// The material of a piece of ground. Each has surface textures of its own.
#[derive(Clone, Copy, Debug, PartialEq, Eq, Structural)]
pub enum GroundMaterial {
    Sand,
    Snow,
    Grass,
    Stone,
    Dirt,
    Mulch,
}

} // verus!
