//! Where the chunks of a world come from.

use vstd::prelude::*;

verus! {

/// The place of a chunk or of a pillar on the hexagonal grid, in axial
/// coordinates.
#[derive(Clone, Copy, Debug, PartialEq, Eq, Hash, Structural)]
pub struct AxialPoint {
    pub q: i32,
    pub r: i32,
}

/// A type that can load a game world, chunk by chunk: from a file, from a
/// generator, from a server.
pub trait Provider {
    /// What a loaded chunk is.
    type Chunk;

    /// Tries to load the chunk at a chunk index; `(0, 0)`, `(0, 1)` and
    /// `(1, 0)` are three chunks. This may take a while, and it may fail.
    fn load_chunk(pos: AxialPoint) -> Option<Self::Chunk>;

    /// Whether the chunk at the index can be loaded. This answers quickly.
    fn is_chunk_loadable(pos: AxialPoint) -> bool;
}

} // verus!
