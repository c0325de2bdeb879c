//! Region geometry: a chunk is a cube of `CHUNK_SIZE` cells per side, held
//! in one palette of `CHUNK_SIZE_CUBED` cells.
//!
//! A local coordinate `(x, y, z)`, each in `[0, CHUNK_SIZE)`, maps to the
//! linear index `x + (y << CHUNK_SIZE_SHIFT) + (z << 2 * CHUNK_SIZE_SHIFT)`;
//! this mapping is a bijection between coordinate triples and `[0,
//! CHUNK_SIZE_CUBED)`.

use vstd::prelude::*;

use crate::palette::Palette;

verus! {

/// Cells per chunk side; a power of two.
pub const CHUNK_SIZE: usize = 32;

/// Cells per chunk face.
pub const CHUNK_SIZE_SQUARED: usize = 1024;

/// Cells per chunk.
pub const CHUNK_SIZE_CUBED: usize = 32768;

/// `log2(CHUNK_SIZE)`.
pub const CHUNK_SIZE_SHIFT: usize = 5;

/// `CHUNK_SIZE - 1`.
pub const CHUNK_SIZE_MASK: usize = 31;

/// The linear index of local coordinates `(x, y, z)`.
pub open spec fn spec_cell_index(x: int, y: int, z: int) -> int {
    x + 32 * y + 1024 * z
}

/// Maps local coordinates to their linear palette index.
pub fn cell_index(x: usize, y: usize, z: usize) -> (r: usize)
    requires
        x < CHUNK_SIZE,
        y < CHUNK_SIZE,
        z < CHUNK_SIZE,
    ensures
        r == spec_cell_index(x as int, y as int, z as int),
        r < CHUNK_SIZE_CUBED,
{
    x + 32 * y + 1024 * z
}

/// The `x` coordinate of the cell with linear index `c`.
pub open spec fn spec_cell_x(c: int) -> int {
    c % 32
}

/// The `y` coordinate of the cell with linear index `c`.
pub open spec fn spec_cell_y(c: int) -> int {
    (c / 32) % 32
}

/// The `z` coordinate of the cell with linear index `c`.
pub open spec fn spec_cell_z(c: int) -> int {
    c / 1024
}

/// The coordinate mapping inverts: a cell index decomposes back into the
/// coordinates it was built from.
pub proof fn lemma_cell_index_inverse(x: int, y: int, z: int)
    by (nonlinear_arith)
    requires
        0 <= x < 32,
        0 <= y < 32,
        0 <= z < 32,
    ensures
        spec_cell_x(spec_cell_index(x, y, z)) == x,
        spec_cell_y(spec_cell_index(x, y, z)) == y,
        spec_cell_z(spec_cell_index(x, y, z)) == z,
{
}

/// The coordinate mapping is onto: every index in range decomposes into
/// in-range coordinates that map back to it.
pub proof fn lemma_cell_index_reconstruct(c: int)
    by (nonlinear_arith)
    requires
        0 <= c < 32768,
    ensures
        0 <= spec_cell_x(c) < 32,
        0 <= spec_cell_y(c) < 32,
        0 <= spec_cell_z(c) < 32,
        spec_cell_index(spec_cell_x(c), spec_cell_y(c), spec_cell_z(c)) == c,
{
}

/// The coordinate mapping is injective: equal indices force equal
/// coordinates.
pub proof fn lemma_cell_index_injective(x1: int, y1: int, z1: int, x2: int, y2: int, z2: int)
    requires
        0 <= x1 < 32,
        0 <= y1 < 32,
        0 <= z1 < 32,
        0 <= x2 < 32,
        0 <= y2 < 32,
        0 <= z2 < 32,
        spec_cell_index(x1, y1, z1) == spec_cell_index(x2, y2, z2),
    ensures
        x1 == x2,
        y1 == y2,
        z1 == z2,
{
}

/// One pass of terrain generation over a chunk's palette; implemented by
/// the world-generation layer outside this crate.
pub trait ChunkGenerationStep {
    fn gen_pass(&self, blocks: &mut Palette);
}

/// Marker for the scheduling layer's chunk-generation stage.
pub struct ChunkGenerationSystem {}

} // verus!
