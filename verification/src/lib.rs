//! Voxel-world core: a palette-compressed block grid and a greedy surface
//! mesher, with supporting block, registry and utility types.

pub mod block;
pub mod block_registry;
pub mod chunk;
pub mod direction;
pub mod memory;
pub mod mesh;
pub mod mesher;
pub mod palette;
pub mod ring;
pub mod time;

pub use block::Block;
pub use block_registry::BlockRegistry;
pub use palette::Palette;
