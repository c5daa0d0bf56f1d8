//! Decoder for the on-disk region format of a voxel-game world: a region
//! container holds up to 1024 independently compressed, NBT-encoded chunks,
//! each describing a 16x16x(variable height) voxel volume whose voxel
//! identities are stored through a palette and a bit-packed index array.

pub mod block;
pub mod chunk;
pub mod codec;
pub mod compress;
pub mod nbt;
pub mod region;
pub mod section;

pub use block::Block;
pub use chunk::Chunk;
pub use chunk::ChunkParseError;
pub use chunk::parse_chunk;
pub use region::Region;
pub use region::RegionParseError;
pub use section::Section;
