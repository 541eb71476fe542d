//! A sparse in-memory write buffer for a voxel world, with the palette
//! encoding of its sections and the per-chunk decisions of a save.
//!
//! The buffer is a strict hierarchy: a world of regions, a region of 32 x 32
//! chunks, a chunk of sections, a section of 16 x 16 x 16 blocks. Each level
//! is materialised on the first write that needs it and never by a read.

pub mod block;
pub mod chunk;
pub mod document;
pub mod editor;
pub mod index;
pub mod nbt;
pub mod palette;
pub mod region;
pub mod section;
pub mod sign;
pub mod world;
