//! Verified core of a terrain streamer: grid coordinates, level-of-detail
//! selection, mesh topology and the chunk store that follows a moving viewpoint.

pub mod chunk;
pub mod chunk_container;
pub mod grid;
pub mod lod;
pub mod material;
pub mod mesh;
pub mod scenenode;
pub mod streaming;
pub mod triangle;
pub mod utils;
