//! What the renderer is handed for each visible chunk.

use crate::grid::WorldPosition;
use vstd::prelude::*;

verus! {

/// One drawable of a frame. A node whose `vao_id` is zero has no device resources yet
/// and is passed over by the renderer.
#[derive(Clone, Copy, Debug, PartialEq, Eq, Structural)]
pub struct SceneNode {
    pub vao_id: u32,
    pub index_count: i32,
    pub shader_program: u32,
    pub position: WorldPosition,
    pub rotation: WorldPosition,
    pub scale: WorldPosition,
    pub reference_point: WorldPosition,
}

} // verus!
