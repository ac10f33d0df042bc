//! One tile of terrain: its meshes, one per level of detail, and the device handles
//! that the renderer draws them with.

use crate::grid::{chunk_position_in_world, chunk_world_position, GridCoordinate, WorldPosition};
use crate::lod::LevelOfDetailInfo;
use crate::material::Material;
use crate::mesh::{
    all_samples_covered, covers_sample_grid, height_map_covers_grid, is_terrain_mesh,
    simplification_increment, Mesh, MeshError,
};
use crate::scenenode::SceneNode;
use vstd::prelude::*;

verus! {

/// The terrain of one grid coordinate, built from one version of the settings.
pub struct Chunk {
    pub position: GridCoordinate,
    pub epoch: u64,
    pub meshes: Vec<Mesh>,
    pub vao_ids: Vec<u32>,
}

/// True when every level of the policy finds a material for each of its samples.
pub open spec fn all_levels_covered(
    materials: Seq<Material>,
    height_map: Seq<Vec<u32>>,
    detail_levels: Seq<LevelOfDetailInfo>,
) -> bool {
    forall|i: int|
        0 <= i < detail_levels.len() ==> all_samples_covered(
            materials,
            height_map,
            simplification_increment((#[trigger] detail_levels[i]).lod as int),
        )
}

/// Why no chunk can be built from the given inputs, or `None` when one can. An empty
/// material table is reported first, then a height map that is too small, then a sample
/// without a material.
pub open spec fn build_failure(
    materials: Seq<Material>,
    height_map: Seq<Vec<u32>>,
    detail_levels: Seq<LevelOfDetailInfo>,
) -> Option<MeshError> {
    if materials.len() == 0 {
        Some(MeshError::NoMaterials)
    } else if !covers_sample_grid(height_map) {
        Some(MeshError::HeightMapTooSmall)
    } else if !all_levels_covered(materials, height_map, detail_levels) {
        Some(MeshError::HeightAboveMaterials)
    } else {
        None
    }
}

/// True when `chunk` is the chunk of the given inputs: it stands at `position`, belongs
/// to version `epoch` of the settings, holds the mesh of each level of the policy and is
/// not bound to the device.
pub open spec fn is_chunk_of(
    chunk: Chunk,
    position: GridCoordinate,
    epoch: u64,
    materials: Seq<Material>,
    height_map: Seq<Vec<u32>>,
    detail_levels: Seq<LevelOfDetailInfo>,
) -> bool {
    &&& chunk.wf()
    &&& chunk.unbound()
    &&& chunk.position == position
    &&& chunk.epoch == epoch
    &&& chunk.levels() == detail_levels.len()
    &&& forall|i: int|
        0 <= i < detail_levels.len() ==> is_terrain_mesh(
            #[trigger] chunk.meshes[i],
            materials,
            height_map,
            detail_levels[i].lod as int,
        )
}

/// The node that a chunk contributes to a frame at the given level.
pub open spec fn scene_node_of(
    chunk: Chunk,
    shader_id: u32,
    lod_index: int,
    chunk_world_size: int,
) -> SceneNode {
    SceneNode {
        vao_id: chunk.vao_ids@[lod_index],
        index_count: chunk.meshes@[lod_index].index_count,
        shader_program: shader_id,
        position: chunk_world_position(chunk.position, chunk_world_size),
        rotation: WorldPosition { x: 0, y: 0, z: 0 },
        scale: WorldPosition { x: 1, y: 1, z: 1 },
        reference_point: WorldPosition { x: 0, y: 0, z: 0 },
    }
}

impl Chunk {
    /// The number of levels of detail that the chunk holds.
    pub open spec fn levels(&self) -> int {
        self.meshes@.len() as int
    }

    /// A chunk is well formed when it has one device handle for each mesh.
    pub open spec fn wf(&self) -> bool {
        self.vao_ids@.len() == self.meshes@.len()
    }

    /// True when no level of the chunk has device resources.
    pub open spec fn unbound(&self) -> bool {
        forall|i: int| 0 <= i < self.vao_ids@.len() ==> self.vao_ids@[i] == 0
    }

    /// Builds the chunk at `position`: one mesh for each level of the policy, none of
    /// them bound to the device yet.
    pub fn new(
        position: GridCoordinate,
        materials: &Vec<Material>,
        height_map: &Vec<Vec<u32>>,
        detail_levels: &Vec<LevelOfDetailInfo>,
        epoch: u64,
    ) -> (result: Result<Chunk, MeshError>)
        ensures
            match result {
                Ok(chunk) => {
                    &&& build_failure(materials@, height_map@, detail_levels@) is None
                    &&& is_chunk_of(chunk, position, epoch, materials@, height_map@, detail_levels@)
                },
                Err(e) => build_failure(materials@, height_map@, detail_levels@) == Some(e),
            },
    {
        if materials.len() == 0 {
            return Err(MeshError::NoMaterials);
        }
        if !height_map_covers_grid(height_map) {
            return Err(MeshError::HeightMapTooSmall);
        }
        let mut meshes: Vec<Mesh> = Vec::new();
        let mut vao_ids: Vec<u32> = Vec::new();
        let mut i: usize = 0;
        while i < detail_levels.len()
            invariant
                materials@.len() > 0,
                covers_sample_grid(height_map@),
                0 <= i <= detail_levels@.len(),
                meshes@.len() == i,
                vao_ids@.len() == i,
                forall|k: int| 0 <= k < i ==> vao_ids@[k] == 0,
                forall|k: int|
                    0 <= k < i ==> all_samples_covered(
                        materials@,
                        height_map@,
                        simplification_increment((#[trigger] detail_levels@[k]).lod as int),
                    ),
                forall|k: int|
                    0 <= k < i ==> is_terrain_mesh(
                        #[trigger] meshes@[k],
                        materials@,
                        height_map@,
                        detail_levels@[k].lod as int,
                    ),
            decreases detail_levels@.len() - i,
        {
            match Mesh::create_terrain_mesh(materials, height_map, detail_levels[i].lod) {
                Ok(mesh) => {
                    meshes.push(mesh);
                    vao_ids.push(0);
                },
                Err(_) => {
                    return Err(MeshError::HeightAboveMaterials);
                },
            }
            i = i + 1;
        }
        Ok(Chunk { position, epoch, meshes, vao_ids })
    }

    /// Rebuilds the chunk's meshes from new inputs. The chunk keeps its position and
    /// loses its device handles. On an error the chunk is left as it was.
    pub fn update(
        &mut self,
        materials: &Vec<Material>,
        height_map: &Vec<Vec<u32>>,
        detail_levels: &Vec<LevelOfDetailInfo>,
        epoch: u64,
    ) -> (result: Result<(), MeshError>)
        ensures
            match result {
                Ok(_) => {
                    &&& build_failure(materials@, height_map@, detail_levels@) is None
                    &&& is_chunk_of(
                        *final(self),
                        old(self).position,
                        epoch,
                        materials@,
                        height_map@,
                        detail_levels@,
                    )
                },
                Err(e) => {
                    &&& build_failure(materials@, height_map@, detail_levels@) == Some(e)
                    &&& *final(self) == *old(self)
                },
            },
    {
        match Chunk::new(self.position, materials, height_map, detail_levels, epoch) {
            Ok(rebuilt) => {
                *self = rebuilt;
                Ok(())
            },
            Err(e) => Err(e),
        }
    }

    /// Records the device handles of the chunk's levels, one for each, in order. Handles
    /// are taken only when there is exactly one for each level.
    pub fn rebind_vaos(&mut self, vao_ids: Vec<u32>) -> (bound: bool)
        ensures
            bound == (vao_ids@.len() == old(self).meshes@.len()),
            bound ==> *final(self) == (Chunk { vao_ids: vao_ids, ..*old(self) }),
            !bound ==> *final(self) == *old(self),
    {
        if vao_ids.len() == self.meshes.len() {
            self.vao_ids = vao_ids;
            true
        } else {
            false
        }
    }

    /// The node that the chunk contributes to a frame at the given level.
    pub fn get_scene_node(&self, shader_id: u32, lod_index: usize, chunk_world_size: i32) -> (node:
        SceneNode)
        requires
            self.wf(),
            lod_index < self.levels(),
        ensures
            node == scene_node_of(*self, shader_id, lod_index as int, chunk_world_size as int),
    {
        SceneNode {
            vao_id: self.vao_ids[lod_index],
            index_count: self.meshes[lod_index].index_count,
            shader_program: shader_id,
            position: chunk_position_in_world(self.position, chunk_world_size),
            rotation: WorldPosition { x: 0, y: 0, z: 0 },
            scale: WorldPosition { x: 1, y: 1, z: 1 },
            reference_point: WorldPosition { x: 0, y: 0, z: 0 },
        }
    }
}

} // verus!
