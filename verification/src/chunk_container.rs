//! The chunk store that follows a viewpoint: it decides which chunks a frame shows,
//! which ones the background workers are asked for, and what is done with their results.

use crate::chunk::{build_failure, is_chunk_of, Chunk};
use crate::grid::{
    chunk_coordinate_at, chunk_coordinates, chunk_position_in_world, chunks_in_view_distance,
    coordinate_key, key_of, lemma_coordinate_key_injective, lemma_window_no_duplicates,
    squared_distance, visible_radius, visible_window, window_fits, window_in_grid,
    GridCoordinate, Viewpoint,
};
use crate::lod::{
    default_detail_levels, lemma_standard_detail_levels_ascend, select_level,
    standard_detail_levels, LevelOfDetailInfo,
};
use crate::material::Material;
use crate::mesh::MeshError;
use crate::scenenode::SceneNode;
use crate::streaming::{
    is_other_than, lemma_absorbed_wf, lemma_asked_for_wf, lemma_rebuilt_wf,
    lemma_shown_along_wf, lemma_shown_nothing, lemma_shown_one_more, request_of, ChunkRequest,
    GenerationOutcome, StoreState,
};
use std::collections::HashMap;
use vstd::prelude::*;

verus! {

/// Why the settings could not be replaced.
#[derive(Clone, Copy, Debug, PartialEq, Eq, Structural)]
pub enum UpdateError {
    /// The new settings do not have a later version than the ones in use.
    StaleEpoch,
    /// The default chunk could not be built from the new settings.
    Generation(MeshError),
}

/// The chunks around a viewpoint. New chunks are built elsewhere: the container hands
/// out requests for them and takes the results in.
pub struct ChunkContainer {
    chunk_size: i32,
    chunks_visible_in_view_dst: u32,
    chunks: Vec<Chunk>,
    chunk_map: HashMap<u64, usize>,
    current_visible_chunks: Vec<usize>,
    chunks_in_queue: Vec<GridCoordinate>,
    epoch: u64,
    detail_levels: Vec<LevelOfDetailInfo>,
}

impl View for ChunkContainer {
    type V = StoreState;

    closed spec fn view(&self) -> StoreState {
        StoreState {
            chunk_size: self.chunk_size,
            radius: self.chunks_visible_in_view_dst,
            epoch: self.epoch,
            detail_levels: self.detail_levels@,
            chunks: self.chunks@,
            slots: Map::new(
                |c: GridCoordinate| self.chunk_map@.contains_key(coordinate_key(c)),
                |c: GridCoordinate| self.chunk_map@[coordinate_key(c)] as int,
            ),
            in_flight: self.chunks_in_queue@,
            visible: Seq::new(
                self.current_visible_chunks@.len(),
                |i: int| self.current_visible_chunks@[i] as int,
            ),
        }
    }
}

impl ChunkContainer {
    /// The invariant of the container.
    pub open spec fn wf(&self) -> bool {
        self@.wf()
    }

    /// The chunk on which the viewpoint stands.
    pub open spec fn center(&self, camera_position: Viewpoint) -> GridCoordinate {
        chunk_coordinate_at(camera_position, self@.chunk_size as int)
    }

    /// Makes a container for chunks of the given size, showing chunks up to the given
    /// distance. Its default chunk stands at the origin and is built from the given
    /// material table and height map; nothing is stored, visible or in flight yet.
    pub fn new(
        chunk_size: i32,
        view_distance: u32,
        materials: &Vec<Material>,
        height_map: &Vec<Vec<u32>>,
    ) -> (result: Result<Self, MeshError>)
        requires
            chunk_size > 0,
        ensures
            match result {
                Ok(container) => {
                    &&& build_failure(materials@, height_map@, standard_detail_levels()) is None
                    &&& container.wf()
                    &&& container@.chunk_size == chunk_size
                    &&& container@.radius == visible_radius(view_distance as int, chunk_size as int)
                    &&& container@.epoch == 0
                    &&& container@.detail_levels == standard_detail_levels()
                    &&& container@.chunks.len() == 1
                    &&& is_chunk_of(
                        container@.chunks[0],
                        GridCoordinate { x: 0, z: 0 },
                        0,
                        materials@,
                        height_map@,
                        standard_detail_levels(),
                    )
                    &&& container@.slots == Map::<GridCoordinate, int>::empty()
                    &&& container@.in_flight == Seq::<GridCoordinate>::empty()
                    &&& container@.visible == Seq::<int>::empty()
                },
                Err(e) => build_failure(materials@, height_map@, standard_detail_levels()) == Some(e),
            },
    {
        let detail_levels = default_detail_levels();
        let origin = GridCoordinate { x: 0, z: 0 };
        let default_chunk = match Chunk::new(origin, materials, height_map, &detail_levels, 0) {
            Ok(chunk) => chunk,
            Err(e) => {
                return Err(e);
            },
        };
        let mut chunks: Vec<Chunk> = Vec::new();
        chunks.push(default_chunk);
        let container = ChunkContainer {
            chunk_size,
            chunks_visible_in_view_dst: chunks_in_view_distance(view_distance, chunk_size),
            chunks,
            chunk_map: HashMap::new(),
            current_visible_chunks: Vec::new(),
            chunks_in_queue: Vec::new(),
            epoch: 0,
            detail_levels,
        };
        proof {
            lemma_standard_detail_levels_ascend();
            assert(container@.slots =~= Map::<GridCoordinate, int>::empty());
            assert(container@.visible =~= Seq::<int>::empty());
        }
        Ok(container)
    }

    /// The side length of a chunk in world units.
    pub fn chunk_size(&self) -> (size: i32)
        ensures
            size == self@.chunk_size,
    {
        self.chunk_size
    }

    /// How many chunks are shown in each direction from the viewpoint's chunk.
    pub fn chunks_visible_in_view_dst(&self) -> (radius: u32)
        ensures
            radius == self@.radius,
    {
        self.chunks_visible_in_view_dst
    }

    /// The version of the settings that the stored chunks were built from.
    pub fn epoch(&self) -> (epoch: u64)
        ensures
            epoch == self@.epoch,
    {
        self.epoch
    }

    /// The level-of-detail policy.
    pub fn detail_levels(&self) -> (table: &Vec<LevelOfDetailInfo>)
        ensures
            table@ == self@.detail_levels,
    {
        &self.detail_levels
    }

    /// The number of chunks that the container holds, the default chunk included.
    pub fn chunk_count(&self) -> (count: usize)
        ensures
            count == self@.chunks.len(),
    {
        self.chunks.len()
    }

    /// The chunk in the given slot.
    pub fn chunk(&self, slot: usize) -> (chunk: Option<&Chunk>)
        ensures
            match chunk {
                Some(found) => slot < self@.chunks.len() && *found == self@.chunks[slot as int],
                None => slot >= self@.chunks.len(),
            },
    {
        if slot < self.chunks.len() {
            Some(&self.chunks[slot])
        } else {
            None
        }
    }

    /// The slot of the chunk that is shown for a coordinate, if it has an entry.
    pub fn slot_of(&self, c: GridCoordinate) -> (slot: Option<usize>)
        ensures
            match slot {
                Some(found) => self@.slots.contains_key(c) && self@.slots[c] == found,
                None => !self@.slots.contains_key(c),
            },
    {
        match self.chunk_map.get(&key_of(c)) {
            Some(found) => Some(*found),
            None => None,
        }
    }

    /// The slots of the chunks that the last frame shows, in order.
    pub fn current_visible_chunks(&self) -> (slots: &Vec<usize>)
        ensures
            slots@.len() == self@.visible.len(),
            forall|i: int| 0 <= i < slots@.len() ==> slots@[i] == self@.visible[i],
    {
        &self.current_visible_chunks
    }

    /// The coordinates whose chunks are being built, in the order in which they were
    /// asked for.
    pub fn chunks_in_queue(&self) -> (queue: &Vec<GridCoordinate>)
        ensures
            queue@ == self@.in_flight,
    {
        &self.chunks_in_queue
    }

    /// Tells whether a frame around the viewpoint stays on the grid.
    pub fn can_show(&self, camera_position: Viewpoint) -> (fits: bool)
        requires
            self.wf(),
        ensures
            fits == window_in_grid(self.center(camera_position), self@.radius as int),
    {
        window_fits(
            chunk_coordinates(camera_position, self.chunk_size),
            self.chunks_visible_in_view_dst,
        )
    }

    /// Decides what the frame at the given viewpoint shows. Every coordinate of the
    /// window around the viewpoint's chunk is shown: by its own chunk where it has one,
    /// else by the default chunk. For each coordinate that had no entry the result holds
    /// a request to build it, and the coordinate is in flight afterwards.
    pub fn generate_visible_chunks(&mut self, camera_position: Viewpoint) -> (requests: Vec<
        ChunkRequest,
    >)
        requires
            old(self).wf(),
            window_in_grid(old(self).center(camera_position), old(self)@.radius as int),
        ensures
            final(self).wf(),
            final(self)@ == old(self)@.shown(old(self).center(camera_position)),
            requests@ == old(self)@.requested(old(self).center(camera_position)),
    {
        let center = chunk_coordinates(camera_position, self.chunk_size);
        let coordinates = visible_window(center, self.chunks_visible_in_view_dst);
        let ghost before = self@;
        let ghost path = coordinates@;
        self.current_visible_chunks = Vec::new();
        let mut requests: Vec<ChunkRequest> = Vec::new();
        proof {
            lemma_window_no_duplicates(center, before.radius as int);
            lemma_shown_nothing(before);
            assert(self@.visible =~= Seq::<int>::empty());
            assert(self@.slots =~= before.slots);
            assert(self@ =~= before.shown_along(path.take(0)));
            assert(path.take(0) =~= Seq::empty());
        }
        let mut k: usize = 0;
        while k < coordinates.len()
            invariant
                path == coordinates@,
                path.no_duplicates(),
                0 <= k <= path.len(),
                self@ == before.shown_along(path.take(k as int)),
                requests@ == before.requested_along(path.take(k as int)),
            decreases path.len() - k,
        {
            let c = coordinates[k];
            let key = key_of(c);
            let ghost seen = path.take(k as int);
            let ghost current = self@;
            proof {
                if seen.contains(c) {
                    let j = choose|j: int| 0 <= j < seen.len() && seen[j] == c;
                    assert(path[j] == path[k as int]);
                }
                lemma_shown_one_more(before, seen, c);
                assert(path.take(k + 1) =~= seen.push(c));
            }
            let found: Option<usize> = match self.chunk_map.get(&key) {
                Some(slot) => Some(*slot),
                None => None,
            };
            match found {
                Some(slot) => {
                    self.current_visible_chunks.push(slot);
                    proof {
                        assert(self@.slots =~= current.slots);
                        assert(self@.visible =~= current.visible.push(before.slots[c]));
                    }
                },
                None => {
                    self.chunk_map.insert(key, 0);
                    self.chunks_in_queue.push(c);
                    self.current_visible_chunks.push(0);
                    requests.push(ChunkRequest { position: c, epoch: self.epoch });
                    proof {
                        assert forall|x: GridCoordinate|
                            self@.slots.contains_key(x) <==> current.slots.insert(
                                c,
                                0int,
                            ).contains_key(x) by {
                            if coordinate_key(x) == coordinate_key(c) {
                                lemma_coordinate_key_injective(x, c);
                            }
                        }
                        assert forall|x: GridCoordinate| self@.slots.contains_key(x) implies self@.slots[x]
                            == current.slots.insert(c, 0int)[x] by {
                            if coordinate_key(x) == coordinate_key(c) {
                                lemma_coordinate_key_injective(x, c);
                            }
                        }
                        assert(self@.slots =~= current.slots.insert(c, 0int));
                        assert(self@.visible =~= current.visible.push(0int));
                    }
                },
            }
            k = k + 1;
        }
        proof {
            assert(path.take(path.len() as int) =~= path);
            lemma_shown_along_wf(before, path);
        }
        requests
    }

    /// Tells whether the container waits for the result of a request.
    pub fn is_awaited(&self, request: ChunkRequest) -> (awaited: bool)
        ensures
            awaited == self@.awaits(request),
    {
        request.epoch == self.epoch && queue_contains(&self.chunks_in_queue, request.position)
    }

    /// Takes in the result of one unit of work and tells whether the container waited
    /// for it. A result from an earlier version of the settings, or for a coordinate that
    /// is not in flight, is dropped. Any other ends the wait for its coordinate; a chunk
    /// that was built is stored at its coordinate, where it replaces the default chunk.
    pub fn absorb(&mut self, outcome: GenerationOutcome) -> (awaited: bool)
        requires
            old(self).wf(),
        ensures
            final(self).wf(),
            final(self)@ == old(self)@.absorbed(outcome),
            awaited == old(self)@.awaits(request_of(outcome)),
    {
        let ghost before = self@;
        proof {
            lemma_absorbed_wf(before, outcome);
        }
        match outcome {
            GenerationOutcome::Built(chunk) => {
                if chunk.epoch != self.epoch || !queue_contains(
                    &self.chunks_in_queue,
                    chunk.position,
                ) {
                    return false;
                }
                remove_from_queue(&mut self.chunks_in_queue, chunk.position);
                if chunk.vao_ids.len() == chunk.meshes.len() && chunk.meshes.len()
                    == self.detail_levels.len() {
                    let slot = self.chunks.len();
                    let position = chunk.position;
                    let ghost settled = self@;
                    self.chunks.push(chunk);
                    self.chunk_map.insert(key_of(position), slot);
                    proof {
                        assert forall|x: GridCoordinate|
                            self@.slots.contains_key(x) <==> settled.slots.insert(
                                position,
                                slot as int,
                            ).contains_key(x) by {
                            if coordinate_key(x) == coordinate_key(position) {
                                lemma_coordinate_key_injective(x, position);
                            }
                        }
                        assert forall|x: GridCoordinate| self@.slots.contains_key(x) implies self@.slots[x]
                            == settled.slots.insert(position, slot as int)[x] by {
                            if coordinate_key(x) == coordinate_key(position) {
                                lemma_coordinate_key_injective(x, position);
                            }
                        }
                        assert(self@.slots =~= settled.slots.insert(position, slot as int));
                        assert(self@.visible =~= settled.visible);
                        assert(self@ =~= before.absorbed(outcome));
                    }
                } else {
                    proof {
                        assert(self@.slots =~= before.slots);
                        assert(self@.visible =~= before.visible);
                        assert(self@ =~= before.absorbed(outcome));
                    }
                }
                true
            },
            GenerationOutcome::Failed(request) => {
                if request.epoch != self.epoch || !queue_contains(
                    &self.chunks_in_queue,
                    request.position,
                ) {
                    return false;
                }
                remove_from_queue(&mut self.chunks_in_queue, request.position);
                proof {
                    assert(self@.slots =~= before.slots);
                    assert(self@.visible =~= before.visible);
                    assert(self@ =~= before.absorbed(outcome));
                }
                true
            },
        }
    }

    /// Takes in the results of the units of work that have ended, in order.
    pub fn update_chunk_map(&mut self, finished: Vec<GenerationOutcome>)
        requires
            old(self).wf(),
        ensures
            final(self).wf(),
            final(self)@ == old(self)@.absorbed_all(finished@),
    {
        let ghost before = self@;
        let ghost outcomes = finished@;
        let mut finished = finished;
        let mut k: usize = 0;
        let count = finished.len();
        proof {
            assert(outcomes.take(0) =~= Seq::empty());
        }
        while finished.len() > 0
            invariant
                self.wf(),
                k + finished@.len() == outcomes.len(),
                count == outcomes.len(),
                finished@ == outcomes.skip(k as int),
                self@ == before.absorbed_all(outcomes.take(k as int)),
            decreases finished@.len(),
        {
            let outcome = finished.remove(0);
            proof {
                assert(outcome == outcomes[k as int]);
                assert(outcomes.take(k + 1).drop_last() =~= outcomes.take(k as int));
                assert(outcomes.take(k + 1).last() == outcome);
                assert(finished@ =~= outcomes.skip(k + 1));
            }
            self.absorb(outcome);
            k = k + 1;
        }
        proof {
            assert(outcomes.take(k as int) =~= outcomes);
        }
    }

    /// Gives up everything that is in flight and returns the requests that were given
    /// up: their results will be dropped when they come. The entries of their
    /// coordinates stay with the default chunk until they are asked for again.
    pub fn wait_for_all_threads_to_finish(&mut self) -> (abandoned: Vec<ChunkRequest>)
        requires
            old(self).wf(),
        ensures
            final(self).wf(),
            final(self)@ == old(self)@.drained(),
            abandoned@ == old(self)@.abandoned(),
    {
        let ghost before = self@;
        let mut abandoned: Vec<ChunkRequest> = Vec::new();
        let mut i: usize = 0;
        while i < self.chunks_in_queue.len()
            invariant
                self@ == before,
                0 <= i <= before.in_flight.len(),
                abandoned@.len() == i,
                forall|j: int|
                    0 <= j < i ==> abandoned@[j] == (ChunkRequest {
                        position: before.in_flight[j],
                        epoch: before.epoch,
                    }),
            decreases before.in_flight.len() - i,
        {
            abandoned.push(ChunkRequest { position: self.chunks_in_queue[i], epoch: self.epoch });
            i = i + 1;
        }
        self.chunks_in_queue = Vec::new();
        proof {
            assert(abandoned@ =~= before.abandoned());
            assert(self@.slots =~= before.slots);
            assert(self@.visible =~= before.visible);
            assert(self@ =~= before.drained());
        }
        abandoned
    }

    /// Asks for the chunk of a coordinate by hand. Nothing happens where the coordinate
    /// is in flight or its chunk is stored; else it is in flight afterwards, shown by the
    /// default chunk, and the result is the request to build it.
    pub fn request_chunk(&mut self, c: GridCoordinate) -> (request: Option<ChunkRequest>)
        requires
            old(self).wf(),
        ensures
            final(self).wf(),
            final(self)@ == old(self)@.asked_for(c),
            request == if old(self)@.in_flight.contains(c) || old(self)@.resident(c) {
                None
            } else {
                Some(ChunkRequest { position: c, epoch: old(self)@.epoch })
            },
    {
        let ghost before = self@;
        proof {
            lemma_asked_for_wf(before, c);
        }
        if queue_contains(&self.chunks_in_queue, c) {
            return None;
        }
        let key = key_of(c);
        let resident = match self.chunk_map.get(&key) {
            Some(slot) => *slot != 0,
            None => false,
        };
        if resident {
            return None;
        }
        self.chunk_map.insert(key, 0);
        self.chunks_in_queue.push(c);
        proof {
            assert forall|x: GridCoordinate|
                self@.slots.contains_key(x) <==> before.slots.insert(c, 0int).contains_key(
                    x,
                ) by {
                if coordinate_key(x) == coordinate_key(c) {
                    lemma_coordinate_key_injective(x, c);
                }
            }
            assert forall|x: GridCoordinate| self@.slots.contains_key(x) implies self@.slots[x]
                == before.slots.insert(c, 0int)[x] by {
                if coordinate_key(x) == coordinate_key(c) {
                    lemma_coordinate_key_injective(x, c);
                }
            }
            assert(self@.slots =~= before.slots.insert(c, 0int));
            assert(self@.visible =~= before.visible);
            assert(self@ =~= before.asked_for(c));
        }
        Some(ChunkRequest { position: c, epoch: self.epoch })
    }

    /// Throws away every chunk and everything in flight, and starts again from a new
    /// default chunk: built from the given inputs for the viewpoint's coordinate,
    /// stored there and visible. The result holds the requests that were given up.
    /// Where the default chunk cannot be built, nothing changes.
    pub fn clear_chunk_container_for_update(
        &mut self,
        camera_position: Viewpoint,
        materials: &Vec<Material>,
        height_map: &Vec<Vec<u32>>,
    ) -> (result: Result<Vec<ChunkRequest>, MeshError>)
        requires
            old(self).wf(),
        ensures
            final(self).wf(),
            match result {
                Ok(abandoned) => {
                    &&& build_failure(materials@, height_map@, old(self)@.detail_levels) is None
                    &&& abandoned@ == old(self)@.abandoned()
                    &&& final(self)@ == old(self)@.rebuilt(
                        old(self).center(camera_position),
                        final(self)@.chunks[0],
                        old(self)@.epoch,
                    )
                    &&& is_chunk_of(
                        final(self)@.chunks[0],
                        old(self).center(camera_position),
                        old(self)@.epoch,
                        materials@,
                        height_map@,
                        old(self)@.detail_levels,
                    )
                },
                Err(e) => {
                    &&& build_failure(materials@, height_map@, old(self)@.detail_levels) == Some(e)
                    &&& final(self)@ == old(self)@
                },
            },
    {
        let center = chunk_coordinates(camera_position, self.chunk_size);
        match Chunk::new(center, materials, height_map, &self.detail_levels, self.epoch) {
            Ok(chunk) => Ok(self.start_again(center, chunk, self.epoch)),
            Err(e) => Err(e),
        }
    }

    /// Replaces the settings by those of version `epoch`, which must be later than the
    /// version in use. Every chunk and everything in flight is thrown away, and a new
    /// default chunk, built from the given inputs for the viewpoint's coordinate, is
    /// stored there and visible. The result holds the requests that were given up. On an
    /// error nothing changes.
    pub fn update_settings(
        &mut self,
        epoch: u64,
        camera_position: Viewpoint,
        materials: &Vec<Material>,
        height_map: &Vec<Vec<u32>>,
    ) -> (result: Result<Vec<ChunkRequest>, UpdateError>)
        requires
            old(self).wf(),
        ensures
            final(self).wf(),
            match result {
                Ok(abandoned) => {
                    &&& old(self)@.epoch < epoch
                    &&& build_failure(materials@, height_map@, old(self)@.detail_levels) is None
                    &&& abandoned@ == old(self)@.abandoned()
                    &&& final(self)@ == old(self)@.rebuilt(
                        old(self).center(camera_position),
                        final(self)@.chunks[0],
                        epoch,
                    )
                    &&& is_chunk_of(
                        final(self)@.chunks[0],
                        old(self).center(camera_position),
                        epoch,
                        materials@,
                        height_map@,
                        old(self)@.detail_levels,
                    )
                },
                Err(UpdateError::StaleEpoch) => {
                    &&& epoch <= old(self)@.epoch
                    &&& final(self)@ == old(self)@
                },
                Err(UpdateError::Generation(e)) => {
                    &&& old(self)@.epoch < epoch
                    &&& build_failure(materials@, height_map@, old(self)@.detail_levels) == Some(e)
                    &&& final(self)@ == old(self)@
                },
            },
    {
        if epoch <= self.epoch {
            return Err(UpdateError::StaleEpoch);
        }
        let center = chunk_coordinates(camera_position, self.chunk_size);
        match Chunk::new(center, materials, height_map, &self.detail_levels, epoch) {
            Ok(chunk) => Ok(self.start_again(center, chunk, epoch)),
            Err(e) => Err(UpdateError::Generation(e)),
        }
    }

    fn start_again(&mut self, center: GridCoordinate, chunk: Chunk, epoch: u64) -> (abandoned: Vec<
        ChunkRequest,
    >)
        requires
            old(self).wf(),
            old(self)@.fits(chunk),
            chunk.epoch == epoch,
        ensures
            final(self).wf(),
            abandoned@ == old(self)@.abandoned(),
            final(self)@ == old(self)@.rebuilt(center, chunk, epoch),
            final(self)@.chunks[0] == chunk,
    {
        let ghost before = self@;
        let abandoned = self.wait_for_all_threads_to_finish();
        let mut chunks: Vec<Chunk> = Vec::new();
        chunks.push(chunk);
        let mut visible: Vec<usize> = Vec::new();
        visible.push(0);
        let mut chunk_map: HashMap<u64, usize> = HashMap::new();
        chunk_map.insert(key_of(center), 0);
        self.chunks = chunks;
        self.current_visible_chunks = visible;
        self.chunk_map = chunk_map;
        self.epoch = epoch;
        proof {
            lemma_rebuilt_wf(before, center, chunk, epoch);
            let target = before.rebuilt(center, chunk, epoch);
            assert forall|x: GridCoordinate| self@.slots.contains_key(x) <==> target.slots.contains_key(
                x,
            ) by {
                if coordinate_key(x) == coordinate_key(center) {
                    lemma_coordinate_key_injective(x, center);
                }
            }
            assert(self@.slots =~= target.slots);
            assert(self@.visible =~= target.visible);
            assert(self@.chunks =~= target.chunks);
            assert(self@ =~= target);
        }
        abandoned
    }

    /// Records the device handles of the chunk in a slot, one for each of its levels.
    /// Handles are taken only for a slot that holds a chunk, and only when there is
    /// exactly one for each level.
    pub fn rebind_vaos(&mut self, slot: usize, vao_ids: Vec<u32>) -> (bound: bool)
        requires
            old(self).wf(),
        ensures
            final(self).wf(),
            bound == (slot < old(self)@.chunks.len() && vao_ids@.len()
                == old(self)@.detail_levels.len()),
            bound ==> final(self)@ == (StoreState {
                chunks: old(self)@.chunks.update(
                    slot as int,
                    Chunk { vao_ids: vao_ids, ..old(self)@.chunks[slot as int] },
                ),
                ..old(self)@
            }),
            !bound ==> final(self)@ == old(self)@,
    {
        if slot >= self.chunks.len() || vao_ids.len() != self.detail_levels.len() {
            return false;
        }
        let ghost before = self@;
        let chunk = &mut self.chunks[slot];
        chunk.vao_ids = vao_ids;
        proof {
            let target = StoreState {
                chunks: before.chunks.update(
                    slot as int,
                    Chunk { vao_ids: vao_ids, ..before.chunks[slot as int] },
                ),
                ..before
            };
            assert(self@.slots =~= before.slots);
            assert(self@.visible =~= before.visible);
            assert(self@.chunks =~= target.chunks);
            assert(self@ =~= target);
            assert forall|i: int| 0 <= i < target.chunks.len() implies {
                &&& (#[trigger] target.chunks[i]).wf()
                &&& target.chunks[i].levels() == target.detail_levels.len()
                &&& target.chunks[i].epoch == target.epoch
            } by {
                if i != slot {
                    assert(target.chunks[i] == before.chunks[i]);
                }
            }
            assert forall|c: GridCoordinate| #[trigger] target.slots.contains_key(c) implies {
                &&& 0 <= target.slots[c] < target.chunks.len()
                &&& target.slots[c] != 0 ==> target.chunks[target.slots[c]].position == c
            } by {
                assert(before.slots.contains_key(c));
                assert(target.chunks[target.slots[c]].position
                    == before.chunks[before.slots[c]].position);
            }
        }
        true
    }

    /// The nodes of the frame: one for each visible chunk, in order, each at the level
    /// of detail that the policy selects for its distance from the viewpoint.
    pub fn generate_scene(&self, shader_id: u32, camera_position: Viewpoint) -> (scene: Vec<
        SceneNode,
    >)
        requires
            self.wf(),
        ensures
            scene@ == self@.scene(shader_id, camera_position),
    {
        let mut scene: Vec<SceneNode> = Vec::new();
        let mut i: usize = 0;
        while i < self.current_visible_chunks.len()
            invariant
                self.wf(),
                0 <= i <= self@.visible.len(),
                self@.visible.len() == self.current_visible_chunks@.len(),
                scene@.len() == i,
                forall|j: int|
                    0 <= j < i ==> scene@[j] == self@.node_for(
                        self@.visible[j],
                        shader_id,
                        camera_position,
                    ),
            decreases self@.visible.len() - i,
        {
            let slot = self.current_visible_chunks[i];
            assert(slot == self@.visible[i as int]);
            let chunk = &self.chunks[slot];
            let distance = squared_distance(
                camera_position,
                chunk_position_in_world(chunk.position, self.chunk_size),
            );
            let lod_index = select_level(&self.detail_levels, distance);
            scene.push(chunk.get_scene_node(shader_id, lod_index, self.chunk_size));
            i = i + 1;
        }
        assert(scene@ =~= self@.scene(shader_id, camera_position));
        scene
    }
}

/// Tells whether a coordinate is in the queue.
fn queue_contains(queue: &Vec<GridCoordinate>, position: GridCoordinate) -> (found: bool)
    ensures
        found == queue@.contains(position),
{
    let mut i: usize = 0;
    while i < queue.len()
        invariant
            0 <= i <= queue@.len(),
            forall|j: int| 0 <= j < i ==> queue@[j] != position,
        decreases queue@.len() - i,
    {
        if queue[i] == position {
            return true;
        }
        i = i + 1;
    }
    false
}

/// Takes a coordinate out of the queue, keeping the order of the others.
fn remove_from_queue(queue: &mut Vec<GridCoordinate>, position: GridCoordinate)
    ensures
        final(queue)@ == old(queue)@.filter(is_other_than(position)),
{
    let ghost before = queue@;
    let mut kept: Vec<GridCoordinate> = Vec::new();
    let mut i: usize = 0;
    proof {
        reveal(Seq::filter);
        assert(before.take(0) =~= Seq::empty());
        assert(before.take(0).filter(is_other_than(position)) =~= Seq::empty());
    }
    while i < queue.len()
        invariant
            queue@ == before,
            0 <= i <= before.len(),
            kept@ == before.take(i as int).filter(is_other_than(position)),
        decreases before.len() - i,
    {
        proof {
            assert(before.take(i + 1) =~= before.take(i as int).push(before[i as int]));
            before.take(i as int).lemma_filter_push(before[i as int], is_other_than(position));
        }
        if queue[i] != position {
            kept.push(queue[i]);
        }
        i = i + 1;
    }
    proof {
        assert(before.take(before.len() as int) =~= before);
    }
    *queue = kept;
}

} // verus!
