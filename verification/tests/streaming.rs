use terrain_generator::chunk::Chunk;
use terrain_generator::chunk_container::{ChunkContainer, UpdateError};
use terrain_generator::grid::{GridCoordinate, Viewpoint, WorldPosition};
use terrain_generator::lod::default_detail_levels;
use terrain_generator::material::Material;
use terrain_generator::mesh::MeshError;
use terrain_generator::streaming::{ChunkRequest, GenerationOutcome};

fn at(x: i32, z: i32) -> GridCoordinate {
    GridCoordinate { x, z }
}

fn origin() -> Viewpoint {
    Viewpoint { x: 0, y: 0, z: 0 }
}

fn materials() -> Vec<Material> {
    vec![Material::new(400), Material::new(1000)]
}

fn height_map() -> Vec<Vec<u32>> {
    vec![vec![500; 241]; 241]
}

fn container(view_distance: u32) -> ChunkContainer {
    ChunkContainer::new(240, view_distance, &materials(), &height_map()).unwrap()
}

fn built(x: i32, z: i32, epoch: u64, first_handle: u32) -> GenerationOutcome {
    let mut chunk =
        Chunk::new(at(x, z), &materials(), &height_map(), &default_detail_levels(), epoch).unwrap();
    assert!(chunk.rebind_vaos(vec![
        first_handle,
        first_handle + 1,
        first_handle + 2,
        first_handle + 3
    ]));
    GenerationOutcome::Built(chunk)
}

fn request(x: i32, z: i32, epoch: u64) -> ChunkRequest {
    ChunkRequest { position: at(x, z), epoch }
}

#[test]
fn new_container_holds_only_the_default_chunk() {
    let c = container(200);
    assert_eq!(c.chunk_size(), 240);
    assert_eq!(c.chunks_visible_in_view_dst(), 1);
    assert_eq!(c.epoch(), 0);
    assert_eq!(c.detail_levels(), &default_detail_levels());
    assert_eq!(c.chunk_count(), 1);
    assert_eq!(c.chunk(0).unwrap().position, at(0, 0));
    assert_eq!(c.chunk(0).unwrap().epoch, 0);
    assert_eq!(c.chunk(0).unwrap().vao_ids, vec![0, 0, 0, 0]);
    assert!(c.chunk(1).is_none());
    assert_eq!(c.slot_of(at(0, 0)), None);
    assert!(c.current_visible_chunks().is_empty());
    assert!(c.chunks_in_queue().is_empty());
}

#[test]
fn new_container_reports_what_is_wrong_with_its_inputs() {
    assert_eq!(
        ChunkContainer::new(240, 200, &Vec::new(), &height_map()).err(),
        Some(MeshError::NoMaterials)
    );
    assert_eq!(
        ChunkContainer::new(240, 200, &materials(), &vec![vec![500; 241]; 10]).err(),
        Some(MeshError::HeightMapTooSmall)
    );
    assert_eq!(
        ChunkContainer::new(240, 200, &materials(), &vec![vec![1001; 241]; 241]).err(),
        Some(MeshError::HeightAboveMaterials)
    );
}

#[test]
fn frame_at_origin_shows_three_by_three() {
    let mut c = container(200);
    let requests = c.generate_visible_chunks(origin());
    let expected = vec![
        at(-1, -1),
        at(0, -1),
        at(1, -1),
        at(-1, 0),
        at(0, 0),
        at(1, 0),
        at(-1, 1),
        at(0, 1),
        at(1, 1),
    ];
    assert_eq!(requests.len(), 9);
    for (r, c) in requests.iter().zip(expected.iter()) {
        assert_eq!(r, &ChunkRequest { position: *c, epoch: 0 });
    }
    assert_eq!(c.chunks_in_queue(), &expected);
    assert_eq!(c.current_visible_chunks(), &vec![0; 9]);
    for coordinate in expected.iter() {
        assert_eq!(c.slot_of(*coordinate), Some(0));
    }
    assert_eq!(c.slot_of(at(2, 0)), None);
    assert_eq!(c.chunk_count(), 1);
}

#[test]
fn zero_view_distance_shows_one_chunk() {
    let mut c = container(0);
    assert_eq!(c.chunks_visible_in_view_dst(), 0);
    let requests = c.generate_visible_chunks(Viewpoint { x: 500, y: 30, z: -250 });
    assert_eq!(requests, vec![request(2, -1, 0)]);
    assert_eq!(c.current_visible_chunks(), &vec![0]);
    assert_eq!(c.chunks_in_queue(), &vec![at(2, -1)]);
    assert_eq!(c.generate_scene(1, origin()).len(), 1);
}

#[test]
fn missing_chunk_is_drawn_as_the_default_chunk() {
    let mut c = container(200);
    assert!(c.rebind_vaos(0, vec![7, 8, 9, 10]));
    c.generate_visible_chunks(origin());
    let scene = c.generate_scene(42, origin());
    assert_eq!(scene.len(), 9);
    let placeholder = c.chunk(0).unwrap().get_scene_node(42, 0, 240);
    for node in scene.iter() {
        assert_eq!(node, &placeholder);
        assert_eq!(node.vao_id, 7);
        assert_eq!(node.index_count, 345600);
        assert_eq!(node.shader_program, 42);
        assert_eq!(node.position, WorldPosition { x: 0, y: 0, z: 0 });
    }
}

#[test]
fn second_frame_changes_nothing() {
    let mut c = container(200);
    let view = Viewpoint { x: 300, y: 10, z: -700 };
    let first = c.generate_visible_chunks(view);
    assert_eq!(first.len(), 9);
    assert!(c.absorb(built(1, -3, 0, 20)));
    let between = c.generate_visible_chunks(view);
    assert!(between.is_empty());
    let visible = c.current_visible_chunks().clone();
    let queue = c.chunks_in_queue().clone();
    let scene = c.generate_scene(3, view);
    let again = c.generate_visible_chunks(view);
    assert!(again.is_empty());
    assert_eq!(c.current_visible_chunks(), &visible);
    assert_eq!(c.chunks_in_queue(), &queue);
    assert_eq!(c.generate_scene(3, view), scene);
    assert_eq!(visible, vec![0, 0, 0, 0, 1, 0, 0, 0, 0]);
    assert_eq!(c.chunk_count(), 2);
}

#[test]
fn no_coordinate_is_in_flight_twice() {
    let mut c = container(200);
    c.generate_visible_chunks(origin());
    let moved = c.generate_visible_chunks(Viewpoint { x: 240, y: 0, z: 0 });
    assert_eq!(moved, vec![request(2, -1, 0), request(2, 0, 0), request(2, 1, 0)]);
    assert_eq!(c.request_chunk(at(2, 0)), None);
    assert_eq!(c.request_chunk(at(0, 0)), None);
    let back = c.generate_visible_chunks(origin());
    assert!(back.is_empty());
    let queue = c.chunks_in_queue().clone();
    assert_eq!(queue.len(), 12);
    for (i, a) in queue.iter().enumerate() {
        for b in queue.iter().skip(i + 1) {
            assert_ne!(a, b);
        }
    }
}

#[test]
fn absorbed_chunk_stands_at_its_coordinate() {
    let mut c = container(200);
    c.generate_visible_chunks(origin());
    assert!(c.is_awaited(request(1, -1, 0)));
    assert!(c.absorb(built(1, -1, 0, 30)));
    assert!(!c.is_awaited(request(1, -1, 0)));
    assert_eq!(c.slot_of(at(1, -1)), Some(1));
    assert_eq!(c.chunk(1).unwrap().position, at(1, -1));
    assert_eq!(c.chunks_in_queue().len(), 8);
    assert!(!c.chunks_in_queue().contains(&at(1, -1)));
    c.generate_visible_chunks(origin());
    assert_eq!(c.current_visible_chunks(), &vec![0, 0, 1, 0, 0, 0, 0, 0, 0]);
    let scene = c.generate_scene(5, origin());
    assert_eq!(scene[2].position, WorldPosition { x: 240, y: 0, z: -240 });
    assert_eq!(scene[2].vao_id, 31);
    assert_eq!(scene[2].index_count, 86400);
    assert_eq!(scene[1].position, WorldPosition { x: 0, y: 0, z: 0 });
    assert_eq!(scene[1].vao_id, 0);
}

#[test]
fn results_nobody_waits_for_are_dropped() {
    let mut c = container(200);
    c.generate_visible_chunks(origin());
    assert!(!c.absorb(built(5, 5, 0, 30)));
    assert!(!c.absorb(built(1, 1, 3, 30)));
    assert!(!c.absorb(GenerationOutcome::Failed(request(5, 5, 0))));
    assert!(!c.absorb(GenerationOutcome::Failed(request(1, 1, 3))));
    assert_eq!(c.chunk_count(), 1);
    assert_eq!(c.chunks_in_queue().len(), 9);
    assert!(c.absorb(built(1, 1, 0, 30)));
    assert!(!c.absorb(built(1, 1, 0, 40)));
    assert_eq!(c.chunk_count(), 2);
    assert_eq!(c.chunk(1).unwrap().vao_ids, vec![30, 31, 32, 33]);
}

#[test]
fn misshapen_chunk_ends_the_wait_but_is_not_stored() {
    let mut c = container(200);
    c.generate_visible_chunks(origin());
    let short = Chunk::new(at(1, 1), &materials(), &height_map(), &Vec::new(), 0).unwrap();
    assert!(c.absorb(GenerationOutcome::Built(short)));
    assert_eq!(c.chunk_count(), 1);
    assert_eq!(c.slot_of(at(1, 1)), Some(0));
    assert!(!c.chunks_in_queue().contains(&at(1, 1)));
    let mut torn =
        Chunk::new(at(0, 1), &materials(), &height_map(), &default_detail_levels(), 0).unwrap();
    torn.vao_ids.pop();
    assert!(c.absorb(GenerationOutcome::Built(torn)));
    assert_eq!(c.chunk_count(), 1);
    assert_eq!(c.chunks_in_queue().len(), 7);
}

#[test]
fn failed_chunk_stays_a_placeholder_until_asked_for_again() {
    let mut c = container(200);
    c.generate_visible_chunks(origin());
    assert!(c.absorb(GenerationOutcome::Failed(request(-1, 0, 0))));
    assert_eq!(c.slot_of(at(-1, 0)), Some(0));
    assert!(!c.chunks_in_queue().contains(&at(-1, 0)));
    assert!(c.generate_visible_chunks(origin()).is_empty());
    assert_eq!(c.current_visible_chunks(), &vec![0; 9]);
    assert_eq!(c.request_chunk(at(-1, 0)), Some(request(-1, 0, 0)));
    assert_eq!(c.request_chunk(at(-1, 0)), None);
    assert_eq!(c.chunks_in_queue().last(), Some(&at(-1, 0)));
    assert!(c.absorb(built(-1, 0, 0, 50)));
    assert_eq!(c.slot_of(at(-1, 0)), Some(1));
    assert_eq!(c.request_chunk(at(-1, 0)), None);
}

#[test]
fn asking_by_hand_for_a_new_coordinate() {
    let mut c = container(200);
    assert_eq!(c.request_chunk(at(9, 9)), Some(request(9, 9, 0)));
    assert_eq!(c.slot_of(at(9, 9)), Some(0));
    assert_eq!(c.chunks_in_queue(), &vec![at(9, 9)]);
    assert!(c.current_visible_chunks().is_empty());
    assert_eq!(c.request_chunk(at(9, 9)), None);
    assert_eq!(c.chunks_in_queue().len(), 1);
}

#[test]
fn finished_work_is_taken_in_order() {
    let mut c = container(200);
    c.generate_visible_chunks(origin());
    c.update_chunk_map(vec![
        built(1, 1, 0, 10),
        GenerationOutcome::Failed(request(0, 0, 0)),
        built(1, 1, 0, 20),
        built(7, 7, 0, 30),
        built(-1, -1, 0, 40),
        built(0, 0, 0, 50),
        built(0, 1, 9, 60),
    ]);
    assert_eq!(c.chunk_count(), 3);
    assert_eq!(c.slot_of(at(1, 1)), Some(1));
    assert_eq!(c.slot_of(at(-1, -1)), Some(2));
    assert_eq!(c.slot_of(at(0, 0)), Some(0));
    assert_eq!(c.chunk(1).unwrap().vao_ids[0], 10);
    assert_eq!(c.chunk(2).unwrap().vao_ids[0], 40);
    assert_eq!(
        c.chunks_in_queue(),
        &vec![at(0, -1), at(1, -1), at(-1, 0), at(1, 0), at(-1, 1), at(0, 1)]
    );
    c.update_chunk_map(Vec::new());
    assert_eq!(c.chunk_count(), 3);
}

#[test]
fn draining_gives_up_what_is_in_flight() {
    let mut c = container(0);
    c.generate_visible_chunks(origin());
    c.generate_visible_chunks(Viewpoint { x: 240, y: 0, z: 0 });
    let abandoned = c.wait_for_all_threads_to_finish();
    assert_eq!(abandoned, vec![request(0, 0, 0), request(1, 0, 0)]);
    assert!(c.chunks_in_queue().is_empty());
    assert_eq!(c.slot_of(at(0, 0)), Some(0));
    assert_eq!(c.current_visible_chunks(), &vec![0]);
    assert!(!c.absorb(built(0, 0, 0, 10)));
    assert_eq!(c.chunk_count(), 1);
    assert!(c.wait_for_all_threads_to_finish().is_empty());
}

#[test]
fn new_settings_leave_no_chunk_of_the_old_ones() {
    let mut c = container(200);
    let view = Viewpoint { x: 250, y: 0, z: -10 };
    c.generate_visible_chunks(view);
    assert!(c.absorb(built(1, 0, 0, 10)));
    assert!(c.absorb(built(2, 1, 0, 20)));
    assert_eq!(c.chunk_count(), 3);
    let new_materials = vec![Material::new(600)];
    let abandoned = c.update_settings(1, view, &new_materials, &height_map()).unwrap();
    assert_eq!(abandoned.len(), 7);
    assert!(abandoned.iter().all(|r| r.epoch == 0));
    assert_eq!(c.epoch(), 1);
    assert_eq!(c.chunk_count(), 1);
    assert_eq!(c.chunk(0).unwrap().epoch, 1);
    assert_eq!(c.chunk(0).unwrap().position, at(1, 0));
    assert_eq!(c.chunk(0).unwrap().vao_ids, vec![0, 0, 0, 0]);
    assert_eq!(c.slot_of(at(1, 0)), Some(0));
    assert_eq!(c.slot_of(at(2, 1)), None);
    assert_eq!(c.slot_of(at(0, 0)), None);
    assert_eq!(c.current_visible_chunks(), &vec![0]);
    assert!(c.chunks_in_queue().is_empty());
    let requests = c.generate_visible_chunks(view);
    assert_eq!(requests.len(), 8);
    assert!(requests.iter().all(|r| r.epoch == 1));
    assert!(!c.absorb(built(2, 1, 0, 20)));
    assert_eq!(c.chunk_count(), 1);
    assert!(c.absorb(built(2, 1, 1, 20)));
    for slot in 0..c.chunk_count() {
        assert_eq!(c.chunk(slot).unwrap().epoch, 1);
    }
}

#[test]
fn settings_that_give_no_chunk_change_nothing() {
    let mut c = container(200);
    c.generate_visible_chunks(origin());
    assert!(c.absorb(built(1, 0, 0, 10)));
    assert_eq!(
        c.update_settings(1, origin(), &Vec::new(), &height_map()).err(),
        Some(UpdateError::Generation(MeshError::NoMaterials))
    );
    assert_eq!(
        c.update_settings(1, origin(), &materials(), &Vec::new()).err(),
        Some(UpdateError::Generation(MeshError::HeightMapTooSmall))
    );
    assert_eq!(
        c.update_settings(1, origin(), &vec![Material::new(1)], &height_map()).err(),
        Some(UpdateError::Generation(MeshError::HeightAboveMaterials))
    );
    assert_eq!(
        c.update_settings(0, origin(), &materials(), &height_map()).err(),
        Some(UpdateError::StaleEpoch)
    );
    assert_eq!(
        c.update_settings(0, origin(), &Vec::new(), &Vec::new()).err(),
        Some(UpdateError::StaleEpoch)
    );
    assert_eq!(
        c.clear_chunk_container_for_update(origin(), &Vec::new(), &height_map()).err(),
        Some(MeshError::NoMaterials)
    );
    assert_eq!(c.epoch(), 0);
    assert_eq!(c.chunk_count(), 2);
    assert_eq!(c.chunks_in_queue().len(), 8);
    assert_eq!(c.current_visible_chunks().len(), 9);
    assert_eq!(c.slot_of(at(1, 0)), Some(1));
}

#[test]
fn clearing_starts_again_at_the_viewpoint() {
    let mut c = container(200);
    c.generate_visible_chunks(origin());
    assert!(c.absorb(built(1, 0, 0, 10)));
    let view = Viewpoint { x: -500, y: 0, z: 1000 };
    let abandoned = c.clear_chunk_container_for_update(view, &materials(), &height_map()).unwrap();
    assert_eq!(abandoned.len(), 8);
    assert_eq!(c.epoch(), 0);
    assert_eq!(c.chunk_count(), 1);
    assert_eq!(c.chunk(0).unwrap().position, at(-2, 4));
    assert_eq!(c.slot_of(at(-2, 4)), Some(0));
    assert_eq!(c.slot_of(at(1, 0)), None);
    assert_eq!(c.current_visible_chunks(), &vec![0]);
    assert!(c.chunks_in_queue().is_empty());
    let scene = c.generate_scene(1, view);
    assert_eq!(scene.len(), 1);
    assert_eq!(scene[0].position, WorldPosition { x: -480, y: 0, z: 960 });
    let requests = c.generate_visible_chunks(view);
    assert_eq!(requests.len(), 8);
    assert!(!requests.contains(&request(-2, 4, 0)));
}

#[test]
fn handles_are_recorded_by_slot() {
    let mut c = container(200);
    assert!(!c.rebind_vaos(1, vec![1, 2, 3, 4]));
    assert!(!c.rebind_vaos(0, vec![1, 2, 3]));
    assert_eq!(c.chunk(0).unwrap().vao_ids, vec![0, 0, 0, 0]);
    assert!(c.rebind_vaos(0, vec![1, 2, 3, 4]));
    assert_eq!(c.chunk(0).unwrap().vao_ids, vec![1, 2, 3, 4]);
    assert_eq!(c.chunk(0).unwrap().position, at(0, 0));
    assert_eq!(c.chunk_count(), 1);
}

#[test]
fn far_chunks_are_drawn_coarser() {
    let mut c = container(720);
    assert_eq!(c.chunks_visible_in_view_dst(), 3);
    let requests = c.generate_visible_chunks(origin());
    assert_eq!(requests.len(), 49);
    c.update_chunk_map(vec![
        built(0, 0, 0, 10),
        built(1, 0, 0, 20),
        built(2, 0, 0, 30),
        built(3, 0, 0, 40),
        built(1, 1, 0, 50),
        built(-2, -2, 0, 60),
    ]);
    assert!(c.generate_visible_chunks(origin()).is_empty());
    let scene = c.generate_scene(9, origin());
    assert_eq!(scene.len(), 49);
    let node_at = |x: i32, z: i32| scene[((z + 3) * 7 + (x + 3)) as usize];
    assert_eq!(node_at(0, 0).vao_id, 10);
    assert_eq!(node_at(0, 0).index_count, 345600);
    assert_eq!(node_at(1, 0).vao_id, 20);
    assert_eq!(node_at(1, 0).position, WorldPosition { x: 240, y: 0, z: 0 });
    assert_eq!(node_at(1, 1).vao_id, 51);
    assert_eq!(node_at(1, 1).index_count, 86400);
    assert_eq!(node_at(2, 0).vao_id, 32);
    assert_eq!(node_at(2, 0).index_count, 21600);
    assert_eq!(node_at(3, 0).vao_id, 43);
    assert_eq!(node_at(3, 0).index_count, 5400);
    assert_eq!(node_at(-2, -2).vao_id, 63);
    assert_eq!(node_at(-2, -2).position, WorldPosition { x: -480, y: 0, z: -480 });
    assert_eq!(node_at(-1, 0).vao_id, 0);
    assert_eq!(node_at(-1, 0).position, WorldPosition { x: 0, y: 0, z: 0 });
    let high = c.generate_scene(9, Viewpoint { x: 0, y: 650, z: 0 });
    assert_eq!(high[24].vao_id, 13);
    assert_eq!(high[24].index_count, 5400);
}

#[test]
fn frames_must_stay_on_the_grid() {
    let c = ChunkContainer::new(1, 1, &materials(), &height_map()).unwrap();
    assert!(c.can_show(origin()));
    assert!(c.can_show(Viewpoint { x: i32::MAX - 1, y: 0, z: i32::MIN + 1 }));
    assert!(!c.can_show(Viewpoint { x: i32::MAX, y: 0, z: 0 }));
    assert!(!c.can_show(Viewpoint { x: 0, y: 0, z: i32::MIN }));
    let mut c = ChunkContainer::new(1, 1, &materials(), &height_map()).unwrap();
    let requests = c.generate_visible_chunks(Viewpoint { x: i32::MAX - 1, y: 0, z: i32::MIN + 1 });
    assert_eq!(requests[0], request(i32::MAX - 2, i32::MIN, 0));
    assert_eq!(requests[8], request(i32::MAX, i32::MIN + 2, 0));
    let scene = c.generate_scene(0, Viewpoint { x: 0, y: 0, z: 0 });
    assert_eq!(scene.len(), 9);
}

#[test]
fn settings_versions_only_move_forward() {
    let mut c = container(200);
    c.generate_visible_chunks(origin());
    assert!(c.update_settings(5, origin(), &materials(), &height_map()).is_ok());
    assert_eq!(c.epoch(), 5);
    assert_eq!(c.chunk(0).unwrap().epoch, 5);
    assert_eq!(
        c.update_settings(5, origin(), &materials(), &height_map()).err(),
        Some(UpdateError::StaleEpoch)
    );
    assert_eq!(
        c.update_settings(4, origin(), &materials(), &height_map()).err(),
        Some(UpdateError::StaleEpoch)
    );
    assert_eq!(c.epoch(), 5);
    let abandoned = c.update_settings(u64::MAX, origin(), &materials(), &height_map()).unwrap();
    assert!(abandoned.is_empty());
    assert_eq!(c.epoch(), u64::MAX);
    assert_eq!(
        c.update_settings(u64::MAX, origin(), &materials(), &height_map()).err(),
        Some(UpdateError::StaleEpoch)
    );
    let requests = c.generate_visible_chunks(origin());
    assert!(requests.iter().all(|r| r.epoch == u64::MAX));
    assert_eq!(requests.len(), 8);
}
