use terrain_generator::material::{limits_ascend, select_material, Material};
use terrain_generator::mesh::{
    height_map_covers_grid, Mesh, MeshError, MeshSettings, Vertex, MAP_CHUNK_SIZE,
    MAX_LEVEL_OF_DETAIL,
};
use terrain_generator::triangle::Triangle;
use terrain_generator::utils::{byte_size_of_array, size_of};

fn terrain_materials() -> Vec<Material> {
    vec![Material::new(400), Material::new(430), Material::new(800), Material::new(1200)]
}

fn sloped_height_map() -> Vec<Vec<u32>> {
    let mut map = Vec::new();
    for x in 0..MAP_CHUNK_SIZE {
        let mut column = Vec::new();
        for z in 0..MAP_CHUNK_SIZE {
            column.push((x * 4 + z) as u32);
        }
        map.push(column);
    }
    map
}

#[test]
fn triangle_keeps_its_corners() {
    let t = Triangle::new(1, 2, 3);
    assert_eq!((t.a, t.b, t.c), (1, 2, 3));
    assert_eq!(t, Triangle { a: 1, b: 2, c: 3 });
}

#[test]
fn vertex_keeps_its_fields() {
    let v = Vertex::new(-120, 120, 17, 2);
    assert_eq!(v, Vertex { x: -120, z: 120, height: 17, material: 2 });
}

#[test]
fn sizes_are_in_bytes() {
    assert_eq!(size_of::<u32>(), 4);
    assert_eq!(size_of::<u8>(), 1);
    assert_eq!(size_of::<u64>(), 8);
    assert_eq!(size_of::<[u32; 3]>(), 12);
    assert_eq!(size_of::<()>(), 0);
    assert_eq!(byte_size_of_array(&[1u32, 2, 3]), 12);
    assert_eq!(byte_size_of_array(&[1u8, 2, 3, 4, 5]), 5);
    assert_eq!(byte_size_of_array::<u64>(&[]), 0);
    assert_eq!(byte_size_of_array(&vec![0u16; 1000]), 2000);
}

#[test]
fn first_covering_material_wins() {
    let materials = terrain_materials();
    assert_eq!(select_material(&materials, 0), Some(0));
    assert_eq!(select_material(&materials, 400), Some(0));
    assert_eq!(select_material(&materials, 401), Some(1));
    assert_eq!(select_material(&materials, 430), Some(1));
    assert_eq!(select_material(&materials, 431), Some(2));
    assert_eq!(select_material(&materials, 1000), Some(3));
    assert_eq!(select_material(&materials, 1200), Some(3));
    assert_eq!(select_material(&materials, 1201), None);
    assert_eq!(select_material(&Vec::new(), 0), None);
}

#[test]
fn first_covering_material_wins_in_an_unsorted_table() {
    let materials = vec![Material::new(800), Material::new(400), Material::new(1000)];
    assert_eq!(select_material(&materials, 300), Some(0));
    assert_eq!(select_material(&materials, 900), Some(2));
    assert!(!limits_ascend(&materials));
    assert!(limits_ascend(&terrain_materials()));
    assert!(limits_ascend(&Vec::new()));
    assert!(limits_ascend(&vec![Material::new(5), Material::new(5)]));
}

#[test]
fn mesh_settings_clamp_the_level_of_detail() {
    assert_eq!(MeshSettings::new(0).level_of_detail, 0);
    assert_eq!(MeshSettings::new(3).level_of_detail, 3);
    assert_eq!(MeshSettings::new(6).level_of_detail, 6);
    assert_eq!(MeshSettings::new(7).level_of_detail, MAX_LEVEL_OF_DETAIL);
    assert_eq!(MeshSettings::new(-1).level_of_detail, 0);
    assert_eq!(MeshSettings::new(i32::MIN).level_of_detail, 0);
    assert_eq!(MeshSettings::new(i32::MAX).level_of_detail, 6);
}

#[test]
fn full_resolution_mesh_covers_the_whole_grid() {
    let mesh = Mesh::create_terrain_mesh(&terrain_materials(), &sloped_height_map(), 0).unwrap();
    assert_eq!(mesh.vertices.len(), 241 * 241);
    assert_eq!(mesh.indices.len(), 240 * 240 * 6);
    assert_eq!(mesh.index_count, 345600);
    assert_eq!(mesh.vertices[0], Vertex { x: -120, z: 120, height: 0, material: 0 });
    assert_eq!(mesh.vertices[1], Vertex { x: -119, z: 120, height: 4, material: 0 });
    assert_eq!(mesh.vertices[240], Vertex { x: 120, z: 120, height: 960, material: 3 });
    assert_eq!(mesh.vertices[241], Vertex { x: -120, z: 119, height: 1, material: 0 });
    assert_eq!(
        mesh.vertices[241 * 241 - 1],
        Vertex { x: 120, z: -120, height: 1200, material: 3 }
    );
    assert_eq!(&mesh.indices[0..6], &[0, 242, 241, 242, 0, 1]);
    assert_eq!(&mesh.indices[6..12], &[1, 243, 242, 243, 1, 2]);
    assert_eq!(&mesh.indices[240 * 6..240 * 6 + 6], &[241, 483, 482, 483, 241, 242]);
    let last = mesh.indices.len();
    assert_eq!(
        &mesh.indices[last - 6..],
        &[57838, 58080, 58079, 58080, 57838, 57839]
    );
}

#[test]
fn vertex_materials_follow_the_heights() {
    let mesh = Mesh::create_terrain_mesh(&terrain_materials(), &sloped_height_map(), 0).unwrap();
    assert_eq!(mesh.vertices[100].height, 400);
    assert_eq!(mesh.vertices[100].material, 0);
    assert_eq!(mesh.vertices[101].height, 404);
    assert_eq!(mesh.vertices[101].material, 1);
    assert_eq!(mesh.vertices[108].height, 432);
    assert_eq!(mesh.vertices[108].material, 2);
    assert_eq!(mesh.vertices[200].height, 800);
    assert_eq!(mesh.vertices[200].material, 2);
    assert_eq!(mesh.vertices[201].material, 3);
}

#[test]
fn coarser_meshes_skip_samples() {
    let materials = vec![Material::new(u32::MAX)];
    let map = sloped_height_map();
    let mesh = Mesh::create_terrain_mesh(&materials, &map, 1).unwrap();
    assert_eq!(mesh.vertices.len(), 121 * 121);
    assert_eq!(mesh.index_count, 120 * 120 * 6);
    assert_eq!(mesh.vertices[1], Vertex { x: -118, z: 120, height: 8, material: 0 });
    assert_eq!(mesh.vertices[121], Vertex { x: -120, z: 118, height: 2, material: 0 });
    assert_eq!(&mesh.indices[0..6], &[0, 122, 121, 122, 0, 1]);
    let mesh = Mesh::create_terrain_mesh(&materials, &map, 2).unwrap();
    assert_eq!(mesh.vertices.len(), 61 * 61);
    assert_eq!(mesh.index_count, 60 * 60 * 6);
    let mesh = Mesh::create_terrain_mesh(&materials, &map, 4).unwrap();
    assert_eq!(mesh.vertices.len(), 31 * 31);
    assert_eq!(mesh.index_count, 30 * 30 * 6);
    assert_eq!(mesh.vertices[30], Vertex { x: 120, z: 120, height: 960, material: 0 });
    assert_eq!(mesh.vertices[31 * 31 - 1], Vertex { x: 120, z: -120, height: 1200, material: 0 });
}

#[test]
fn strides_that_do_not_divide_the_grid_stop_short() {
    let materials = vec![Material::new(u32::MAX)];
    let map = sloped_height_map();
    let mesh = Mesh::create_terrain_mesh(&materials, &map, 7).unwrap();
    assert_eq!(mesh.vertices.len(), 18 * 18);
    assert_eq!(mesh.index_count, 17 * 17 * 6);
    assert_eq!(mesh.vertices[17], Vertex { x: 118, z: 120, height: 238 * 4, material: 0 });
    assert!(mesh.indices.iter().all(|i| (*i as usize) < mesh.vertices.len()));
    let mesh = Mesh::create_terrain_mesh(&materials, &map, 121).unwrap();
    assert_eq!(mesh.vertices.len(), 1);
    assert_eq!(mesh.index_count, 0);
    let mesh = Mesh::create_terrain_mesh(&materials, &map, u32::MAX).unwrap();
    assert_eq!(mesh.vertices, vec![Vertex { x: -120, z: 120, height: 0, material: 0 }]);
    assert!(mesh.indices.is_empty());
    let mesh = Mesh::create_terrain_mesh(&materials, &map, 120).unwrap();
    assert_eq!(mesh.vertices.len(), 4);
    assert_eq!(mesh.indices, vec![0, 3, 2, 3, 0, 1]);
}

#[test]
fn every_index_names_a_vertex() {
    let materials = vec![Material::new(u32::MAX)];
    let map = sloped_height_map();
    for level in 0..=6u32 {
        let mesh = Mesh::create_terrain_mesh(&materials, &map, level).unwrap();
        assert_eq!(mesh.index_count as usize, mesh.indices.len());
        assert!(mesh.indices.iter().all(|i| (*i as usize) < mesh.vertices.len()));
    }
}

#[test]
fn empty_material_table_is_an_error() {
    let result = Mesh::create_terrain_mesh(&Vec::new(), &sloped_height_map(), 0);
    assert_eq!(result.err(), Some(MeshError::NoMaterials));
    let result = Mesh::create_terrain_mesh(&Vec::new(), &Vec::new(), 0);
    assert_eq!(result.err(), Some(MeshError::NoMaterials));
}

#[test]
fn small_height_map_is_an_error() {
    let materials = terrain_materials();
    let result = Mesh::create_terrain_mesh(&materials, &Vec::new(), 0);
    assert_eq!(result.err(), Some(MeshError::HeightMapTooSmall));
    let mut map = sloped_height_map();
    map[240].pop();
    assert!(!height_map_covers_grid(&map));
    let result = Mesh::create_terrain_mesh(&materials, &map, 4);
    assert_eq!(result.err(), Some(MeshError::HeightMapTooSmall));
    let mut map = sloped_height_map();
    map.pop();
    let result = Mesh::create_terrain_mesh(&materials, &map, 0);
    assert_eq!(result.err(), Some(MeshError::HeightMapTooSmall));
    let mut map = sloped_height_map();
    map.push(Vec::new());
    map[3].push(0);
    assert!(height_map_covers_grid(&map));
    assert!(Mesh::create_terrain_mesh(&vec![Material::new(u32::MAX)], &map, 0).is_ok());
}

#[test]
fn height_above_all_materials_is_an_error() {
    let materials = vec![Material::new(400), Material::new(1199)];
    let map = sloped_height_map();
    let result = Mesh::create_terrain_mesh(&materials, &map, 0);
    assert_eq!(result.err(), Some(MeshError::HeightAboveMaterials));
    let result = Mesh::create_terrain_mesh(&materials, &map, 4);
    assert_eq!(result.err(), Some(MeshError::HeightAboveMaterials));
    let result = Mesh::create_terrain_mesh(&materials, &map, 7);
    assert!(result.is_ok());
    let materials = vec![Material::new(400), Material::new(1200)];
    assert!(Mesh::create_terrain_mesh(&materials, &map, 0).is_ok());
}

#[test]
fn plain_mesh_has_a_vertex_for_each_sample() {
    let map = vec![vec![10, 11], vec![20, 21], vec![30, 31]];
    let mesh = Mesh::mesh_from_height_map(&map).unwrap();
    assert_eq!(
        mesh.vertices,
        vec![
            Vertex { x: 0, z: 0, height: 10, material: 0 },
            Vertex { x: 0, z: 1, height: 11, material: 0 },
            Vertex { x: 1, z: 0, height: 20, material: 0 },
            Vertex { x: 1, z: 1, height: 21, material: 0 },
            Vertex { x: 2, z: 0, height: 30, material: 0 },
            Vertex { x: 2, z: 1, height: 31, material: 0 },
        ]
    );
    assert_eq!(mesh.indices, vec![1, 2, 0, 1, 3, 2, 3, 4, 2, 3, 5, 4]);
    assert_eq!(mesh.index_count, 12);
}

#[test]
fn plain_mesh_of_a_wider_map() {
    let map = vec![vec![0, 1, 2, 3], vec![4, 5, 6, 7, 99]];
    let mesh = Mesh::mesh_from_height_map(&map).unwrap();
    assert_eq!(mesh.vertices.len(), 8);
    assert_eq!(mesh.vertices[7], Vertex { x: 1, z: 3, height: 7, material: 0 });
    assert_eq!(
        mesh.indices,
        vec![1, 4, 0, 1, 5, 4, 2, 5, 1, 2, 6, 5, 3, 6, 2, 3, 7, 6]
    );
    assert_eq!(mesh.index_count, 18);
}

#[test]
fn plain_mesh_of_a_single_line_has_no_triangles() {
    let mesh = Mesh::mesh_from_height_map(&vec![vec![1, 2, 3]]).unwrap();
    assert_eq!(mesh.vertices.len(), 3);
    assert!(mesh.indices.is_empty());
    assert_eq!(mesh.index_count, 0);
    let mesh = Mesh::mesh_from_height_map(&vec![vec![1], vec![2], vec![3]]).unwrap();
    assert_eq!(mesh.vertices.len(), 3);
    assert_eq!(mesh.vertices[2], Vertex { x: 2, z: 0, height: 3, material: 0 });
    assert!(mesh.indices.is_empty());
}

#[test]
fn plain_mesh_needs_a_full_map() {
    assert_eq!(Mesh::mesh_from_height_map(&Vec::new()).err(), Some(MeshError::HeightMapTooSmall));
    assert_eq!(
        Mesh::mesh_from_height_map(&vec![Vec::new(), vec![1]]).err(),
        Some(MeshError::HeightMapTooSmall)
    );
    assert_eq!(
        Mesh::mesh_from_height_map(&vec![vec![1, 2], vec![3]]).err(),
        Some(MeshError::HeightMapTooSmall)
    );
    assert_eq!(
        Mesh::mesh_from_height_map(&vec![vec![1, 2], vec![3, 4], Vec::new()]).err(),
        Some(MeshError::HeightMapTooSmall)
    );
}

#[test]
fn plain_mesh_has_a_size_limit() {
    let map = vec![vec![0u32; 357_913_942]];
    assert_eq!(Mesh::mesh_from_height_map(&map).err(), Some(MeshError::HeightMapTooLarge));
    let map = vec![vec![0u32; 19_000]; 19_000];
    assert_eq!(Mesh::mesh_from_height_map(&map).err(), Some(MeshError::HeightMapTooLarge));
}
