//! Topology of a terrain mesh: the subsampled vertex grid of one chunk, the material of
//! each vertex and the triangles that span the grid.

use crate::material::{material_for, select_material, Material};
use crate::triangle::Triangle;
use vstd::prelude::*;

verus! {

/// Side length of the sample grid of every chunk, whatever its level of detail.
pub const MAP_CHUNK_SIZE: usize = 241;

/// The last position on a line of the sample grid.
pub const MAP_CHUNK_EDGE: usize = MAP_CHUNK_SIZE - 1;

/// Distance of the grid's border from its centre, in samples.
pub const MAP_CHUNK_HALF: i32 = 120;

/// Why a mesh could not be built.
#[derive(Clone, Copy, Debug, PartialEq, Eq, Structural)]
pub enum MeshError {
    /// The material table is empty.
    NoMaterials,
    /// The height map is smaller than the sample grid.
    HeightMapTooSmall,
    /// A sampled height lies above the limit of every material.
    HeightAboveMaterials,
    /// The height map has more samples than a mesh can index.
    HeightMapTooLarge,
}

/// One vertex of the subsampled grid: where it stands on the horizontal plane, the
/// normalized height sampled there and the index of its material in the table.
#[derive(Clone, Copy, Debug, PartialEq, Eq, Structural)]
pub struct Vertex {
    pub x: i32,
    pub z: i32,
    pub height: u32,
    pub material: usize,
}

impl Vertex {
    pub fn new(x: i32, z: i32, height: u32, material: usize) -> (v: Vertex)
        ensures
            v == (Vertex { x, z, height, material }),
    {
        Vertex { x, z, height, material }
    }
}

/// The coarsest level of detail that mesh settings can ask for.
pub const MAX_LEVEL_OF_DETAIL: i32 = 6;

/// How a mesh is to be built.
#[derive(Clone, Copy, Debug, PartialEq, Eq, Structural)]
pub struct MeshSettings {
    pub level_of_detail: i32,
}

impl MeshSettings {
    /// Makes settings with the level of detail brought into the range from zero to
    /// `MAX_LEVEL_OF_DETAIL`.
    pub fn new(level_of_detail: i32) -> (settings: Self)
        ensures
            level_of_detail < 0 ==> settings.level_of_detail == 0,
            0 <= level_of_detail <= MAX_LEVEL_OF_DETAIL ==> settings.level_of_detail
                == level_of_detail,
            level_of_detail > MAX_LEVEL_OF_DETAIL ==> settings.level_of_detail
                == MAX_LEVEL_OF_DETAIL,
    {
        if level_of_detail < 0 {
            Self { level_of_detail: 0 }
        } else if level_of_detail > MAX_LEVEL_OF_DETAIL {
            Self { level_of_detail: MAX_LEVEL_OF_DETAIL }
        } else {
            Self { level_of_detail }
        }
    }
}

/// The geometry of one chunk at one level of detail, as far as integers describe it.
pub struct Mesh {
    pub vertices: Vec<Vertex>,
    pub indices: Vec<u32>,
    pub index_count: i32,
}

/// The stride at which the sample grid is read: every sample at full resolution, else
/// every `2 * level_of_detail`-th.
pub open spec fn simplification_increment(level_of_detail: int) -> int {
    if level_of_detail == 0 {
        1
    } else {
        2 * level_of_detail
    }
}

/// The number of vertices on one line of the subsampled grid.
pub open spec fn vertices_per_line(increment: int) -> int {
    MAP_CHUNK_EDGE as int / increment + 1
}

/// True when the height map holds a sample for every point of the sample grid.
pub open spec fn covers_sample_grid(height_map: Seq<Vec<u32>>) -> bool {
    &&& height_map.len() >= MAP_CHUNK_SIZE
    &&& forall|x: int|
        0 <= x < MAP_CHUNK_SIZE ==> (#[trigger] height_map[x])@.len() >= MAP_CHUNK_SIZE
}

/// Column of the sample grid that the `i`-th vertex is read from.
pub open spec fn sample_column(increment: int, i: int) -> int {
    (i % vertices_per_line(increment)) * increment
}

/// Row of the sample grid that the `i`-th vertex is read from.
pub open spec fn sample_row(increment: int, i: int) -> int {
    (i / vertices_per_line(increment)) * increment
}

/// The height sampled for the `i`-th vertex.
pub open spec fn sample_height(height_map: Seq<Vec<u32>>, increment: int, i: int) -> u32 {
    height_map[sample_column(increment, i)]@[sample_row(increment, i)]
}

/// True when every sampled height has a material.
pub open spec fn all_samples_covered(
    materials: Seq<Material>,
    height_map: Seq<Vec<u32>>,
    increment: int,
) -> bool {
    forall|i: int|
        0 <= i < vertices_per_line(increment) * vertices_per_line(increment) ==> material_for(
            materials,
            #[trigger] sample_height(height_map, increment, i),
        ) is Some
}

/// The `i`-th vertex, counted row by row. The grid is centred on the origin of the plane.
pub open spec fn vertex_at(
    materials: Seq<Material>,
    height_map: Seq<Vec<u32>>,
    increment: int,
    i: int,
) -> Vertex {
    Vertex {
        x: (sample_column(increment, i) - MAP_CHUNK_HALF) as i32,
        z: (MAP_CHUNK_HALF - sample_row(increment, i)) as i32,
        height: sample_height(height_map, increment, i),
        material: material_for(materials, sample_height(height_map, increment, i)).unwrap() as usize,
    }
}

/// True when `vertices` holds the first vertices of the grid, each with a material.
pub open spec fn built_so_far(
    vertices: Seq<Vertex>,
    materials: Seq<Material>,
    height_map: Seq<Vec<u32>>,
    increment: int,
) -> bool {
    &&& forall|k: int|
        0 <= k < vertices.len() ==> material_for(
            materials,
            #[trigger] sample_height(height_map, increment, k),
        ) is Some
    &&& forall|k: int|
        0 <= k < vertices.len() ==> (#[trigger] vertices[k]) == vertex_at(
            materials,
            height_map,
            increment,
            k,
        )
}

/// All vertices of the subsampled grid, row by row.
pub open spec fn terrain_vertices(
    materials: Seq<Material>,
    height_map: Seq<Vec<u32>>,
    increment: int,
) -> Seq<Vertex> {
    Seq::new(
        (vertices_per_line(increment) * vertices_per_line(increment)) as nat,
        |i: int| vertex_at(materials, height_map, increment, i),
    )
}

/// The `k`-th triangle of a grid with `n` vertices per line. Each quad of the grid gives
/// two triangles with the same winding; quads are counted row by row.
pub open spec fn grid_triangle(n: int, k: int) -> Triangle {
    let quad = k / 2;
    let first = (quad / (n - 1)) * n + quad % (n - 1);
    if k % 2 == 0 {
        Triangle { a: first as usize, b: (first + n + 1) as usize, c: (first + n) as usize }
    } else {
        Triangle { a: (first + n + 1) as usize, b: first as usize, c: (first + 1) as usize }
    }
}

/// All triangles of a grid with `n` vertices per line.
pub open spec fn grid_triangles(n: int) -> Seq<Triangle> {
    Seq::new((2 * ((n - 1) * (n - 1))) as nat, |k: int| grid_triangle(n, k))
}

/// The `corner`-th vertex index of a triangle.
pub open spec fn triangle_corner(t: Triangle, corner: int) -> usize {
    if corner == 0 {
        t.a
    } else if corner == 1 {
        t.b
    } else {
        t.c
    }
}

/// The index buffer of a list of triangles: three indices for each, in order.
pub open spec fn flattened(triangles: Seq<Triangle>) -> Seq<u32> {
    Seq::new(
        (3 * triangles.len()) as nat,
        |k: int| triangle_corner(triangles[k / 3], k % 3) as u32,
    )
}

/// True when `mesh` is the mesh of the given inputs at the given level of detail.
pub open spec fn is_terrain_mesh(
    mesh: Mesh,
    materials: Seq<Material>,
    height_map: Seq<Vec<u32>>,
    level_of_detail: int,
) -> bool {
    let increment = simplification_increment(level_of_detail);
    &&& mesh.vertices@ == terrain_vertices(materials, height_map, increment)
    &&& mesh.indices@ == flattened(grid_triangles(vertices_per_line(increment)))
    &&& mesh.index_count == mesh.indices@.len()
}

/// Why no terrain mesh can be built from the given inputs, or `None` when one can. An
/// empty material table is reported first, then a height map that is too small, then a
/// sample without a material.
pub open spec fn terrain_failure(
    materials: Seq<Material>,
    height_map: Seq<Vec<u32>>,
    level_of_detail: int,
) -> Option<MeshError> {
    if materials.len() == 0 {
        Some(MeshError::NoMaterials)
    } else if !covers_sample_grid(height_map) {
        Some(MeshError::HeightMapTooSmall)
    } else if !all_samples_covered(
        materials,
        height_map,
        simplification_increment(level_of_detail),
    ) {
        Some(MeshError::HeightAboveMaterials)
    } else {
        None
    }
}

/// The number of rows of a plain height map: the length of its first column.
pub open spec fn plain_rows(height_map: Seq<Vec<u32>>) -> int {
    if height_map.len() == 0 {
        0
    } else {
        height_map[0]@.len() as int
    }
}

/// Why a height map cannot be meshed as it stands, or `None` when it can. It is too small
/// when it has no column, no row, or a column shorter than the first; it is too large
/// when six times its number of samples does not fit a 32-bit signed integer.
pub open spec fn plain_failure(height_map: Seq<Vec<u32>>) -> Option<MeshError> {
    let rows = plain_rows(height_map);
    if rows == 0 || exists|x: int|
        0 <= x < height_map.len() && (#[trigger] height_map[x])@.len() < rows {
        Some(MeshError::HeightMapTooSmall)
    } else if 6 * (height_map.len() * rows) > i32::MAX {
        Some(MeshError::HeightMapTooLarge)
    } else {
        None
    }
}

/// The `i`-th vertex of a plain mesh with `rows` rows, counted column by column. It stands
/// at its sample's column and row and has the first material.
pub open spec fn plain_vertex(height_map: Seq<Vec<u32>>, rows: int, i: int) -> Vertex {
    Vertex {
        x: (i / rows) as i32,
        z: (i % rows) as i32,
        height: height_map[i / rows]@[i % rows],
        material: 0,
    }
}

/// The `k`-th triangle of a plain mesh with `rows` rows. Each quad gives two triangles
/// with the same winding; quads are counted column by column.
pub open spec fn plain_triangle(rows: int, k: int) -> Triangle {
    let quad = k / 2;
    let first = (quad / (rows - 1)) * rows + quad % (rows - 1);
    if k % 2 == 0 {
        Triangle { a: (first + 1) as usize, b: (first + rows) as usize, c: first as usize }
    } else {
        Triangle {
            a: (first + 1) as usize,
            b: (first + rows + 1) as usize,
            c: (first + rows) as usize,
        }
    }
}

/// True when `mesh` is the plain mesh of a height map: one vertex for each sample and
/// two triangles for each quad.
pub open spec fn is_plain_mesh(mesh: Mesh, height_map: Seq<Vec<u32>>) -> bool {
    let columns = height_map.len() as int;
    let rows = plain_rows(height_map);
    &&& mesh.vertices@ == Seq::new(
        (columns * rows) as nat,
        |i: int| plain_vertex(height_map, rows, i),
    )
    &&& mesh.indices@ == flattened(
        Seq::new((2 * ((columns - 1) * (rows - 1))) as nat, |k: int| plain_triangle(rows, k)),
    )
    &&& mesh.index_count == mesh.indices@.len()
}

/// The line length of a subsampled grid lies between one and the sample grid's side.
pub proof fn lemma_vertices_per_line_bounds(increment: int)
    requires
        increment >= 1,
    ensures
        1 <= vertices_per_line(increment) <= MAP_CHUNK_SIZE,
{
    vstd::arithmetic::div_mod::lemma_div_pos_is_pos(MAP_CHUNK_EDGE as int, increment);
    vstd::arithmetic::div_mod::lemma_div_is_ordered_by_denominator(
        MAP_CHUNK_EDGE as int,
        1,
        increment,
    );
}

/// Every subsampled line position falls on the sample grid.
pub proof fn lemma_sample_on_grid(increment: int, position: int)
    requires
        increment >= 1,
        0 <= position < vertices_per_line(increment),
    ensures
        0 <= position * increment < MAP_CHUNK_SIZE,
{
    let edge = MAP_CHUNK_EDGE as int;
    let last = edge / increment;
    vstd::arithmetic::div_mod::lemma_fundamental_div_mod(edge, increment);
    assert(0 <= position * increment <= edge) by (nonlinear_arith)
        requires
            increment >= 1,
            0 <= position <= last,
            edge == increment * last + edge % increment,
            0 <= edge % increment,
    {
        assert(position * increment <= last * increment);
    }
}

/// Row and column of the `i`-th entry of a square grid.
pub proof fn lemma_grid_index(n: int, row: int, column: int)
    requires
        0 <= row,
        0 <= column < n,
    ensures
        (row * n + column) / n == row,
        (row * n + column) % n == column,
{
    vstd::arithmetic::div_mod::lemma_fundamental_div_mod_converse(row * n + column, n, row, column);
}

/// Tells whether the height map holds a sample for every point of the sample grid.
pub fn height_map_covers_grid(height_map: &Vec<Vec<u32>>) -> (covers: bool)
    ensures
        covers == covers_sample_grid(height_map@),
{
    if height_map.len() < MAP_CHUNK_SIZE {
        return false;
    }
    let mut x: usize = 0;
    while x < MAP_CHUNK_SIZE
        invariant
            0 <= x <= MAP_CHUNK_SIZE,
            height_map@.len() >= MAP_CHUNK_SIZE,
            forall|k: int| 0 <= k < x ==> (#[trigger] height_map@[k])@.len() >= MAP_CHUNK_SIZE,
        decreases MAP_CHUNK_SIZE - x,
    {
        if height_map[x].len() < MAP_CHUNK_SIZE {
            return false;
        }
        x = x + 1;
    }
    true
}

fn build_vertices(
    materials: &Vec<Material>,
    height_map: &Vec<Vec<u32>>,
    increment: u64,
    n: usize,
) -> (built: Option<Vec<Vertex>>)
    requires
        increment >= 1,
        n == vertices_per_line(increment as int),
        covers_sample_grid(height_map@),
    ensures
        match built {
            Some(vertices) => {
                &&& all_samples_covered(materials@, height_map@, increment as int)
                &&& vertices@ == terrain_vertices(materials@, height_map@, increment as int)
            },
            None => !all_samples_covered(materials@, height_map@, increment as int),
        },
{
    proof {
        lemma_vertices_per_line_bounds(increment as int);
    }
    let ghost step = increment as int;
    let mut vertices: Vec<Vertex> = Vec::new();
    let mut row: usize = 0;
    while row < n
        invariant
            increment >= 1,
            step == increment as int,
            n == vertices_per_line(step),
            1 <= n <= MAP_CHUNK_SIZE,
            covers_sample_grid(height_map@),
            0 <= row <= n,
            vertices@.len() == row * n,
            built_so_far(vertices@, materials@, height_map@, step),
        decreases n - row,
    {
        let mut column: usize = 0;
        while column < n
            invariant
                increment >= 1,
                step == increment as int,
                n == vertices_per_line(step),
                1 <= n <= MAP_CHUNK_SIZE,
                covers_sample_grid(height_map@),
                0 <= row < n,
                0 <= column <= n,
                vertices@.len() == row * n + column,
                built_so_far(vertices@, materials@, height_map@, step),
            decreases n - column,
        {
            let ghost i = row * n + column;
            proof {
                lemma_grid_index(n as int, row as int, column as int);
                lemma_sample_on_grid(step, row as int);
                lemma_sample_on_grid(step, column as int);
                assert(0 <= i < n * n) by (nonlinear_arith)
                    requires
                        i == row * n + column,
                        0 <= row < n,
                        0 <= column < n,
                {
                }
            }
            let sample_x: usize = ((column as u64) * increment) as usize;
            let sample_z: usize = ((row as u64) * increment) as usize;
            let height: u32 = height_map[sample_x][sample_z];
            match select_material(materials, height) {
                Some(material) => {
                    vertices.push(
                        Vertex::new(
                            sample_x as i32 - MAP_CHUNK_HALF,
                            MAP_CHUNK_HALF - sample_z as i32,
                            height,
                            material,
                        ),
                    );
                    assert(vertices@[i] == vertex_at(materials@, height_map@, step, i));
                },
                None => {
                    return None;
                },
            }
            column = column + 1;
        }
        proof {
            assert((row + 1) * n == row * n + n) by (nonlinear_arith);
        }
        row = row + 1;
    }
    proof {
        assert(vertices@.len() == n * n);
        assert(vertices@ =~= terrain_vertices(materials@, height_map@, step));
    }
    Some(vertices)
}

fn build_triangles(n: usize) -> (triangles: Vec<Triangle>)
    requires
        1 <= n <= MAP_CHUNK_SIZE,
    ensures
        triangles@ == grid_triangles(n as int),
        triangles@.len() <= 2 * (MAP_CHUNK_EDGE * MAP_CHUNK_EDGE),
        forall|k: int|
            0 <= k < triangles@.len() ==> {
                &&& (#[trigger] triangles@[k]).a < n * n
                &&& triangles@[k].b < n * n
                &&& triangles@[k].c < n * n
            },
{
    let quads: usize = n - 1;
    let mut triangles: Vec<Triangle> = Vec::new();
    let mut row: usize = 0;
    proof {
        assert(quads * quads <= MAP_CHUNK_EDGE * MAP_CHUNK_EDGE) by (nonlinear_arith)
            requires
                0 <= quads <= MAP_CHUNK_EDGE,
        {
        }
    }
    while row < quads
        invariant
            1 <= n <= MAP_CHUNK_SIZE,
            quads == n - 1,
            0 <= row <= quads,
            triangles@.len() == 2 * (row * quads),
            forall|k: int|
                0 <= k < triangles@.len() ==> {
                    &&& (#[trigger] triangles@[k]) == grid_triangle(n as int, k)
                    &&& triangles@[k].a < n * n
                    &&& triangles@[k].b < n * n
                    &&& triangles@[k].c < n * n
                },
        decreases quads - row,
    {
        let mut column: usize = 0;
        while column < quads
            invariant
                1 <= n <= MAP_CHUNK_SIZE,
                quads == n - 1,
                0 <= row < quads,
                0 <= column <= quads,
                triangles@.len() == 2 * (row * quads + column),
                forall|k: int|
                    0 <= k < triangles@.len() ==> {
                        &&& (#[trigger] triangles@[k]) == grid_triangle(n as int, k)
                        &&& triangles@[k].a < n * n
                        &&& triangles@[k].b < n * n
                        &&& triangles@[k].c < n * n
                    },
            decreases quads - column,
        {
            let ghost quad = row * quads + column;
            proof {
                lemma_grid_index(quads as int, row as int, column as int);
                assert(row * n + column + n + 1 < n * n && 0 <= row * n <= MAP_CHUNK_SIZE
                    * MAP_CHUNK_SIZE) by (nonlinear_arith)
                    requires
                        0 <= row < n - 1,
                        0 <= column < n - 1,
                        n <= MAP_CHUNK_SIZE,
                {
                }
            }
            let first: usize = row * n + column;
            let upper = Triangle::new(first, first + n + 1, first + n);
            let lower = Triangle::new(first + n + 1, first, first + 1);
            assert(upper == grid_triangle(n as int, 2 * quad));
            assert(lower == grid_triangle(n as int, 2 * quad + 1));
            triangles.push(upper);
            triangles.push(lower);
            column = column + 1;
        }
        proof {
            assert((row + 1) * quads == row * quads + quads) by (nonlinear_arith);
        }
        row = row + 1;
    }
    proof {
        assert(row * quads == (n - 1) * (n - 1)) by (nonlinear_arith)
            requires
                row == quads,
                quads == n - 1,
        {
        }
        assert(triangles@ =~= grid_triangles(n as int));
    }
    triangles
}

fn flatten_triangles(triangles: &Vec<Triangle>) -> (indices: Vec<u32>)
    requires
        forall|k: int|
            0 <= k < triangles@.len() ==> {
                &&& (#[trigger] triangles@[k]).a <= u32::MAX
                &&& triangles@[k].b <= u32::MAX
                &&& triangles@[k].c <= u32::MAX
            },
    ensures
        indices@ == flattened(triangles@),
{
    let mut indices: Vec<u32> = Vec::new();
    let mut k: usize = 0;
    while k < triangles.len()
        invariant
            0 <= k <= triangles@.len(),
            indices@.len() == 3 * k,
            forall|j: int|
                0 <= j < triangles@.len() ==> {
                    &&& (#[trigger] triangles@[j]).a <= u32::MAX
                    &&& triangles@[j].b <= u32::MAX
                    &&& triangles@[j].c <= u32::MAX
                },
            forall|j: int|
                0 <= j < indices@.len() ==> indices@[j] == triangle_corner(
                    triangles@[j / 3],
                    j % 3,
                ) as u32,
        decreases triangles@.len() - k,
    {
        let t = triangles[k];
        indices.push(t.a as u32);
        indices.push(t.b as u32);
        indices.push(t.c as u32);
        k = k + 1;
    }
    assert(indices@ =~= flattened(triangles@));
    indices
}

impl Mesh {
    /// Builds the mesh of one chunk at one level of detail. The height map is read at
    /// `[column][row]` with the stride that the level of detail asks for; each sample
    /// becomes a vertex with the first material that covers its height; each quad of the
    /// subsampled grid becomes two triangles.
    pub fn create_terrain_mesh(
        materials: &Vec<Material>,
        height_map: &Vec<Vec<u32>>,
        level_of_detail: u32,
    ) -> (result: Result<Mesh, MeshError>)
        ensures
            match result {
                Ok(mesh) => {
                    &&& terrain_failure(materials@, height_map@, level_of_detail as int) is None
                    &&& is_terrain_mesh(mesh, materials@, height_map@, level_of_detail as int)
                },
                Err(e) => terrain_failure(materials@, height_map@, level_of_detail as int)
                    == Some(e),
            },
    {
        if materials.len() == 0 {
            return Err(MeshError::NoMaterials);
        }
        if !height_map_covers_grid(height_map) {
            return Err(MeshError::HeightMapTooSmall);
        }
        let increment: u64 = if level_of_detail == 0 {
            1
        } else {
            2 * (level_of_detail as u64)
        };
        proof {
            lemma_vertices_per_line_bounds(increment as int);
        }
        let n: usize = (MAP_CHUNK_EDGE as u64 / increment) as usize + 1;
        let vertices = match build_vertices(materials, height_map, increment, n) {
            Some(vertices) => vertices,
            None => {
                return Err(MeshError::HeightAboveMaterials);
            },
        };
        let triangles = build_triangles(n);
        proof {
            assert(n * n <= MAP_CHUNK_SIZE * MAP_CHUNK_SIZE) by (nonlinear_arith)
                requires
                    0 <= n <= MAP_CHUNK_SIZE,
            {
            }
        }
        let indices = flatten_triangles(&triangles);
        let index_count: i32 = indices.len() as i32;
        Ok(Mesh { vertices, indices, index_count })
    }

    /// Builds the mesh of a whole height map at full resolution. The map is read at
    /// `[column][row]`; its first column tells how many rows it has. Each sample becomes
    /// a vertex at its column and row, each quad two triangles.
    pub fn mesh_from_height_map(height_map: &Vec<Vec<u32>>) -> (result: Result<Mesh, MeshError>)
        ensures
            match result {
                Ok(mesh) => plain_failure(height_map@) is None && is_plain_mesh(mesh, height_map@),
                Err(e) => plain_failure(height_map@) == Some(e),
            },
    {
        if height_map.len() == 0 || height_map[0].len() == 0 {
            return Err(MeshError::HeightMapTooSmall);
        }
        let columns: usize = height_map.len();
        let rows: usize = height_map[0].len();
        let mut x: usize = 0;
        while x < columns
            invariant
                columns == height_map@.len(),
                rows == plain_rows(height_map@),
                0 <= x <= columns,
                forall|k: int| 0 <= k < x ==> (#[trigger] height_map@[k])@.len() >= rows,
            decreases columns - x,
        {
            if height_map[x].len() < rows {
                return Err(MeshError::HeightMapTooSmall);
            }
            x = x + 1;
        }
        if columns > 357913941 || rows > 357913941 {
            proof {
                assert(6 * (columns * rows) > i32::MAX) by (nonlinear_arith)
                    requires
                        columns >= 1,
                        rows >= 1,
                        columns > 357913941 || rows > 357913941,
                {
                }
            }
            return Err(MeshError::HeightMapTooLarge);
        }
        proof {
            assert(columns * rows <= 357913941 * 357913941) by (nonlinear_arith)
                requires
                    0 <= columns <= 357913941,
                    0 <= rows <= 357913941,
            {
            }
            assert(columns <= columns * rows && rows <= columns * rows) by (nonlinear_arith)
                requires
                    columns >= 1,
                    rows >= 1,
            {
            }
        }
        let samples: u64 = (columns as u64) * (rows as u64);
        if samples * 6 > i32::MAX as u64 {
            return Err(MeshError::HeightMapTooLarge);
        }
        let vertices = plain_vertices(height_map, columns, rows);
        let triangles = plain_triangles(columns, rows);
        let indices = flatten_triangles(&triangles);
        let index_count: i32 = indices.len() as i32;
        Ok(Mesh { vertices, indices, index_count })
    }
}

fn plain_vertices(height_map: &Vec<Vec<u32>>, columns: usize, rows: usize) -> (vertices: Vec<Vertex>)
    requires
        columns == height_map@.len(),
        rows == plain_rows(height_map@),
        rows >= 1,
        columns <= i32::MAX,
        rows <= i32::MAX,
        forall|k: int| 0 <= k < columns ==> (#[trigger] height_map@[k])@.len() >= rows,
    ensures
        vertices@ == Seq::new(
            (columns * rows) as nat,
            |i: int| plain_vertex(height_map@, rows as int, i),
        ),
{
    let mut vertices: Vec<Vertex> = Vec::new();
    let mut x: usize = 0;
    while x < columns
        invariant
            columns == height_map@.len(),
            rows >= 1,
            columns <= i32::MAX,
            rows <= i32::MAX,
            forall|k: int| 0 <= k < columns ==> (#[trigger] height_map@[k])@.len() >= rows,
            0 <= x <= columns,
            vertices@.len() == x * rows,
            forall|i: int|
                0 <= i < vertices@.len() ==> (#[trigger] vertices@[i]) == plain_vertex(
                    height_map@,
                    rows as int,
                    i,
                ),
        decreases columns - x,
    {
        let mut z: usize = 0;
        while z < rows
            invariant
                columns == height_map@.len(),
                rows >= 1,
                columns <= i32::MAX,
                rows <= i32::MAX,
                forall|k: int| 0 <= k < columns ==> (#[trigger] height_map@[k])@.len() >= rows,
                0 <= x < columns,
                0 <= z <= rows,
                vertices@.len() == x * rows + z,
                forall|i: int|
                    0 <= i < vertices@.len() ==> (#[trigger] vertices@[i]) == plain_vertex(
                        height_map@,
                        rows as int,
                        i,
                    ),
            decreases rows - z,
        {
            proof {
                lemma_grid_index(rows as int, x as int, z as int);
            }
            vertices.push(Vertex::new(x as i32, z as i32, height_map[x][z], 0));
            z = z + 1;
        }
        proof {
            assert((x + 1) * rows == x * rows + rows) by (nonlinear_arith);
        }
        x = x + 1;
    }
    assert(vertices@ =~= Seq::new(
        (columns * rows) as nat,
        |i: int| plain_vertex(height_map@, rows as int, i),
    ));
    vertices
}

fn plain_triangles(columns: usize, rows: usize) -> (triangles: Vec<Triangle>)
    requires
        columns >= 1,
        rows >= 1,
        6 * (columns * rows) <= i32::MAX,
    ensures
        triangles@ == Seq::new(
            (2 * ((columns - 1) * (rows - 1))) as nat,
            |k: int| plain_triangle(rows as int, k),
        ),
        3 * triangles@.len() <= i32::MAX,
        forall|k: int|
            0 <= k < triangles@.len() ==> {
                &&& (#[trigger] triangles@[k]).a <= u32::MAX
                &&& triangles@[k].b <= u32::MAX
                &&& triangles@[k].c <= u32::MAX
            },
{
    let quads: usize = rows - 1;
    let mut triangles: Vec<Triangle> = Vec::new();
    let mut x: usize = 0;
    proof {
        assert((columns - 1) * (rows - 1) <= columns * rows) by (nonlinear_arith)
            requires
                columns >= 1,
                rows >= 1,
        {
        }
    }
    while x + 1 < columns
        invariant
            columns >= 1,
            rows >= 1,
            quads == rows - 1,
            6 * (columns * rows) <= i32::MAX,
            0 <= x <= columns - 1,
            triangles@.len() == 2 * (x * quads),
            forall|k: int|
                0 <= k < triangles@.len() ==> {
                    &&& (#[trigger] triangles@[k]) == plain_triangle(rows as int, k)
                    &&& triangles@[k].a <= u32::MAX
                    &&& triangles@[k].b <= u32::MAX
                    &&& triangles@[k].c <= u32::MAX
                },
        decreases columns - x,
    {
        let mut z: usize = 0;
        while z < quads
            invariant
                columns >= 1,
                rows >= 1,
                quads == rows - 1,
                6 * (columns * rows) <= i32::MAX,
                0 <= x < columns - 1,
                0 <= z <= quads,
                triangles@.len() == 2 * (x * quads + z),
                forall|k: int|
                    0 <= k < triangles@.len() ==> {
                        &&& (#[trigger] triangles@[k]) == plain_triangle(rows as int, k)
                        &&& triangles@[k].a <= u32::MAX
                        &&& triangles@[k].b <= u32::MAX
                        &&& triangles@[k].c <= u32::MAX
                    },
            decreases quads - z,
        {
            let ghost quad = x * quads + z;
            proof {
                lemma_grid_index(quads as int, x as int, z as int);
                assert(x * rows + z + rows + 1 < columns * rows && 0 <= x * rows) by (nonlinear_arith)
                    requires
                        0 <= x < columns - 1,
                        0 <= z < rows - 1,
                {
                }
            }
            let first: usize = x * rows + z;
            let upper = Triangle::new(first + 1, first + rows, first);
            let lower = Triangle::new(first + 1, first + rows + 1, first + rows);
            assert(upper == plain_triangle(rows as int, 2 * quad));
            assert(lower == plain_triangle(rows as int, 2 * quad + 1));
            triangles.push(upper);
            triangles.push(lower);
            z = z + 1;
        }
        proof {
            assert((x + 1) * quads == x * quads + quads) by (nonlinear_arith);
        }
        x = x + 1;
    }
    proof {
        assert(x * quads == (columns - 1) * (rows - 1)) by (nonlinear_arith)
            requires
                x == columns - 1,
                quads == rows - 1,
        {
        }
        assert(triangles@ =~= Seq::new(
            (2 * ((columns - 1) * (rows - 1))) as nat,
            |k: int| plain_triangle(rows as int, k),
        ));
    }
    triangles
}

} // verus!
