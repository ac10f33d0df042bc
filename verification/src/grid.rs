//! Integer geometry of the terrain grid: which chunk a viewpoint stands on,
//! which chunks surround it, and how far away a chunk is.

use vstd::prelude::*;

verus! {

/// Position of a chunk on the terrain grid.
#[derive(Clone, Copy, Debug, PartialEq, Eq, Hash, Structural)]
pub struct GridCoordinate {
    pub x: i32,
    pub z: i32,
}

/// A camera position, in whole world units.
#[derive(Clone, Copy, Debug, PartialEq, Eq, Structural)]
pub struct Viewpoint {
    pub x: i32,
    pub y: i32,
    pub z: i32,
}

/// A point of the world, in whole world units.
#[derive(Clone, Copy, Debug, PartialEq, Eq, Structural)]
pub struct WorldPosition {
    pub x: i64,
    pub y: i64,
    pub z: i64,
}

/// The integer nearest to `n / d`; a tie goes away from zero.
pub open spec fn nearest_quotient(n: int, d: int) -> int
    recommends
        d > 0,
{
    if n >= 0 {
        (2 * n + d) / (2 * d)
    } else {
        -((2 * (-n) + d) / (2 * d))
    }
}

/// The chunk whose centre is nearest to the viewpoint.
pub open spec fn chunk_coordinate_at(v: Viewpoint, chunk_world_size: int) -> GridCoordinate {
    GridCoordinate {
        x: nearest_quotient(v.x as int, chunk_world_size) as i32,
        z: nearest_quotient(v.z as int, chunk_world_size) as i32,
    }
}

/// How many chunks are visible in each direction from the viewpoint's chunk.
pub open spec fn visible_radius(view_distance: int, chunk_world_size: int) -> int {
    nearest_quotient(view_distance, chunk_world_size)
}

/// Side length of the square window of the given radius.
pub open spec fn window_side(radius: int) -> int {
    2 * radius + 1
}

/// True when every coordinate of the window lies on the grid.
pub open spec fn window_in_grid(center: GridCoordinate, radius: int) -> bool {
    &&& 0 <= radius
    &&& i32::MIN <= center.x - radius
    &&& center.x + radius <= i32::MAX
    &&& i32::MIN <= center.z - radius
    &&& center.z + radius <= i32::MAX
}

/// The `i`-th coordinate of the window, counted row by row: `x` runs fastest.
pub open spec fn window_coordinate(center: GridCoordinate, radius: int, i: int) -> GridCoordinate {
    GridCoordinate {
        x: (center.x - radius + i % window_side(radius)) as i32,
        z: (center.z - radius + i / window_side(radius)) as i32,
    }
}

/// The square window of coordinates within `radius` of `center` on both axes.
pub open spec fn window(center: GridCoordinate, radius: int) -> Seq<GridCoordinate> {
    Seq::new(
        (window_side(radius) * window_side(radius)) as nat,
        |i: int| window_coordinate(center, radius, i),
    )
}

/// Where a chunk stands in the world: its coordinate scaled by the chunk size, at height zero.
pub open spec fn chunk_world_position(c: GridCoordinate, chunk_world_size: int) -> WorldPosition {
    WorldPosition {
        x: (c.x * chunk_world_size) as i64,
        y: 0,
        z: (c.z * chunk_world_size) as i64,
    }
}

/// Square of the Euclidean distance between a viewpoint and a point of the world.
pub open spec fn distance_squared(v: Viewpoint, p: WorldPosition) -> int {
    (v.x - p.x) * (v.x - p.x) + (v.y - p.y) * (v.y - p.y) + (v.z - p.z) * (v.z - p.z)
}

/// The number under which a coordinate is filed: distinct coordinates get distinct keys.
pub open spec fn coordinate_key(c: GridCoordinate) -> u64 {
    ((c.x - i32::MIN) * 0x1_0000_0000 + (c.z - i32::MIN)) as u64
}

/// A rounded quotient is never farther from zero than the dividend.
pub proof fn lemma_nearest_quotient_bounds(n: int, d: int)
    requires
        d > 0,
    ensures
        n >= 0 ==> 0 <= nearest_quotient(n, d) <= n,
        n < 0 ==> n <= nearest_quotient(n, d) <= 0,
{
    let m = if n >= 0 { n } else { -n };
    let q = (2 * m + d) / (2 * d);
    assert(0 <= q <= m) by (nonlinear_arith)
        requires
            m >= 0,
            d > 0,
            q == (2 * m + d) / (2 * d),
    {
        assert(q * (2 * d) <= 2 * m + d);
        if q > m {
            assert((m + 1) * (2 * d) <= q * (2 * d));
        }
    }
}

/// Two coordinates with the same key are the same coordinate.
pub proof fn lemma_coordinate_key_injective(a: GridCoordinate, b: GridCoordinate)
    requires
        coordinate_key(a) == coordinate_key(b),
    ensures
        a == b,
{
}

/// The window of radius zero holds the centre and nothing else.
pub proof fn lemma_window_of_radius_zero(center: GridCoordinate)
    ensures
        window(center, 0) =~= seq![center],
{
    assert(window_side(0) == 1);
    assert(window_side(0) * window_side(0) == 1) by (nonlinear_arith)
        requires
            window_side(0) == 1,
    {
    }
    assert(window_coordinate(center, 0, 0) == center);
}

/// No coordinate occurs twice in a window.
pub proof fn lemma_window_no_duplicates(center: GridCoordinate, radius: int)
    requires
        window_in_grid(center, radius),
    ensures
        window(center, radius).no_duplicates(),
{
    let side = window_side(radius);
    let w = window(center, radius);
    assert forall|i: int, j: int| 0 <= i < w.len() && 0 <= j < w.len() && i != j implies w[i]
        != w[j] by {
        lemma_window_index_parts(radius, i);
        lemma_window_index_parts(radius, j);
        if i % side == j % side && i / side == j / side {
            vstd::arithmetic::div_mod::lemma_fundamental_div_mod(i, side);
            vstd::arithmetic::div_mod::lemma_fundamental_div_mod(j, side);
        }
    }
}

/// Row and column of the `i`-th window entry both lie below the window's side.
pub proof fn lemma_window_index_parts(radius: int, i: int)
    requires
        0 <= radius,
        0 <= i < window_side(radius) * window_side(radius),
    ensures
        0 <= i % window_side(radius) < window_side(radius),
        0 <= i / window_side(radius) < window_side(radius),
        i == (i / window_side(radius)) * window_side(radius) + i % window_side(radius),
{
    let side = window_side(radius);
    vstd::arithmetic::div_mod::lemma_fundamental_div_mod(i, side);
    vstd::arithmetic::div_mod::lemma_mod_bound(i, side);
    let q = i / side;
    assert(0 <= q < side) by (nonlinear_arith)
        requires
            side > 0,
            0 <= i < side * side,
            i == side * q + i % side,
            0 <= i % side < side,
    {
    }
    assert(side * q == q * side) by (nonlinear_arith);
}

/// Divides and rounds to the nearest integer; a tie goes away from zero.
pub fn divide_rounding(n: i32, d: i32) -> (q: i32)
    requires
        d > 0,
    ensures
        q == nearest_quotient(n as int, d as int),
{
    proof {
        lemma_nearest_quotient_bounds(n as int, d as int);
    }
    let wide: i64 = n as i64;
    let by: i64 = d as i64;
    if wide >= 0 {
        ((2 * wide + by) / (2 * by)) as i32
    } else {
        (-((2 * (-wide) + by) / (2 * by))) as i32
    }
}

/// The chunk whose centre is nearest to the viewpoint.
pub fn chunk_coordinates(v: Viewpoint, chunk_world_size: i32) -> (c: GridCoordinate)
    requires
        chunk_world_size > 0,
    ensures
        c == chunk_coordinate_at(v, chunk_world_size as int),
{
    GridCoordinate {
        x: divide_rounding(v.x, chunk_world_size),
        z: divide_rounding(v.z, chunk_world_size),
    }
}

/// The number of chunks that a view distance covers, rounded to the nearest chunk.
pub fn chunks_in_view_distance(view_distance: u32, chunk_world_size: i32) -> (r: u32)
    requires
        chunk_world_size > 0,
    ensures
        r == visible_radius(view_distance as int, chunk_world_size as int),
{
    proof {
        lemma_nearest_quotient_bounds(view_distance as int, chunk_world_size as int);
    }
    let wide: u64 = view_distance as u64;
    let by: u64 = chunk_world_size as u64;
    ((2 * wide + by) / (2 * by)) as u32
}

/// Tells whether the whole window around `center` lies on the grid.
pub fn window_fits(center: GridCoordinate, radius: u32) -> (fits: bool)
    ensures
        fits == window_in_grid(center, radius as int),
{
    let r: i64 = radius as i64;
    let x: i64 = center.x as i64;
    let z: i64 = center.z as i64;
    x - r >= i32::MIN as i64 && x + r <= i32::MAX as i64 && z - r >= i32::MIN as i64 && z + r
        <= i32::MAX as i64
}

/// Lists the window around `center` row by row, `x` running fastest.
pub fn visible_window(center: GridCoordinate, radius: u32) -> (coordinates: Vec<GridCoordinate>)
    requires
        window_in_grid(center, radius as int),
    ensures
        coordinates@ == window(center, radius as int),
{
    let r: i64 = radius as i64;
    let side: i64 = 2 * r + 1;
    let ghost target = window(center, radius as int);
    let mut coordinates: Vec<GridCoordinate> = Vec::new();
    let mut row: i64 = 0;
    while row < side
        invariant
            r == radius as int,
            side == window_side(r as int),
            window_in_grid(center, r as int),
            target == window(center, r as int),
            0 <= row <= side,
            coordinates@.len() == row * side,
            forall|k: int| 0 <= k < coordinates@.len() ==> coordinates@[k] == target[k],
        decreases side - row,
    {
        let mut column: i64 = 0;
        while column < side
            invariant
                r == radius as int,
                side == window_side(r as int),
                window_in_grid(center, r as int),
                target == window(center, r as int),
                0 <= row < side,
                0 <= column <= side,
                coordinates@.len() == row * side + column,
                forall|k: int| 0 <= k < coordinates@.len() ==> coordinates@[k] == target[k],
            decreases side - column,
        {
            let ghost i = row * side + column;
            proof {
                assert(0 <= i < side * side) by (nonlinear_arith)
                    requires
                        i == row * side + column,
                        0 <= row < side,
                        0 <= column < side,
                {
                }
                vstd::arithmetic::div_mod::lemma_fundamental_div_mod_converse(
                    i,
                    side as int,
                    row as int,
                    column as int,
                );
            }
            let c = GridCoordinate {
                x: (center.x as i64 - r + column) as i32,
                z: (center.z as i64 - r + row) as i32,
            };
            assert(c == target[i]);
            coordinates.push(c);
            column = column + 1;
        }
        proof {
            assert((row + 1) * side == row * side + side) by (nonlinear_arith);
        }
        row = row + 1;
    }
    assert(coordinates@ =~= target);
    coordinates
}

/// The number under which a coordinate is filed.
pub fn key_of(c: GridCoordinate) -> (key: u64)
    ensures
        key == coordinate_key(c),
{
    let high: u64 = (c.x as i64 + 0x8000_0000) as u64;
    let low: u64 = (c.z as i64 + 0x8000_0000) as u64;
    high * 0x1_0000_0000 + low
}

/// Where a chunk stands in the world.
pub fn chunk_position_in_world(c: GridCoordinate, chunk_world_size: i32) -> (p: WorldPosition)
    ensures
        p == chunk_world_position(c, chunk_world_size as int),
{
    proof {
        lemma_product_of_i32_fits(c.x as int, chunk_world_size as int);
        lemma_product_of_i32_fits(c.z as int, chunk_world_size as int);
    }
    WorldPosition {
        x: (c.x as i64) * (chunk_world_size as i64),
        y: 0,
        z: (c.z as i64) * (chunk_world_size as i64),
    }
}

/// The product of two 32-bit integers fits in 64 bits with room to spare.
pub proof fn lemma_product_of_i32_fits(a: int, b: int)
    requires
        i32::MIN <= a <= i32::MAX,
        i32::MIN <= b <= i32::MAX,
    ensures
        -0x4000_0000_0000_0000 <= a * b <= 0x4000_0000_0000_0000,
{
    assert(-0x4000_0000_0000_0000 <= a * b <= 0x4000_0000_0000_0000) by (nonlinear_arith)
        requires
            -0x8000_0000 <= a <= 0x8000_0000,
            -0x8000_0000 <= b <= 0x8000_0000,
    {
    }
}

/// Square of the distance from a viewpoint to a point of the world.
pub fn squared_distance(v: Viewpoint, p: WorldPosition) -> (d: u128)
    ensures
        d == distance_squared(v, p),
{
    let dx: i128 = v.x as i128 - p.x as i128;
    let dy: i128 = v.y as i128 - p.y as i128;
    let dz: i128 = v.z as i128 - p.z as i128;
    proof {
        lemma_square_bound(dx as int);
        lemma_square_bound(dy as int);
        lemma_square_bound(dz as int);
    }
    let sx: u128 = (dx * dx) as u128;
    let sy: u128 = (dy * dy) as u128;
    let sz: u128 = (dz * dz) as u128;
    sx + sy + sz
}

/// The square of a difference between a 32-bit and a 64-bit integer stays below 2^127.
pub proof fn lemma_square_bound(a: int)
    requires
        -0x8000_0000_8000_0000 <= a <= 0x8000_0000_8000_0000,
    ensures
        0 <= a * a <= 0x4000_0000_8000_0000_4000_0000_0000_0000,
{
    assert(0 <= a * a <= 0x8000_0000_8000_0000 * 0x8000_0000_8000_0000) by (nonlinear_arith)
        requires
            -0x8000_0000_8000_0000 <= a <= 0x8000_0000_8000_0000,
    {
    }
    assert(0x8000_0000_8000_0000 * 0x8000_0000_8000_0000 == 0x4000_0000_8000_0000_4000_0000_0000_0000int)
        by (nonlinear_arith);
}

} // verus!
