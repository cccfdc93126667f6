//! Tile addresses and their place on the spherical Mercator plane.

use vstd::arithmetic::power2::{
    lemma2_to64, lemma_pow2_pos, lemma_pow2_strictly_increases, lemma_pow2_unfold, pow2,
};
use vstd::prelude::*;

verus! {

/// Length of the equator on the spherical Mercator plane, in millimetres.
pub const PERIMETER: i64 = 40_075_016_686;

/// Half of `PERIMETER`: the distance from the origin to the edge of the world.
pub const HALF_PERIMETER: i64 = 20_037_508_343;

/// Number of pixels along one side of a tile.
pub const TILE_SIZE: usize = 256;

/// Deepest zoom level whose tiles a `u32` can still number.
pub const MAX_ZOOM: u32 = 32;

/// Largest magnitude of a coordinate, in millimetres. Sums of a few
/// coordinates below it fit a machine word.
pub const COORD_LIMIT: i64 = 1_125_899_906_842_624;

/// A coordinate that the library accepts.
pub open spec fn coord_ok(c: i64) -> bool {
    -COORD_LIMIT <= c <= COORD_LIMIT
}

/// The address of a tile: its column, its row and its zoom level.
#[derive(Debug, PartialEq, Eq, Structural, Clone, Copy)]
pub struct Tile {
    /// `x` coordinate of a tile
    pub x: u32,
    /// `y` coordinate of a tile
    pub y: u32,
    /// zoom level
    pub z: u32,
}

/// A rectangle on the spherical Mercator plane, in millimetres.
#[derive(Debug, PartialEq, Eq, Structural, Clone, Copy)]
pub struct Bbox {
    pub west: i64,
    pub south: i64,
    pub east: i64,
    pub north: i64,
}

impl Bbox {
    /// All four edges are coordinates that the library accepts.
    pub open spec fn wf(&self) -> bool {
        coord_ok(self.west) && coord_ok(self.south) && coord_ok(self.east) && coord_ok(self.north)
    }

    /// Tells whether all four edges are coordinates that the library accepts.
    pub fn is_valid(&self) -> (r: bool)
        ensures
            r == self.wf(),
    {
        -COORD_LIMIT <= self.west && self.west <= COORD_LIMIT && -COORD_LIMIT <= self.south
            && self.south <= COORD_LIMIT && -COORD_LIMIT <= self.east && self.east <= COORD_LIMIT
            && -COORD_LIMIT <= self.north && self.north <= COORD_LIMIT
    }
}

/// Easting of the `x`-th tile boundary at zoom `z`, counted from the west.
pub open spec fn world_x(x: int, z: nat) -> int {
    (x * PERIMETER) / (pow2(z) as int) - HALF_PERIMETER
}

/// Northing of the `y`-th tile boundary at zoom `z`, counted from the north.
pub open spec fn world_y(y: int, z: nat) -> int {
    HALF_PERIMETER - (y * PERIMETER) / (pow2(z) as int)
}

/// The rectangle that a tile covers: its north-west corner is the boundary
/// crossing `(x, y)`, its south-east corner the crossing `(x + 1, y + 1)`.
pub open spec fn bounds_of(t: Tile) -> Bbox {
    Bbox {
        west: world_x(t.x as int, t.z as nat) as i64,
        south: world_y(t.y + 1, t.z as nat) as i64,
        east: world_x(t.x + 1, t.z as nat) as i64,
        north: world_y(t.y as int, t.z as nat) as i64,
    }
}

/// A boundary inside the world lies within half a perimeter of the origin.
pub proof fn lemma_boundary_in_world(k: int, z: nat)
    requires
        0 <= k <= pow2(z),
    ensures
        0 <= (k * PERIMETER) / (pow2(z) as int) <= PERIMETER,
        -HALF_PERIMETER <= world_x(k, z) <= HALF_PERIMETER,
        -HALF_PERIMETER <= world_y(k, z) <= HALF_PERIMETER,
{
    lemma_pow2_pos(z);
    let n = pow2(z) as int;
    let p = PERIMETER as int;
    assert(0 <= (k * p) / n <= p) by (nonlinear_arith)
        requires
            0 <= k <= n,
            n > 0,
            p > 0,
    ;
}

/// Number of tiles along one side of the world at zoom `z`.
pub fn tiles_across(z: u32) -> (n: u64)
    requires
        z <= MAX_ZOOM,
    ensures
        n == pow2(z as nat),
        1 <= n <= 0x1_0000_0000,
{
    let mut n: u64 = 1;
    let mut i: u32 = 0;
    proof {
        lemma2_to64();
    }
    while i < z
        invariant
            i <= z <= MAX_ZOOM,
            n == pow2(i as nat),
            1 <= n <= 0x1_0000_0000,
            pow2(32) == 0x1_0000_0000,
        decreases z - i,
    {
        proof {
            lemma_pow2_unfold((i + 1) as nat);
            if i + 1 < 32 {
                lemma_pow2_strictly_increases((i + 1) as nat, 32);
            }
        }
        n = n * 2;
        i = i + 1;
    }
    n
}

/// Distance of the `k`-th tile boundary at zoom `z` from the first one.
fn boundary_offset(k: u64, z: u32) -> (r: i64)
    requires
        z <= MAX_ZOOM,
        k <= pow2(z as nat),
    ensures
        r == (k * PERIMETER) / (pow2(z as nat) as int),
        0 <= r <= PERIMETER,
{
    let n = tiles_across(z);
    proof {
        lemma_boundary_in_world(k as int, z as nat);
    }
    let wide: u128 = (k as u128) * (PERIMETER as u128);
    (wide / (n as u128)) as i64
}

/// Turns the boundary crossing `(x, y)` at zoom `z` into spherical Mercator
/// coordinates: the easting first, then the northing.
pub fn tile_to_3857(x: u32, y: u32, z: u32) -> (r: (i64, i64))
    requires
        z <= MAX_ZOOM,
        x <= pow2(z as nat),
        y <= pow2(z as nat),
    ensures
        r.0 == world_x(x as int, z as nat),
        r.1 == world_y(y as int, z as nat),
{
    let dx = boundary_offset(x as u64, z);
    let dy = boundary_offset(y as u64, z);
    (dx - HALF_PERIMETER, HALF_PERIMETER - dy)
}

impl Tile {
    /// The zoom level can be numbered and the tile lies inside the world.
    pub open spec fn wf(&self) -> bool {
        &&& self.z <= MAX_ZOOM
        &&& self.x < pow2(self.z as nat)
        &&& self.y < pow2(self.z as nat)
    }

    /// Tells whether the zoom level can be numbered and the tile lies inside
    /// the world.
    pub fn is_valid(&self) -> (r: bool)
        ensures
            r == self.wf(),
    {
        if self.z > MAX_ZOOM {
            return false;
        }
        let n = tiles_across(self.z);
        (self.x as u64) < n && (self.y as u64) < n
    }

    /// Returns the bounding box of the tile on the spherical Mercator plane.
    pub fn xy_bounds(&self) -> (b: Bbox)
        requires
            self.wf(),
        ensures
            b == bounds_of(*self),
            b.west == world_x(self.x as int, self.z as nat),
            b.east == world_x(self.x + 1, self.z as nat),
            b.north == world_y(self.y as int, self.z as nat),
            b.south == world_y(self.y + 1, self.z as nat),
            b.west <= b.east,
            b.south <= b.north,
            -HALF_PERIMETER <= b.west && b.east <= HALF_PERIMETER,
            -HALF_PERIMETER <= b.south && b.north <= HALF_PERIMETER,
            b.wf(),
    {
        let w = boundary_offset(self.x as u64, self.z);
        let e = boundary_offset(self.x as u64 + 1, self.z);
        let n = boundary_offset(self.y as u64, self.z);
        let s = boundary_offset(self.y as u64 + 1, self.z);
        proof {
            lemma_pow2_pos(self.z as nat);
            lemma_boundaries_ordered(self.x as int, self.z as nat);
            lemma_boundaries_ordered(self.y as int, self.z as nat);
        }
        Bbox {
            west: w - HALF_PERIMETER,
            south: HALF_PERIMETER - s,
            east: e - HALF_PERIMETER,
            north: HALF_PERIMETER - n,
        }
    }
}

/// Boundaries come in order: the next one is never nearer to the first.
pub proof fn lemma_boundaries_ordered(k: int, z: nat)
    requires
        0 <= k,
    ensures
        (k * PERIMETER) / (pow2(z) as int) <= ((k + 1) * PERIMETER) / (pow2(z) as int),
{
    lemma_pow2_pos(z);
    let n = pow2(z) as int;
    let p = PERIMETER as int;
    assert((k * p) / n <= ((k + 1) * p) / n) by (nonlinear_arith)
        requires
            0 <= k,
            n > 0,
            p > 0,
    ;
}

/// The `k`-th of the four tiles that divide a tile at the next zoom level:
/// the western two first, of each pair the northern one first.
pub open spec fn child_tile(t: Tile, k: int) -> Tile {
    Tile { x: (2 * t.x + k / 2) as u32, y: (2 * t.y + k % 2) as u32, z: (t.z + 1) as u32 }
}

/// The four tiles that divide a tile inside the world lie inside the world,
/// and their numbers fit a machine word.
pub proof fn lemma_child_tile_wf(t: Tile, k: int)
    requires
        t.wf(),
        t.z < MAX_ZOOM,
        0 <= k < 4,
    ensures
        child_tile(t, k).wf(),
        2 * t.x + 1 <= u32::MAX,
        2 * t.y + 1 <= u32::MAX,
        child_tile(t, k).x == 2 * t.x + k / 2,
        child_tile(t, k).y == 2 * t.y + k % 2,
        child_tile(t, k).z == t.z + 1,
{
    lemma2_to64();
    lemma_pow2_unfold((t.z + 1) as nat);
    if t.z < 31 {
        lemma_pow2_strictly_increases(t.z as nat, 31);
    }
}

/// A tile boundary keeps its place at the next zoom level, where it has
/// twice the number.
pub proof fn lemma_boundary_kept(k: int, z: nat)
    requires
        0 <= k <= pow2(z),
    ensures
        world_x(2 * k, z + 1) == world_x(k, z),
        world_y(2 * k, z + 1) == world_y(k, z),
{
    lemma_pow2_unfold(z + 1);
    lemma_pow2_pos(z);
    let n = pow2(z) as int;
    let a = k * PERIMETER;
    assert((2 * k) * PERIMETER == 2 * a) by (nonlinear_arith)
        requires
            a == k * PERIMETER,
    ;
    assert((2 * a) / (2 * n) == a / n) by (nonlinear_arith)
        requires
            n > 0,
            a >= 0,
    ;
}

/// The four tiles that divide a tile share its edges and meet in its
/// middle: together their boxes are its box.
pub proof fn lemma_children_share_edges(t: Tile)
    requires
        t.wf(),
        t.z < MAX_ZOOM,
    ensures
        bounds_of(child_tile(t, 0)).west == bounds_of(t).west,
        bounds_of(child_tile(t, 1)).west == bounds_of(t).west,
        bounds_of(child_tile(t, 2)).east == bounds_of(t).east,
        bounds_of(child_tile(t, 3)).east == bounds_of(t).east,
        bounds_of(child_tile(t, 0)).east == bounds_of(child_tile(t, 2)).west,
        bounds_of(child_tile(t, 1)).east == bounds_of(child_tile(t, 3)).west,
        bounds_of(child_tile(t, 0)).east == bounds_of(child_tile(t, 1)).east,
        bounds_of(child_tile(t, 0)).north == bounds_of(t).north,
        bounds_of(child_tile(t, 2)).north == bounds_of(t).north,
        bounds_of(child_tile(t, 1)).south == bounds_of(t).south,
        bounds_of(child_tile(t, 3)).south == bounds_of(t).south,
        bounds_of(child_tile(t, 0)).south == bounds_of(child_tile(t, 1)).north,
        bounds_of(child_tile(t, 2)).south == bounds_of(child_tile(t, 3)).north,
        bounds_of(child_tile(t, 0)).south == bounds_of(child_tile(t, 2)).south,
{
    let z = t.z as nat;
    lemma_child_tile_wf(t, 0);
    lemma_child_tile_wf(t, 1);
    lemma_child_tile_wf(t, 2);
    lemma_child_tile_wf(t, 3);
    lemma_pow2_unfold(z + 1);
    lemma_boundary_kept(t.x as int, z);
    lemma_boundary_kept(t.x + 1, z);
    lemma_boundary_kept(t.y as int, z);
    lemma_boundary_kept(t.y + 1, z);
    lemma_boundary_in_world(t.x as int, z);
    lemma_boundary_in_world(t.x + 1, z);
    lemma_boundary_in_world(t.y as int, z);
    lemma_boundary_in_world(t.y + 1, z);
    lemma_boundary_in_world(2 * t.x + 1, z + 1);
    lemma_boundary_in_world(2 * t.y + 1, z + 1);
    lemma_boundary_in_world(2 * t.x, z + 1);
    lemma_boundary_in_world(2 * t.y, z + 1);
    lemma_boundary_in_world(2 * t.x + 2, z + 1);
    lemma_boundary_in_world(2 * t.y + 2, z + 1);
}

} // verus!
