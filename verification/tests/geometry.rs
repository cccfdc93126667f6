use tiler::tile::{tile_to_3857, tiles_across, HALF_PERIMETER, PERIMETER};
use tiler::{Bbox, Tile};

#[test]
fn world_tile_covers_the_whole_plane() {
    let tile = Tile { x: 0, y: 0, z: 0 };
    assert!(tile.is_valid());
    assert_eq!(
        tile.xy_bounds(),
        Bbox {
            west: -20_037_508_343,
            south: -20_037_508_343,
            east: 20_037_508_343,
            north: 20_037_508_343
        }
    );
}

#[test]
fn centre_of_the_world_is_the_origin() {
    assert_eq!(tile_to_3857(1, 1, 1), (0, 0));
    assert_eq!(tile_to_3857(0, 0, 1), (-HALF_PERIMETER, HALF_PERIMETER));
    assert_eq!(tile_to_3857(2, 2, 1), (HALF_PERIMETER, -HALF_PERIMETER));
    assert_eq!(PERIMETER, 2 * HALF_PERIMETER);
}

#[test]
fn bounds_of_a_tile_at_zoom_five() {
    let tile = Tile { x: 23, y: 7, z: 5 };
    assert_eq!(
        tile.xy_bounds(),
        Bbox {
            west: 8_766_409_900,
            south: 10_018_754_172,
            east: 10_018_754_171,
            north: 11_271_098_443
        }
    );
}

#[test]
fn neighbouring_tiles_share_an_edge() {
    let left = Tile { x: 485, y: 332, z: 10 }.xy_bounds();
    let right = Tile { x: 486, y: 332, z: 10 }.xy_bounds();
    let below = Tile { x: 485, y: 333, z: 10 }.xy_bounds();
    assert_eq!(left.east, right.west);
    assert_eq!(left.south, below.north);
    assert!(left.west < left.east);
    assert!(left.south < left.north);
}

#[test]
fn tiles_outside_the_world_are_not_valid() {
    assert!(!Tile { x: 5, y: 4, z: 2 }.is_valid());
    assert!(!Tile { x: 0, y: 1, z: 0 }.is_valid());
    assert!(!Tile { x: 0, y: 0, z: 33 }.is_valid());
    assert!(Tile { x: 3, y: 3, z: 2 }.is_valid());
    assert!(Tile { x: u32::MAX, y: u32::MAX, z: 32 }.is_valid());
}

#[test]
fn deepest_zoom_still_has_bounds() {
    let tile = Tile { x: u32::MAX, y: u32::MAX, z: 32 };
    let b = tile.xy_bounds();
    assert_eq!(b.east, HALF_PERIMETER);
    assert_eq!(b.south, -HALF_PERIMETER);
    assert_eq!(b.west, HALF_PERIMETER - 10);
    assert_eq!(tiles_across(32), 1u64 << 32);
    assert_eq!(tiles_across(0), 1);
}

#[test]
fn bbox_limits() {
    let inside = Bbox { west: -5, south: -5, east: 5, north: 5 };
    assert!(inside.is_valid());
    let outside = Bbox { west: -5, south: -5, east: i64::MAX, north: 5 };
    assert!(!outside.is_valid());
}
