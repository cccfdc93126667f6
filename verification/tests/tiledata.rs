use tiler::axis::{check_axis, slice_axis};
use tiler::regrid::{
    center_of_cell, edge_of_cell, extent_between, find_upper_neighbour, interp_between,
};
use tiler::tile::TILE_SIZE;
use tiler::{Bbox, Tile, TileData, TileError};

const CELLS: usize = TILE_SIZE * TILE_SIZE;

fn some(values: &[i64]) -> Vec<Option<i64>> {
    values.iter().map(|v| Some(*v)).collect()
}

fn window(lat: Vec<i64>, lon: Vec<i64>, values: Vec<Option<i64>>, bbox: Bbox) -> TileData {
    TileData::new(lat, lon, values, bbox, Tile { x: 0, y: 0, z: 0 }).unwrap()
}

#[test]
fn grid_always_has_all_its_cells() {
    let bbox = Bbox { west: 0, south: 0, east: 2560, north: 2560 };
    let one = window(vec![5], vec![7], some(&[1]), bbox);
    assert_eq!(one.to_tile_grid().len(), CELLS);
    let few = window(vec![0, 1000, 2000], vec![0, 2000], some(&[1, 2, 3, 4, 5, 6]), bbox);
    assert_eq!(few.to_tile_grid().len(), CELLS);
    let away = Bbox { west: 900_000, south: 900_000, east: 900_100, north: 900_100 };
    let outside = window(vec![0, 1000, 2000], vec![0, 2000], some(&[1, 2, 3, 4, 5, 6]), away);
    let grid = outside.to_tile_grid();
    assert_eq!(grid.len(), CELLS);
    assert!(grid.iter().all(|v| v.is_none()));
}

#[test]
fn grid_of_many_samples_has_all_its_cells() {
    let lat: Vec<i64> = (0..300).map(|i| i * 10).collect();
    let lon: Vec<i64> = (0..300).map(|i| i * 10).collect();
    let values: Vec<Option<i64>> = vec![Some(5); 300 * 300];
    let bbox = Bbox { west: 0, south: 0, east: 2990, north: 2990 };
    let grid = window(lat, lon, values, bbox).to_tile_grid();
    assert_eq!(grid.len(), CELLS);
    assert!(grid.iter().all(|v| *v == Some(5)));
}

#[test]
fn collapsed_box_on_one_sample_gives_that_sample_everywhere() {
    // three by three samples, all zero but the one in the middle
    let mut values = some(&[0; 9]);
    values[4] = Some(7_000_000);
    let bbox = Bbox { west: 1000, south: 2000, east: 1000, north: 2000 };
    let data = window(vec![1000, 2000, 3000], vec![0, 1000, 2000], values, bbox);
    let grid = data.to_tile_grid();
    assert_eq!(grid.len(), CELLS);
    assert!(grid.iter().all(|v| *v == Some(7_000_000)));
}

#[test]
fn lone_sample_among_missing_ones_fills_the_box_around_it() {
    let mut values: Vec<Option<i64>> = vec![None; 9];
    values[4] = Some(7_000_000);
    let bbox = Bbox { west: 500, south: 1500, east: 1500, north: 2500 };
    let data = window(vec![1000, 2000, 3000], vec![0, 1000, 2000], values, bbox);
    let grid = data.to_tile_grid();
    assert!(grid.iter().all(|v| *v == Some(7_000_000)));
}

#[test]
fn interpolation_between_four_samples() {
    let bbox = Bbox { west: 0, south: 0, east: 1000, north: 1000 };
    let data = window(vec![0, 1000], vec![0, 1000], some(&[0, 100, 200, 300]), bbox);
    assert_eq!(data.interpolate_value_at(250, 500), Some(100));
    assert_eq!(data.interpolate_value_at(500, 500), Some(150));
    assert_eq!(data.interpolate_value_at(999, 1), Some(199));
    // on a sample
    assert_eq!(data.interpolate_value_at(0, 0), Some(0));
    assert_eq!(data.interpolate_value_at(1000, 1000), Some(300));
    // on a row of samples: along that row only
    assert_eq!(data.interpolate_value_at(0, 250), Some(25));
    assert_eq!(data.interpolate_value_at(1000, 250), Some(225));
    // on a column of samples: along that column only
    assert_eq!(data.interpolate_value_at(500, 1000), Some(200));
    // outside the samples: the closest one
    assert_eq!(data.interpolate_value_at(-50, -50), Some(0));
    assert_eq!(data.interpolate_value_at(5000, 5000), Some(300));
    assert_eq!(data.interpolate_value_at(-50, 500), Some(50));
}

#[test]
fn interpolation_on_falling_axes() {
    let bbox = Bbox { west: 0, south: 0, east: 1000, north: 1000 };
    // rows from north to south, columns from east to west
    let data = window(vec![1000, 0], vec![1000, 0], some(&[300, 200, 100, 0]), bbox);
    assert_eq!(data.interpolate_value_at(250, 500), Some(100));
    assert_eq!(data.interpolate_value_at(0, 250), Some(25));
    assert_eq!(data.interpolate_value_at(1000, 1000), Some(300));
}

#[test]
fn interpolation_with_missing_samples() {
    let bbox = Bbox { west: 0, south: 0, east: 1000, north: 1000 };
    let values = vec![Some(40), None, None, None];
    let data = window(vec![0, 1000], vec![0, 1000], values, bbox);
    assert_eq!(data.interpolate_value_at(900, 900), Some(40));
    let none = window(vec![0, 1000], vec![0, 1000], vec![None; 4], bbox);
    assert_eq!(none.interpolate_value_at(500, 500), None);
    let half = window(vec![0, 1000], vec![0, 1000], vec![Some(10), Some(20), None, None], bbox);
    assert_eq!(half.interpolate_value_at(700, 500), Some(15));
}

#[test]
fn blend_of_two_samples() {
    assert_eq!(interp_between(Some(0), 0, Some(100), 10, 3), Some(30));
    assert_eq!(interp_between(Some(100), 10, Some(0), 0, 3), Some(30));
    assert_eq!(interp_between(Some(7), 0, Some(9), 10, 0), Some(7));
    assert_eq!(interp_between(Some(7), 0, Some(9), 10, 10), Some(9));
    assert_eq!(interp_between(None, 0, Some(9), 10, 1), Some(9));
    assert_eq!(interp_between(Some(7), 0, None, 10, 9), Some(7));
    assert_eq!(interp_between(None, 0, None, 10, 5), None);
    // rounded towards zero
    assert_eq!(interp_between(Some(0), 0, Some(1), 3, 2), Some(0));
    assert_eq!(interp_between(Some(0), 0, Some(-1), 3, 2), Some(0));
    assert_eq!(interp_between(Some(-10), 0, Some(-5), 4, 1), Some(-8));
    // the largest values and distances
    assert_eq!(
        interp_between(Some(i64::MAX), i64::MIN, Some(i64::MAX), i64::MAX, 0),
        Some(i64::MAX)
    );
    assert_eq!(
        interp_between(Some(i64::MIN), i64::MIN, Some(i64::MIN), i64::MAX, 5),
        Some(i64::MIN)
    );
}

#[test]
fn average_over_a_stretch() {
    let bbox = Bbox { west: 0, south: 0, east: 20, north: 20 };
    let data = window(vec![0, 10, 20], vec![0, 10, 20], some(&[1, 2, 3, 4, 5, 6, 7, 8, 9]), bbox);
    assert_eq!(data.resample_average(0, 10, 0, 10), Some(3));
    assert_eq!(data.resample_average(0, 20, 0, 20), Some(5));
    assert_eq!(data.resample_average(10, 10, 10, 10), Some(5));
    // from the floor of the lower bound to the ceiling of the upper bound
    assert_eq!(data.resample_average(11, 12, 11, 12), Some(7));
    assert_eq!(data.resample_average(-100, -50, 0, 0), Some(1));
    // the bounds the other way round
    assert_eq!(data.resample_average(10, 0, 10, 0), Some(3));
}

#[test]
fn average_leaves_out_missing_samples() {
    let bbox = Bbox { west: 0, south: 0, east: 10, north: 10 };
    let data = window(vec![0, 10], vec![0, 10], vec![Some(4), None, None, Some(9)], bbox);
    assert_eq!(data.resample_average(0, 10, 0, 10), Some(6));
    assert_eq!(data.resample_average(0, 0, 10, 10), None);
    let negative = window(vec![0, 10], vec![0, 10], vec![Some(-1), Some(-2), None, None], bbox);
    // rounded towards zero
    assert_eq!(negative.resample_average(0, 10, 0, 10), Some(-1));
    let extreme = window(vec![0, 10], vec![0, 10], vec![Some(i64::MIN); 4], bbox);
    assert_eq!(extreme.resample_average(0, 10, 0, 10), Some(i64::MIN));
}

#[test]
fn grid_rows_run_from_north_to_south() {
    // two rows of samples: 0 in the south, 1000 in the north
    let bbox = Bbox { west: 0, south: 0, east: 2560, north: 2560 };
    let data = window(vec![0, 2560], vec![0, 2560], some(&[0, 0, 1000, 1000]), bbox);
    let grid = data.to_tile_grid();
    // centre of the first row is 5 below the northern edge
    assert_eq!(grid[0], Some(998));
    assert_eq!(grid[255], Some(998));
    assert_eq!(grid[255 * 256], Some(1));
    assert_eq!(grid[127 * 256 + 9], Some(501));
}

#[test]
fn grid_columns_run_from_west_to_east() {
    let bbox = Bbox { west: 0, south: 0, east: 2560, north: 2560 };
    let data = window(vec![0, 2560], vec![0, 2560], some(&[0, 1000, 0, 1000]), bbox);
    let grid = data.to_tile_grid();
    assert_eq!(grid[0], Some(1));
    assert_eq!(grid[255], Some(998));
    assert_eq!(grid[77 * 256 + 128], Some(501));
}

#[test]
fn cells_outside_the_samples_are_missing() {
    // samples cover the western half of the box only
    let bbox = Bbox { west: 0, south: 0, east: 5120, north: 2560 };
    let data = window(vec![0, 2560], vec![0, 2560], some(&[8, 8, 8, 8]), bbox);
    let grid = data.to_tile_grid();
    // centres run 10, 30, ..; the samples end at 2560, half a pixel more is 2570
    assert_eq!(grid[127], Some(8));
    assert_eq!(grid[128], Some(8));
    assert_eq!(grid[129], None);
    assert_eq!(grid[255], None);
}

#[test]
fn dense_grid_averages_each_pixel() {
    // 512 by 512 samples over 256 by 256 pixels: four samples in a pixel,
    // and its neighbours as far as the brackets reach
    let lat: Vec<i64> = (0..512).map(|i| i * 10 + 5).collect();
    let lon: Vec<i64> = (0..512).map(|i| i * 10 + 5).collect();
    let mut values: Vec<Option<i64>> = Vec::new();
    for i in 0..512i64 {
        for _ in 0..512 {
            values.push(Some(i * 100));
        }
    }
    let bbox = Bbox { west: 0, south: 0, east: 5120, north: 5120 };
    let data = window(lat, lon, values, bbox);
    let grid = data.to_tile_grid();
    // southernmost pixel row: from 0 to 20; the floor of 0 is the first row
    // of samples (at 5), the ceiling of 20 the third (at 25)
    assert_eq!(grid[255 * 256], Some(100));
    // a row in the middle: from 2000 to 2020, rows of samples 199 to 202
    assert_eq!(grid[(255 - 100) * 256 + 40], Some(20_050));
    assert_eq!(data.resample_average(2000, 2020, 400, 420), Some(20_050));
}

#[test]
fn cells_of_a_stretch() {
    assert_eq!(extent_between(-5, 20), 25);
    assert_eq!(extent_between(20, -5), 25);
    assert_eq!(center_of_cell(0, 2560, 0), 5);
    assert_eq!(center_of_cell(0, 2560, 255), 2555);
    assert_eq!(center_of_cell(-100, 256, 3), -97);
    assert_eq!(center_of_cell(7, 0, 200), 7);
    assert_eq!(edge_of_cell(0, 2560, 0), 0);
    assert_eq!(edge_of_cell(0, 2560, 256), 2560);
    assert_eq!(edge_of_cell(10, 100, 128), 60);
}

#[test]
fn neighbours_and_slices_of_an_axis() {
    let rising = vec![1, 5, 9];
    assert_eq!(find_upper_neighbour(&rising, 0), Some(1));
    assert_eq!(find_upper_neighbour(&rising, 1), Some(2));
    assert_eq!(find_upper_neighbour(&rising, 2), None);
    let falling = vec![9, 5, 1];
    assert_eq!(find_upper_neighbour(&falling, 0), None);
    assert_eq!(find_upper_neighbour(&falling, 2), Some(1));
    assert_eq!(slice_axis(&rising, 1, 2), vec![5, 9]);
    assert_eq!(slice_axis(&rising, 0, 0), vec![1]);
    assert!(check_axis(&rising));
    assert!(!check_axis(&vec![]));
    assert!(!check_axis(&vec![1, 1]));
    assert!(!check_axis(&vec![0, i64::MAX]));
}

#[test]
fn windows_are_checked() {
    let bbox = Bbox { west: 0, south: 0, east: 10, north: 10 };
    let tile = Tile { x: 0, y: 0, z: 0 };
    assert!(matches!(
        TileData::new(vec![0, 1], vec![0, 1], some(&[1, 2, 3]), bbox, tile),
        Err(TileError::InputGeometry)
    ));
    assert!(matches!(
        TileData::new(vec![], vec![0, 1], vec![], bbox, tile),
        Err(TileError::InputGeometry)
    ));
    assert!(matches!(
        TileData::new(vec![0, 1], vec![3, 2, 2], some(&[0; 6]), bbox, tile),
        Err(TileError::InputGeometry)
    ));
    let wide = Bbox { west: i64::MIN, south: 0, east: 10, north: 10 };
    assert!(matches!(
        TileData::new(vec![0, 1], vec![0, 1], some(&[0; 4]), wide, tile),
        Err(TileError::InputGeometry)
    ));
    let data = TileData::new(vec![4, 1], vec![0, 7], some(&[1, 2, 3, 4]), bbox, tile).unwrap();
    assert_eq!((data.min_lat, data.max_lat, data.min_lon, data.max_lon), (1, 4, 0, 7));
    assert_eq!(data.value_at(1, 0), Some(3));
    assert_eq!(data.window_values(0, 1, 1, 1), some(&[2, 4]));
}

/// Samples on a grid that covers the world, a row and a column every
/// 5000 km; the sample is ten times the row plus the column.
fn world() -> TileData {
    let axis: Vec<i64> = (-4..=4).map(|i| i * 5_000_000_000).collect();
    let mut values = Vec::new();
    for i in 0..9 {
        for j in 0..9 {
            values.push(Some(i * 10 + j));
        }
    }
    let tile = Tile { x: 0, y: 0, z: 0 };
    TileData::new(axis.clone(), axis, values, tile.xy_bounds(), tile).unwrap()
}

#[test]
fn four_windows_of_the_next_level() {
    let subs = world().sub_tiledata();
    assert_eq!(subs.len(), 4);
    let tiles: Vec<Tile> = subs.iter().map(|s| s.tile).collect();
    assert_eq!(
        tiles,
        vec![
            Tile { x: 0, y: 0, z: 1 },
            Tile { x: 0, y: 1, z: 1 },
            Tile { x: 1, y: 0, z: 1 },
            Tile { x: 1, y: 1, z: 1 }
        ]
    );
    for sub in subs.iter() {
        assert_eq!(sub.bbox, sub.tile.xy_bounds());
        assert_eq!(sub.values.len(), sub.lat.len() * sub.lon.len());
    }
    // the north-western tile: rows from the origin to the north, columns
    // from the west to the origin, each one past the edge of the world
    let nw = &subs[0];
    assert_eq!(nw.lat, vec![0, 5_000_000_000, 10_000_000_000, 15_000_000_000, 20_000_000_000]);
    assert_eq!(
        nw.lon,
        vec![-20_000_000_000, -15_000_000_000, -10_000_000_000, -5_000_000_000, 0]
    );
    assert_eq!(nw.values[0], Some(40));
    assert_eq!(nw.values[4], Some(44));
    assert_eq!(nw.values[24], Some(84));
    assert_eq!((nw.min_lat, nw.max_lat), (0, 20_000_000_000));
    let se = &subs[3];
    assert_eq!(se.values[0], Some(4));
    assert_eq!(se.values[24], Some(48));
}

#[test]
fn cut_for_a_deeper_tile() {
    let data = world();
    let tile = Tile { x: 2, y: 1, z: 2 };
    let sub = data.cut(tile);
    assert_eq!(sub.tile, tile);
    assert_eq!(sub.bbox, tile.xy_bounds());
    // the box runs from 0 to 10018754171 east and from 0 to 10018754172 north
    assert_eq!(sub.lon, vec![0, 5_000_000_000, 10_000_000_000, 15_000_000_000]);
    assert_eq!(sub.lat, vec![0, 5_000_000_000, 10_000_000_000, 15_000_000_000]);
    assert_eq!(sub.values[0], Some(44));
    assert_eq!(sub.values[15], Some(77));
}

#[test]
fn cut_on_falling_axes() {
    let axis: Vec<i64> = (-4..=4).rev().map(|i| i * 5_000_000_000).collect();
    let values: Vec<Option<i64>> = (0..81).map(|k| Some(k)).collect();
    let tile = Tile { x: 0, y: 0, z: 0 };
    let data = TileData::new(axis.clone(), axis, values, tile.xy_bounds(), tile).unwrap();
    let sub = data.cut(Tile { x: 0, y: 0, z: 1 });
    // rows from the north down to the origin, columns from the origin to the west
    assert_eq!(sub.lat, vec![20_000_000_000, 15_000_000_000, 10_000_000_000, 5_000_000_000, 0]);
    assert_eq!(
        sub.lon,
        vec![0, -5_000_000_000, -10_000_000_000, -15_000_000_000, -20_000_000_000]
    );
    assert_eq!(sub.values[0], Some(4));
    assert_eq!(sub.values[24], Some(44));
}

#[test]
fn grid_does_not_depend_on_the_direction_of_the_axes() {
    let bbox = Bbox { west: 0, south: 0, east: 2560, north: 2560 };
    let rising = window(vec![0, 1280, 2560], vec![0, 2560], some(&[0, 10, 500, 510, 1000, 1010]), bbox);
    let falling =
        window(vec![2560, 1280, 0], vec![2560, 0], some(&[1010, 1000, 510, 500, 10, 0]), bbox);
    let a = rising.to_tile_grid();
    let b = falling.to_tile_grid();
    assert_eq!(a, b);
    // north-western pixel: close to the sample 1000 at the north-western corner
    assert_eq!(a[0], Some(998));
    // south-eastern pixel: close to the sample 10 at the south-eastern corner
    assert_eq!(a[CELLS - 1], Some(10));
}

#[test]
fn dense_grid_does_not_depend_on_the_direction_of_the_axes() {
    let lat: Vec<i64> = (0..300).map(|i| i * 10).collect();
    let lon: Vec<i64> = (0..300).map(|i| i * 10).collect();
    let mut values: Vec<Option<i64>> = Vec::new();
    for i in 0..300i64 {
        for j in 0..300i64 {
            values.push(if (i + j) % 7 == 0 { None } else { Some(i * 1000 - j * 3) });
        }
    }
    let bbox = Bbox { west: 100, south: 50, east: 2900, north: 2950 };
    let rising = window(lat.clone(), lon.clone(), values.clone(), bbox);
    let lat_back: Vec<i64> = lat.iter().rev().cloned().collect();
    let lon_back: Vec<i64> = lon.iter().rev().cloned().collect();
    let values_back: Vec<Option<i64>> = values.iter().rev().cloned().collect();
    let falling = window(lat_back, lon_back, values_back, bbox);
    assert_eq!(rising.to_tile_grid(), falling.to_tile_grid());
}

#[test]
fn windows_of_the_next_level_hold_every_sample_in_the_box() {
    let data = world();
    let subs = data.sub_tiledata();
    let bbox = data.tile.xy_bounds();
    for (i, lat) in data.lat.iter().enumerate() {
        for (j, lon) in data.lon.iter().enumerate() {
            if bbox.south <= *lat && *lat <= bbox.north && bbox.west <= *lon && *lon <= bbox.east {
                let value = data.value_at(i, j);
                let held = subs.iter().any(|sub| {
                    let a = sub.lat.iter().position(|y| y == lat);
                    let b = sub.lon.iter().position(|x| x == lon);
                    match (a, b) {
                        (Some(a), Some(b)) => sub.value_at(a, b) == value,
                        _ => false,
                    }
                });
                assert!(held);
            }
        }
    }
}
