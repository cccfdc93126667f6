//! A window of samples cut out for one tile, its regridding to the fixed
//! pixel grid of a tile, and its division into the windows of the next
//! zoom level.

use crate::axis::{axis_ok, check_axis, greater, lemma_slice_axis_ok, lesser, slice_axis};
use crate::error::TileError;
use crate::regrid::{
    blend, cell, cell_center, cell_edge, center_of_cell, edge_of_cell, extent_between,
    find_upper_neighbour, interp_between, lemma_cell_in_buffer, lemma_partner_above,
    lemma_quotient_between, partner, rect_average, rect_count, rect_sum, row_count, row_sum,
};
use crate::tile::{
    bounds_of, child_tile, lemma_child_tile_wf, lemma_children_share_edges, Bbox, Tile, MAX_ZOOM,
    TILE_SIZE,
};
use crate::utils::{
    ceil_index, floor_index, gap, lemma_bracket_holds, search_closest_idx_below,
    search_closest_idx_over,
};
use vstd::prelude::*;

verus! {

/// The samples of the rows `row0 .. row0 + rows` and the columns
/// `col0 .. col0 + cols`, cut out of a buffer with `width` cells in a row.
pub open spec fn is_window(
    out: Seq<Option<i64>>,
    values: Seq<Option<i64>>,
    width: int,
    row0: int,
    rows: int,
    col0: int,
    cols: int,
) -> bool {
    &&& out.len() == rows * cols
    &&& forall|a: int, b: int|
        0 <= a < rows && 0 <= b < cols ==> #[trigger] out[cell(a, b, cols)] == values[cell(
            row0 + a,
            col0 + b,
            width,
        )]
}

/// Holds data and provides methods to regrid data into a 256 x 256 grid.
#[derive(Debug)]
pub struct TileData {
    /// Northings of the sample rows, in millimetres
    pub lat: Vec<i64>,
    pub min_lat: i64,
    pub max_lat: i64,
    /// Eastings of the sample columns, in millimetres
    pub lon: Vec<i64>,
    pub min_lon: i64,
    pub max_lon: i64,
    /// Samples in millionths, row by row (lat, lon); `None` where there is none
    pub values: Vec<Option<i64>>,
    pub bbox: Bbox,
    pub tile: Tile,
}

impl TileData {
    /// Both axes are usable, there is one sample for each pair of
    /// coordinates, and the recorded extremes are those of the axes.
    pub open spec fn wf(&self) -> bool {
        &&& axis_ok(self.lat@)
        &&& axis_ok(self.lon@)
        &&& self.values@.len() == self.lat@.len() * self.lon@.len()
        &&& self.min_lat == lesser(self.lat@[0], self.lat@[self.lat@.len() - 1])
        &&& self.max_lat == greater(self.lat@[0], self.lat@[self.lat@.len() - 1])
        &&& self.min_lon == lesser(self.lon@[0], self.lon@[self.lon@.len() - 1])
        &&& self.max_lon == greater(self.lon@[0], self.lon@[self.lon@.len() - 1])
        &&& self.bbox.wf()
    }

    /// The sample at a row and a column.
    pub open spec fn sample(&self, lat_idx: int, lon_idx: int) -> Option<i64> {
        self.values@[cell(lat_idx, lon_idx, self.lon@.len() as int)]
    }

    /// Puts a window together from its axes and samples. It is refused as
    /// bad geometry where an axis is unusable, the number of samples is not
    /// the product of the axes' lengths, or the box exceeds the limits.
    pub fn new(lat: Vec<i64>, lon: Vec<i64>, values: Vec<Option<i64>>, bbox: Bbox, tile: Tile) -> (r:
        Result<TileData, TileError>)
        ensures
            r.is_ok() <==> axis_ok(lat@) && axis_ok(lon@) && values@.len() == lat@.len()
                * lon@.len() && bbox.wf(),
            r matches Ok(d) ==> d.wf() && d.lat@ == lat@ && d.lon@ == lon@ && d.values@
                == values@ && d.bbox == bbox && d.tile == tile,
            r matches Err(e) ==> e == TileError::InputGeometry,
    {
        if !check_axis(&lat) || !check_axis(&lon) || !bbox.is_valid() {
            return Err(TileError::InputGeometry);
        }
        let rows = lat.len() as u128;
        let cols = lon.len() as u128;
        assert(rows * cols <= 0xffff_ffff_ffff_ffff * 0xffff_ffff_ffff_ffff) by (nonlinear_arith)
            requires
                rows <= 0xffff_ffff_ffff_ffff,
                cols <= 0xffff_ffff_ffff_ffff,
        ;
        let wide: u128 = rows * cols;
        if wide != values.len() as u128 {
            return Err(TileError::InputGeometry);
        }
        let lat_first = lat[0];
        let lat_last = lat[lat.len() - 1];
        let lon_first = lon[0];
        let lon_last = lon[lon.len() - 1];
        Ok(
            TileData {
                min_lat: if lat_first <= lat_last { lat_first } else { lat_last },
                max_lat: if lat_first >= lat_last { lat_first } else { lat_last },
                lat,
                min_lon: if lon_first <= lon_last { lon_first } else { lon_last },
                max_lon: if lon_first >= lon_last { lon_first } else { lon_last },
                lon,
                values,
                bbox,
                tile,
            },
        )
    }

    /// Return the value of self.values as if it was a bi-dimensional array.
    pub fn value_at(&self, lat_idx: usize, lon_idx: usize) -> (v: Option<i64>)
        requires
            self.values@.len() == self.lat@.len() * self.lon@.len(),
            lat_idx < self.lat@.len(),
            lon_idx < self.lon@.len(),
        ensures
            v == self.sample(lat_idx as int, lon_idx as int),
    {
        proof {
            lemma_cell_in_buffer(
                lat_idx as int,
                lon_idx as int,
                self.lat@.len() as int,
                self.lon@.len() as int,
            );
        }
        let total = self.values.len();
        assert(lat_idx * self.lon@.len() + lon_idx < total);
        self.values[lat_idx * self.lon.len() + lon_idx]
    }

    /// Mean of the samples that bracket the stretch `lat_lo ..= lat_hi` of
    /// the one axis and `lon_lo ..= lon_hi` of the other: from the floor of
    /// the lower bound to the ceiling of the upper bound on each axis.
    pub open spec fn average_over(&self, lat_lo: int, lat_hi: int, lon_lo: int, lon_hi: int) -> Option<
        i64,
    > {
        let a = floor_index(self.lat@, lat_lo);
        let b = ceil_index(self.lat@, lat_hi);
        let c = floor_index(self.lon@, lon_lo);
        let d = ceil_index(self.lon@, lon_hi);
        rect_average(
            self.values@,
            self.lon@.len() as int,
            if a <= b { a } else { b },
            if a <= b { b } else { a },
            if c <= d { c } else { d },
            if c <= d { d } else { c },
        )
    }

    /// The value at a point, interpolated between the floor sample on each
    /// axis and its partner; along one axis only where the other has no
    /// partner, and the floor sample itself where neither has one.
    pub open spec fn interpolated(&self, lat: int, lon: int) -> Option<i64> {
        let i = floor_index(self.lat@, lat);
        let j = floor_index(self.lon@, lon);
        match (partner(self.lat@, i, lat), partner(self.lon@, j, lon)) {
            (Some(i2), Some(j2)) => blend(
                blend(
                    self.sample(i, j),
                    self.lon@[j] as int,
                    self.sample(i, j2),
                    self.lon@[j2] as int,
                    lon,
                ),
                self.lat@[i] as int,
                blend(
                    self.sample(i2, j),
                    self.lon@[j] as int,
                    self.sample(i2, j2),
                    self.lon@[j2] as int,
                    lon,
                ),
                self.lat@[i2] as int,
                lat,
            ),
            (None, Some(j2)) => blend(
                self.sample(i, j),
                self.lon@[j] as int,
                self.sample(i, j2),
                self.lon@[j2] as int,
                lon,
            ),
            (Some(i2), None) => blend(
                self.sample(i, j),
                self.lat@[i] as int,
                self.sample(i2, j),
                self.lat@[i2] as int,
                lat,
            ),
            (None, None) => self.sample(i, j),
        }
    }

    /// Height of the box.
    pub open spec fn height(&self) -> int {
        gap(self.bbox.north as int, self.bbox.south as int)
    }

    /// Width of the box.
    pub open spec fn width(&self) -> int {
        gap(self.bbox.east as int, self.bbox.west as int)
    }

    /// Northing of the centres of a pixel row; row 0 is the northernmost.
    pub open spec fn row_lat(&self, row: int) -> int {
        cell_center(self.bbox.south as int, self.height(), TILE_SIZE - 1 - row)
    }

    /// Easting of the centres of a pixel column; column 0 is the westernmost.
    pub open spec fn col_lon(&self, col: int) -> int {
        cell_center(self.bbox.west as int, self.width(), col)
    }

    /// The point lies within the samples' extent, widened by half a pixel.
    pub open spec fn in_envelope(&self, lat: int, lon: int) -> bool {
        &&& self.min_lat - self.height() / 512 <= lat <= self.max_lat + self.height() / 512
        &&& self.min_lon - self.width() / 512 <= lon <= self.max_lon + self.width() / 512
    }

    /// There are more samples than pixels, so each pixel averages samples.
    pub open spec fn oversampled(&self) -> bool {
        self.values@.len() > TILE_SIZE * TILE_SIZE
    }

    /// The value of the pixel at `(row, col)`: missing outside the envelope;
    /// the mean over the pixel's extent where samples outnumber pixels; the
    /// interpolation at the pixel's centre otherwise.
    pub open spec fn grid_cell(&self, row: int, col: int) -> Option<i64> {
        let lat = self.row_lat(row);
        let lon = self.col_lon(col);
        if !self.in_envelope(lat, lon) {
            None
        } else if self.oversampled() {
            self.average_over(
                cell_edge(self.bbox.south as int, self.height(), TILE_SIZE - 1 - row),
                cell_edge(self.bbox.south as int, self.height(), TILE_SIZE - row),
                cell_edge(self.bbox.west as int, self.width(), col),
                cell_edge(self.bbox.west as int, self.width(), col + 1),
            )
        } else {
            self.interpolated(lat, lon)
        }
    }

    /// Regrids the samples into a TILE_SIZE x TILE_SIZE grid, row by row
    /// from the northern edge of the box, each row from the western edge.
    pub fn to_tile_grid(&self) -> (grid: Vec<Option<i64>>)
        requires
            self.wf(),
        ensures
            grid@.len() == TILE_SIZE * TILE_SIZE,
            forall|row: int, col: int|
                0 <= row < TILE_SIZE && 0 <= col < TILE_SIZE ==> #[trigger] grid@[cell(
                    row,
                    col,
                    TILE_SIZE as int,
                )] == self.grid_cell(row, col),
    {
        let h = extent_between(self.bbox.north, self.bbox.south);
        let w = extent_between(self.bbox.east, self.bbox.west);
        let lat_min: i64 = self.min_lat - h / 512;
        let lat_max: i64 = self.max_lat + h / 512;
        let lon_min: i64 = self.min_lon - w / 512;
        let lon_max: i64 = self.max_lon + w / 512;
        let dense = self.values.len() > TILE_SIZE * TILE_SIZE;
        let mut grid: Vec<Option<i64>> = Vec::with_capacity(TILE_SIZE * TILE_SIZE);
        let mut row: usize = 0;
        while row < TILE_SIZE
            invariant
                self.wf(),
                row <= TILE_SIZE,
                h == self.height(),
                w == self.width(),
                lat_min == self.min_lat - self.height() / 512,
                lat_max == self.max_lat + self.height() / 512,
                lon_min == self.min_lon - self.width() / 512,
                lon_max == self.max_lon + self.width() / 512,
                dense == self.oversampled(),
                grid@.len() == cell(row as int, 0, TILE_SIZE as int),
                forall|r: int, c: int|
                    0 <= r < row && 0 <= c < TILE_SIZE ==> #[trigger] grid@[cell(
                        r,
                        c,
                        TILE_SIZE as int,
                    )] == self.grid_cell(r, c),
            decreases TILE_SIZE - row,
        {
            let i: usize = TILE_SIZE - 1 - row;
            let lat = center_of_cell(self.bbox.south, h, i);
            let mut col: usize = 0;
            while col < TILE_SIZE
                invariant
                    self.wf(),
                    row < TILE_SIZE,
                    col <= TILE_SIZE,
                    i == TILE_SIZE - 1 - row,
                    h == self.height(),
                    w == self.width(),
                    lat == self.row_lat(row as int),
                    lat_min == self.min_lat - self.height() / 512,
                    lat_max == self.max_lat + self.height() / 512,
                    lon_min == self.min_lon - self.width() / 512,
                    lon_max == self.max_lon + self.width() / 512,
                    dense == self.oversampled(),
                    grid@.len() == cell(row as int, col as int, TILE_SIZE as int),
                    forall|r: int, c: int|
                        0 <= r < row && 0 <= c < TILE_SIZE ==> #[trigger] grid@[cell(
                            r,
                            c,
                            TILE_SIZE as int,
                        )] == self.grid_cell(r, c),
                    forall|c: int|
                        0 <= c < col ==> #[trigger] grid@[cell(row as int, c, TILE_SIZE as int)]
                            == self.grid_cell(row as int, c),
                decreases TILE_SIZE - col,
            {
                let lon = center_of_cell(self.bbox.west, w, col);
                let v = if lat >= lat_min && lat <= lat_max && lon >= lon_min && lon <= lon_max {
                    if dense {
                        self.resample_average(
                            edge_of_cell(self.bbox.south, h, i),
                            edge_of_cell(self.bbox.south, h, i + 1),
                            edge_of_cell(self.bbox.west, w, col),
                            edge_of_cell(self.bbox.west, w, col + 1),
                        )
                    } else {
                        self.interpolate_value_at(lat, lon)
                    }
                } else {
                    None
                };
                assert(v == self.grid_cell(row as int, col as int));
                grid.push(v);
                col += 1;
            }
            row += 1;
        }
        grid
    }

    /// Fetch and compute the average of all samples that bracket the
    /// stretch `lat_lo ..= lat_hi` by `lon_lo ..= lon_hi`. Missing samples
    /// are left out; without any sample present the average is missing.
    pub fn resample_average(&self, lat_lo: i64, lat_hi: i64, lon_lo: i64, lon_hi: i64) -> (v: Option<
        i64,
    >)
        requires
            self.wf(),
        ensures
            v == self.average_over(lat_lo as int, lat_hi as int, lon_lo as int, lon_hi as int),
    {
        let a = search_closest_idx_below(self.lat.as_slice(), lat_lo).unwrap();
        let b = search_closest_idx_over(self.lat.as_slice(), lat_hi).unwrap();
        let c = search_closest_idx_below(self.lon.as_slice(), lon_lo).unwrap();
        let d = search_closest_idx_over(self.lon.as_slice(), lon_hi).unwrap();
        let (row0, row1) = if a <= b { (a, b) } else { (b, a) };
        let (col0, col1) = if c <= d { (c, d) } else { (d, c) };
        let nrows = self.lat.len();
        let ncols = self.lon.len();
        let total = self.values.len();
        let ghost width = ncols as int;
        let mut sum: i128 = 0;
        let mut count: usize = 0;
        let mut i: usize = row0;
        while i <= row1
            invariant
                total == nrows * ncols,
                total == self.values@.len(),
                nrows == self.lat@.len(),
                ncols == self.lon@.len(),
                width == ncols,
                row0 <= i <= row1 + 1,
                row1 < nrows,
                col0 <= col1 < ncols,
                sum == rect_sum(self.values@, width, row0 as int, i as int, col0 as int, col1 + 1),
                count == rect_count(
                    self.values@,
                    width,
                    row0 as int,
                    i as int,
                    col0 as int,
                    col1 + 1,
                ),
                count <= cell(i as int, 0, width),
                i64::MIN * count <= sum <= i64::MAX * count,
            decreases row1 + 1 - i,
        {
            let ghost sum0 = sum;
            let ghost count0 = count;
            let mut j: usize = col0;
            while j <= col1
                invariant
                    total == nrows * ncols,
                    total == self.values@.len(),
                    nrows == self.lat@.len(),
                    ncols == self.lon@.len(),
                    width == ncols,
                    row0 <= i <= row1,
                    row1 < nrows,
                    col0 <= j <= col1 + 1,
                    col1 < ncols,
                    sum == sum0 + row_sum(self.values@, width, i as int, col0 as int, j as int),
                    count == count0 + row_count(
                        self.values@,
                        width,
                        i as int,
                        col0 as int,
                        j as int,
                    ),
                    count <= cell(i as int, j as int, width),
                    i64::MIN * count <= sum <= i64::MAX * count,
                decreases col1 + 1 - j,
            {
                proof {
                    lemma_cell_in_buffer(i as int, j as int, nrows as int, width);
                }
                match self.value_at(i, j) {
                    Some(x) => {
                        sum = sum + x as i128;
                        count = count + 1;
                    },
                    None => {},
                }
                j += 1;
            }
            proof {
                assert(cell(i as int, col1 + 1, width) <= cell(i + 1, 0, width)) by (nonlinear_arith)
                    requires
                        col1 < width,
                ;
            }
            i += 1;
        }
        if count == 0 {
            None
        } else {
            let n: i128 = count as i128;
            proof {
                lemma_quotient_between(sum as int, n as int, i64::MIN as int, i64::MAX as int);
            }
            let q: i128 = if sum >= 0 {
                sum / n
            } else {
                -((-sum) / n)
            };
            Some(q as i64)
        }
    }

    /// This function fetch and interpolate the data from self.value,
    /// self.lon, self.lat at the requested lat / lon.
    /// It basically performs a bilinear interpolation
    pub fn interpolate_value_at(&self, requested_lat: i64, requested_lon: i64) -> (v: Option<i64>)
        requires
            self.wf(),
        ensures
            v == self.interpolated(requested_lat as int, requested_lon as int),
    {
        // fetch nearest longitude / latitude indices
        let lat_idx = search_closest_idx_below(self.lat.as_slice(), requested_lat).unwrap();
        let lon_idx = search_closest_idx_below(self.lon.as_slice(), requested_lon).unwrap();
        // see along which axes the query lies between two samples
        let other_lat = if self.lat[lat_idx] < requested_lat {
            find_upper_neighbour(&self.lat, lat_idx)
        } else {
            None
        };
        let other_lon = if self.lon[lon_idx] < requested_lon {
            find_upper_neighbour(&self.lon, lon_idx)
        } else {
            None
        };
        proof {
            if other_lat.is_some() {
                lemma_partner_above(self.lat@, lat_idx as int, requested_lat as int);
            }
            if other_lon.is_some() {
                lemma_partner_above(self.lon@, lon_idx as int, requested_lon as int);
            }
        }
        match (other_lat, other_lon) {
            (Some(lat2), Some(lon2)) => {
                // First interpolate linearly the 4 points at the requested longitude
                let a = interp_between(
                    self.value_at(lat_idx, lon_idx),
                    self.lon[lon_idx],
                    self.value_at(lat_idx, lon2),
                    self.lon[lon2],
                    requested_lon,
                );
                let b = interp_between(
                    self.value_at(lat2, lon_idx),
                    self.lon[lon_idx],
                    self.value_at(lat2, lon2),
                    self.lon[lon2],
                    requested_lon,
                );
                // finally interpolate at the requested latitude
                interp_between(a, self.lat[lat_idx], b, self.lat[lat2], requested_lat)
            },
            (None, Some(lon2)) => {
                // only interpolate at the requested longitude
                interp_between(
                    self.value_at(lat_idx, lon_idx),
                    self.lon[lon_idx],
                    self.value_at(lat_idx, lon2),
                    self.lon[lon2],
                    requested_lon,
                )
            },
            (Some(lat2), None) => {
                // only interpolate at the requested latitude
                interp_between(
                    self.value_at(lat_idx, lon_idx),
                    self.lat[lat_idx],
                    self.value_at(lat2, lon_idx),
                    self.lat[lat2],
                    requested_lat,
                )
            },
            (None, None) => {
                // If we can't interpolate, returns the nearest value
                self.value_at(lat_idx, lon_idx)
            },
        }
    }

    /// `sub` is the part of this window that the tile `tile` needs: on each
    /// axis the coordinates from the floor of the tile's lower edge to the
    /// ceiling of its upper edge, with their samples.
    pub open spec fn is_cut(&self, sub: TileData, tile: Tile) -> bool {
        let bbox = bounds_of(tile);
        let a = floor_index(self.lat@, bbox.south as int);
        let b = ceil_index(self.lat@, bbox.north as int);
        let c = floor_index(self.lon@, bbox.west as int);
        let d = ceil_index(self.lon@, bbox.east as int);
        let row0 = if a <= b { a } else { b };
        let row1 = if a <= b { b } else { a };
        let col0 = if c <= d { c } else { d };
        let col1 = if c <= d { d } else { c };
        &&& sub.wf()
        &&& sub.tile == tile
        &&& sub.bbox == bbox
        &&& sub.lat@ == self.lat@.subrange(row0, row1 + 1)
        &&& sub.lon@ == self.lon@.subrange(col0, col1 + 1)
        &&& is_window(
            sub.values@,
            self.values@,
            self.lon@.len() as int,
            row0,
            row1 - row0 + 1,
            col0,
            col1 - col0 + 1,
        )
    }

    /// Cuts out of this window the part that a tile needs, without reading
    /// the source again.
    pub fn cut(&self, tile: Tile) -> (sub: TileData)
        requires
            self.wf(),
            tile.wf(),
        ensures
            self.is_cut(sub, tile),
    {
        let xy = tile.xy_bounds();
        // search closest indices
        let a = search_closest_idx_below(self.lat.as_slice(), xy.south).unwrap();
        let b = search_closest_idx_over(self.lat.as_slice(), xy.north).unwrap();
        let c = search_closest_idx_below(self.lon.as_slice(), xy.west).unwrap();
        let d = search_closest_idx_over(self.lon.as_slice(), xy.east).unwrap();
        let (row0, row1) = if a <= b { (a, b) } else { (b, a) };
        let (col0, col1) = if c <= d { (c, d) } else { (d, c) };
        // Extract lat, lon and values using the computed indices
        let subset_lat = slice_axis(&self.lat, row0, row1);
        let subset_lon = slice_axis(&self.lon, col0, col1);
        let subset_values = self.window_values(row0, row1, col0, col1);
        proof {
            lemma_slice_axis_ok(self.lat@, row0 as int, row1 as int);
            lemma_slice_axis_ok(self.lon@, col0 as int, col1 as int);
        }
        let lat_first = subset_lat[0];
        let lat_last = subset_lat[subset_lat.len() - 1];
        let lon_first = subset_lon[0];
        let lon_last = subset_lon[subset_lon.len() - 1];
        TileData {
            min_lon: if lon_first <= lon_last { lon_first } else { lon_last },
            max_lon: if lon_first >= lon_last { lon_first } else { lon_last },
            lon: subset_lon,
            min_lat: if lat_first <= lat_last { lat_first } else { lat_last },
            max_lat: if lat_first >= lat_last { lat_first } else { lat_last },
            lat: subset_lat,
            values: subset_values,
            bbox: xy,
            tile,
        }
    }

    /// Creates the 4 windows of the next zoom level out of this one: for
    /// each of the four tiles that divide this window's tile, the part of
    /// this window that it needs.
    pub fn sub_tiledata(&self) -> (subs: Vec<TileData>)
        requires
            self.wf(),
            self.tile.wf(),
            self.tile.z < MAX_ZOOM,
        ensures
            subs@.len() == 4,
            forall|k: int| 0 <= k < 4 ==> self.is_cut(#[trigger] subs@[k], child_tile(self.tile, k)),
    {
        proof {
            lemma_child_tile_wf(self.tile, 0);
            lemma_child_tile_wf(self.tile, 1);
            lemma_child_tile_wf(self.tile, 2);
            lemma_child_tile_wf(self.tile, 3);
        }
        let base_x: u32 = self.tile.x * 2;
        let base_y: u32 = self.tile.y * 2;
        let z: u32 = self.tile.z + 1;
        let mut subs: Vec<TileData> = Vec::new();
        subs.push(self.cut(Tile { x: base_x, y: base_y, z }));
        subs.push(self.cut(Tile { x: base_x, y: base_y + 1, z }));
        subs.push(self.cut(Tile { x: base_x + 1, y: base_y, z }));
        subs.push(self.cut(Tile { x: base_x + 1, y: base_y + 1, z }));
        subs
    }

    /// The window `sub` holds the sample of the row `i` and the column `j`
    /// of this window, at the same coordinates.
    pub open spec fn shares_sample(&self, sub: TileData, i: int, j: int) -> bool {
        exists|a: int, b: int|
            {
                &&& 0 <= a < sub.lat@.len()
                &&& 0 <= b < sub.lon@.len()
                &&& sub.lat@[a] == self.lat@[i]
                &&& sub.lon@[b] == self.lon@[j]
                &&& #[trigger] sub.sample(a, b) == self.sample(i, j)
            }
    }

    /// The part cut out for a tile holds every sample of the window that
    /// lies in the tile's box.
    pub proof fn lemma_cut_holds_box(&self, sub: TileData, tile: Tile, i: int, j: int)
        requires
            self.wf(),
            self.is_cut(sub, tile),
            0 <= i < self.lat@.len(),
            0 <= j < self.lon@.len(),
            bounds_of(tile).south <= self.lat@[i] <= bounds_of(tile).north,
            bounds_of(tile).west <= self.lon@[j] <= bounds_of(tile).east,
        ensures
            self.shares_sample(sub, i, j),
    {
        let bbox = bounds_of(tile);
        lemma_bracket_holds(self.lat@, bbox.south as int, bbox.north as int, i);
        lemma_bracket_holds(self.lon@, bbox.west as int, bbox.east as int, j);
        let a0 = floor_index(self.lat@, bbox.south as int);
        let b0 = ceil_index(self.lat@, bbox.north as int);
        let c0 = floor_index(self.lon@, bbox.west as int);
        let d0 = ceil_index(self.lon@, bbox.east as int);
        let row0 = if a0 <= b0 { a0 } else { b0 };
        let col0 = if c0 <= d0 { c0 } else { d0 };
        let a = i - row0;
        let b = j - col0;
        assert(sub.lat@[a] == self.lat@[i]);
        assert(sub.lon@[b] == self.lon@[j]);
        assert(sub.values@[cell(a, b, sub.lon@.len() as int)] == self.values@[cell(
            row0 + a,
            col0 + b,
            self.lon@.len() as int,
        )]);
        assert(sub.sample(a, b) == self.sample(i, j));
    }

    /// The four windows of the next zoom level together hold every sample
    /// of the window that lies in the box of its tile: the one that the
    /// lemma names holds the sample of the row `i` and the column `j`.
    pub proof fn lemma_sub_windows_cover(&self, subs: Seq<TileData>, i: int, j: int) -> (k: int)
        requires
            self.wf(),
            self.tile.wf(),
            self.tile.z < MAX_ZOOM,
            subs.len() == 4,
            forall|k: int| 0 <= k < 4 ==> self.is_cut(#[trigger] subs[k], child_tile(self.tile, k)),
            0 <= i < self.lat@.len(),
            0 <= j < self.lon@.len(),
            bounds_of(self.tile).south <= self.lat@[i] <= bounds_of(self.tile).north,
            bounds_of(self.tile).west <= self.lon@[j] <= bounds_of(self.tile).east,
        ensures
            0 <= k < 4,
            self.shares_sample(subs[k], i, j),
    {
        lemma_children_share_edges(self.tile);
        let middle_x = bounds_of(child_tile(self.tile, 0)).east;
        let middle_y = bounds_of(child_tile(self.tile, 0)).south;
        let kx: int = if self.lon@[j] <= middle_x { 0 } else { 1 };
        let ky: int = if self.lat@[i] >= middle_y { 0 } else { 1 };
        let k = 2 * kx + ky;
        self.lemma_cut_holds_box(subs[k], child_tile(self.tile, k), i, j);
        k
    }

    /// Copies the samples of the rows `row0 ..= row1` and the columns
    /// `col0 ..= col1`, row by row.
    pub fn window_values(&self, row0: usize, row1: usize, col0: usize, col1: usize) -> (out: Vec<
        Option<i64>,
    >)
        requires
            self.values@.len() == self.lat@.len() * self.lon@.len(),
            row0 <= row1 < self.lat@.len(),
            col0 <= col1 < self.lon@.len(),
        ensures
            is_window(
                out@,
                self.values@,
                self.lon@.len() as int,
                row0 as int,
                row1 - row0 + 1,
                col0 as int,
                col1 - col0 + 1,
            ),
    {
        let ghost cols: int = col1 - col0 + 1;
        let ghost width: int = self.lon@.len() as int;
        let nrows = self.lat.len();
        let ncols = self.lon.len();
        let mut out: Vec<Option<i64>> = Vec::new();
        let mut i: usize = row0;
        while i <= row1
            invariant
                self.values@.len() == self.lat@.len() * self.lon@.len(),
                row0 <= i <= row1 + 1,
                row1 < nrows,
                nrows == self.lat@.len(),
                ncols == self.lon@.len(),
                col0 <= col1 < ncols,
                cols == col1 - col0 + 1,
                width == self.lon@.len(),
                out@.len() == cell(i - row0, 0, cols),
                forall|a: int, b: int|
                    0 <= a < i - row0 && 0 <= b < cols ==> #[trigger] out@[cell(a, b, cols)]
                        == self.values@[cell(row0 + a, col0 + b, width)],
            decreases row1 + 1 - i,
        {
            let mut j: usize = col0;
            while j <= col1
                invariant
                    self.values@.len() == self.lat@.len() * self.lon@.len(),
                    row0 <= i <= row1,
                    row1 < nrows,
                    nrows == self.lat@.len(),
                    ncols == self.lon@.len(),
                    col0 <= j <= col1 + 1,
                    col1 < ncols,
                    cols == col1 - col0 + 1,
                    width == self.lon@.len(),
                    out@.len() == cell(i - row0, j - col0, cols),
                    forall|a: int, b: int|
                        0 <= a < i - row0 && 0 <= b < cols ==> #[trigger] out@[cell(a, b, cols)]
                            == self.values@[cell(row0 + a, col0 + b, width)],
                    forall|b: int|
                        0 <= b < j - col0 ==> #[trigger] out@[cell(i - row0, b, cols)]
                            == self.values@[cell(i as int, col0 + b, width)],
                decreases col1 + 1 - j,
            {
                let v = self.value_at(i, j);
                let ghost before = out@;
                out.push(v);
                proof {
                    assert forall|a: int, b: int| 0 <= a < i - row0 && 0 <= b < cols implies #[trigger] out@[cell(
                        a,
                        b,
                        cols,
                    )] == self.values@[cell(row0 + a, col0 + b, width)] by {
                        lemma_cell_in_buffer(a, b, i - row0, cols);
                        assert(out@[cell(a, b, cols)] == before[cell(a, b, cols)]);
                    }
                    assert forall|b: int| 0 <= b < j + 1 - col0 implies #[trigger] out@[cell(
                        i - row0,
                        b,
                        cols,
                    )] == self.values@[cell(i as int, col0 + b, width)] by {
                        if b < j - col0 {
                            assert(out@[cell(i - row0, b, cols)] == before[cell(i - row0, b, cols)]);
                        }
                    }
                }
                j += 1;
            }
            proof {
                assert(cell(i - row0, cols, cols) == cell(i + 1 - row0, 0, cols)) by (nonlinear_arith);
            }
            i += 1;
        }
        proof {
            assert(cell(row1 + 1 - row0, 0, cols) == (row1 - row0 + 1) * cols);
        }
        out
    }
}

} // verus!
