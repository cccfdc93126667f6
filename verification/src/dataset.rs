//! The two axes of a gridded source, and what to read from it for a tile.

use crate::error::TileError;
use crate::tile::{bounds_of, Bbox, Tile};
use crate::axis::{axis_ok, check_axis, greater, lemma_slice_axis_ok, lesser, slice_axis};
use crate::tiledata::TileData;
use crate::utils::{
    ceil_index, floor_index, nearest_index, search_closest_idx, search_closest_idx_below,
    search_closest_idx_over,
};
use vstd::prelude::*;

verus! {

/// The rows and columns of a source that a tile needs.
#[derive(Debug, PartialEq, Eq, Structural, Clone, Copy)]
pub struct Window {
    /// The tile's box on the spherical Mercator plane
    pub bbox: Bbox,
    /// First row to read
    pub lat_first: usize,
    /// Last row to read
    pub lat_last: usize,
    /// First column to read
    pub lon_first: usize,
    /// Last column to read
    pub lon_last: usize,
}

/// A sample as it is kept: missing where it equals the fill value.
pub open spec fn masked(fill: Option<i64>, sample: Option<i64>) -> Option<i64> {
    if fill.is_some() && sample == fill {
        None
    } else {
        sample
    }
}

/// This Struct describes the grid of a source: the coordinates of its rows
/// and columns on the spherical Mercator plane, and the value that marks a
/// missing sample.
#[derive(Debug)]
pub struct Dataset {
    /// Northings of the rows, in millimetres
    pub lat: Vec<i64>,
    pub min_lat: i64,
    pub max_lat: i64,
    /// Eastings of the columns, in millimetres
    pub lon: Vec<i64>,
    pub min_lon: i64,
    pub max_lon: i64,
    /// The value that stands for a missing sample, if the source has one
    pub fill_value: Option<i64>,
}

impl Dataset {
    /// Both axes are usable and the recorded extremes are those of the axes.
    pub open spec fn wf(&self) -> bool {
        &&& axis_ok(self.lat@)
        &&& axis_ok(self.lon@)
        &&& self.min_lat == lesser(self.lat@[0], self.lat@[self.lat@.len() - 1])
        &&& self.max_lat == greater(self.lat@[0], self.lat@[self.lat@.len() - 1])
        &&& self.min_lon == lesser(self.lon@[0], self.lon@[self.lon@.len() - 1])
        &&& self.max_lon == greater(self.lon@[0], self.lon@[self.lon@.len() - 1])
    }

    /// The box is not wholly to one side of the extent: its west and east
    /// edges are not both at or before the western end, nor both at or past
    /// the eastern end, and likewise its south and north edges.
    pub open spec fn intersects(&self, bbox: Bbox) -> bool {
        &&& !(bbox.west <= self.min_lon && bbox.east <= self.min_lon)
        &&& !(bbox.west >= self.max_lon && bbox.east >= self.max_lon)
        &&& !(bbox.south <= self.min_lat && bbox.north <= self.min_lat)
        &&& !(bbox.south >= self.max_lat && bbox.north >= self.max_lat)
    }

    /// The point lies within the extent, its ends included.
    pub open spec fn covers(&self, lat: i64, lon: i64) -> bool {
        self.min_lon <= lon <= self.max_lon && self.min_lat <= lat <= self.max_lat
    }

    /// The rows and columns that a tile needs: on each axis from the floor
    /// of the lower edge of the tile's box to the ceiling of its upper edge,
    /// the smaller position first.
    pub open spec fn window_of(&self, tile: Tile) -> Window {
        let bbox = bounds_of(tile);
        let a = floor_index(self.lat@, bbox.south as int);
        let b = ceil_index(self.lat@, bbox.north as int);
        let c = floor_index(self.lon@, bbox.west as int);
        let d = ceil_index(self.lon@, bbox.east as int);
        Window {
            bbox,
            lat_first: (if a <= b { a } else { b }) as usize,
            lat_last: (if a <= b { b } else { a }) as usize,
            lon_first: (if c <= d { c } else { d }) as usize,
            lon_last: (if c <= d { d } else { c }) as usize,
        }
    }

    /// Number of samples that a tile needs: one for each pair of a row and a
    /// column of its window.
    pub open spec fn samples_needed(&self, tile: Tile) -> int {
        (self.window_of(tile).lat_last - self.window_of(tile).lat_first + 1) * (self.window_of(
            tile,
        ).lon_last - self.window_of(tile).lon_first + 1)
    }

    /// `data` is the window of a tile, put together from the samples read
    /// for it: it has the tile's address and box, the coordinates of the
    /// rows and columns of the tile's window, and the samples as they were
    /// read, but for those that equal the fill value, which are missing.
    pub open spec fn is_tile_data(&self, tile: Tile, samples: Seq<Option<i64>>, data: TileData) -> bool {
        &&& data.wf()
        &&& data.tile == tile
        &&& data.bbox == bounds_of(tile)
        &&& data.lat@ == self.lat@.subrange(
            self.window_of(tile).lat_first as int,
            self.window_of(tile).lat_last + 1,
        )
        &&& data.lon@ == self.lon@.subrange(
            self.window_of(tile).lon_first as int,
            self.window_of(tile).lon_last + 1,
        )
        &&& data.values@.len() == samples.len()
        &&& forall|k: int|
            0 <= k < samples.len() ==> #[trigger] data.values@[k] == masked(
                self.fill_value,
                samples[k],
            )
    }

    /// Creates a Dataset instance from the coordinates of the rows and of
    /// the columns of a source, both on the spherical Mercator plane, and
    /// from its fill value. An axis that is empty, that does not strictly
    /// rise or fall, or that leaves the limits of the library is refused.
    pub fn new(lat: Vec<i64>, lon: Vec<i64>, fill_value: Option<i64>) -> (r: Result<Dataset, TileError>)
        ensures
            r.is_ok() <==> axis_ok(lat@) && axis_ok(lon@),
            r matches Ok(d) ==> d.wf() && d.lat@ == lat@ && d.lon@ == lon@ && d.fill_value
                == fill_value,
            r matches Err(e) ==> e == TileError::InputGeometry,
    {
        if !check_axis(&lat) || !check_axis(&lon) {
            return Err(TileError::InputGeometry);
        }
        let lat_first = lat[0];
        let lat_last = lat[lat.len() - 1];
        let lon_first = lon[0];
        let lon_last = lon[lon.len() - 1];
        Ok(
            Dataset {
                min_lat: if lat_first <= lat_last { lat_first } else { lat_last },
                max_lat: if lat_first >= lat_last { lat_first } else { lat_last },
                lat,
                min_lon: if lon_first <= lon_last { lon_first } else { lon_last },
                max_lon: if lon_first >= lon_last { lon_first } else { lon_last },
                lon,
                fill_value,
            },
        )
    }

    /// Tells whether both axes are usable and the recorded extremes are
    /// those of the axes.
    pub fn is_valid(&self) -> (r: bool)
        ensures
            r == self.wf(),
    {
        if !check_axis(&self.lat) || !check_axis(&self.lon) {
            return false;
        }
        let lat_first = self.lat[0];
        let lat_last = self.lat[self.lat.len() - 1];
        let lon_first = self.lon[0];
        let lon_last = self.lon[self.lon.len() - 1];
        self.min_lat == (if lat_first <= lat_last { lat_first } else { lat_last })
            && self.max_lat == (if lat_first >= lat_last { lat_first } else { lat_last })
            && self.min_lon == (if lon_first <= lon_last { lon_first } else { lon_last })
            && self.max_lon == (if lon_first >= lon_last { lon_first } else { lon_last })
    }

    /// Get the fill value of the dataset
    pub fn get_fill_value(&self) -> (r: Option<i64>)
        ensures
            r == self.fill_value,
    {
        self.fill_value
    }

    /// The extent of the source: from the smallest to the greatest
    /// coordinate of each axis.
    pub fn extent(&self) -> (b: Bbox)
        ensures
            b == (Bbox {
                west: self.min_lon,
                south: self.min_lat,
                east: self.max_lon,
                north: self.max_lat,
            }),
    {
        Bbox { west: self.min_lon, south: self.min_lat, east: self.max_lon, north: self.max_lat }
    }

    /// Check if the bounding box is not strictly outside
    /// the lon/lat range of the dataset
    pub fn contains_bbox(&self, bbox: &Bbox) -> (r: bool)
        ensures
            r == self.intersects(*bbox),
    {
        if bbox.west <= self.min_lon && bbox.east <= self.min_lon {
            return false;
        }
        if bbox.west >= self.max_lon && bbox.east >= self.max_lon {
            return false;
        }
        if bbox.south <= self.min_lat && bbox.north <= self.min_lat {
            return false;
        }
        if bbox.south >= self.max_lat && bbox.north >= self.max_lat {
            return false;
        }
        return true;
    }

    /// Check if the point (lat, lon on the spherical Mercator plane) is
    /// contained in the dataset extend.
    pub fn contains_point(&self, lat: i64, lon: i64) -> (r: bool)
        ensures
            r == self.covers(lat, lon),
    {
        if lon < self.min_lon || lon > self.max_lon {
            return false;
        }
        if lat < self.min_lat || lat > self.max_lat {
            return false;
        }
        return true;
    }

    /// Says which rows and columns of the source to read for a tile. A tile
    /// whose box does not meet the extent of the source is out of bounds.
    pub fn tile_window(&self, tile: &Tile) -> (r: Result<Window, TileError>)
        requires
            self.wf(),
            tile.wf(),
        ensures
            r.is_ok() <==> self.intersects(bounds_of(*tile)),
            r matches Ok(w) ==> w == self.window_of(*tile) && w.bbox.wf() && w.lat_first
                <= w.lat_last < self.lat@.len() && w.lon_first <= w.lon_last < self.lon@.len(),
            r matches Err(e) ==> e == TileError::OutOfBounds,
    {
        let bbox = tile.xy_bounds();
        if !self.contains_bbox(&bbox) {
            return Err(TileError::OutOfBounds);
        }
        // get longitude indices containing the tile data
        let c = search_closest_idx_below(self.lon.as_slice(), bbox.west).unwrap();
        let d = search_closest_idx_over(self.lon.as_slice(), bbox.east).unwrap();
        let (lon_first, lon_last) = if c <= d { (c, d) } else { (d, c) };
        // get latitude indices containing the tile data
        let a = search_closest_idx_below(self.lat.as_slice(), bbox.south).unwrap();
        let b = search_closest_idx_over(self.lat.as_slice(), bbox.north).unwrap();
        let (lat_first, lat_last) = if a <= b { (a, b) } else { (b, a) };
        Ok(Window { bbox, lat_first, lat_last, lon_first, lon_last })
    }

    /// Replaces a sample that equals the fill value by a missing one.
    pub fn mask_fill(&self, sample: Option<i64>) -> (r: Option<i64>)
        ensures
            r == masked(self.fill_value, sample),
    {
        match (self.fill_value, sample) {
            (Some(fill), Some(v)) => if v == fill {
                None
            } else {
                sample
            },
            _ => sample,
        }
    }

    /// Packs the samples read for a tile into a TileData. `samples` are the
    /// samples of the rows and columns that `tile_window` names, row by
    /// row; those that equal the fill value become missing ones. A tile
    /// whose box does not meet the extent of the source is out of bounds; a
    /// wrong number of samples means that the source was not read as asked.
    pub fn get_tile_data(&self, tile: &Tile, samples: Vec<Option<i64>>) -> (r: Result<
        TileData,
        TileError,
    >)
        requires
            self.wf(),
            tile.wf(),
        ensures
            r.is_ok() <==> self.intersects(bounds_of(*tile)) && samples@.len()
                == self.samples_needed(*tile),
            r matches Err(e) ==> e == (if self.intersects(bounds_of(*tile)) {
                TileError::SourceAccess
            } else {
                TileError::OutOfBounds
            }),
            r matches Ok(data) ==> self.is_tile_data(*tile, samples@, data),
    {
        let window = match self.tile_window(tile) {
            Ok(w) => w,
            Err(e) => {
                return Err(e);
            },
        };
        let nrows = self.lat.len();
        let ncols = self.lon.len();
        assert(window.lat_last < nrows && window.lon_last < ncols);
        // Compute values slice size (must be > 0)
        let rows: u128 = (window.lat_last - window.lat_first) as u128 + 1;
        let cols: u128 = (window.lon_last - window.lon_first) as u128 + 1;
        assert(rows * cols <= 0xffff_ffff_ffff_ffff * 0xffff_ffff_ffff_ffff) by (nonlinear_arith)
            requires
                rows <= 0xffff_ffff_ffff_ffff,
                cols <= 0xffff_ffff_ffff_ffff,
        ;
        if samples.len() as u128 != rows * cols {
            return Err(TileError::SourceAccess);
        }
        // Filter fill_values
        let mut values: Vec<Option<i64>> = samples;
        let ghost given = values@;
        let n = values.len();
        let mut i: usize = 0;
        while i < n
            invariant
                i <= n,
                n == values@.len(),
                n == given.len(),
                forall|k: int|
                    0 <= k < i ==> #[trigger] values@[k] == masked(self.fill_value, given[k]),
                forall|k: int| i <= k < n ==> #[trigger] values@[k] == given[k],
            decreases n - i,
        {
            let kept = self.mask_fill(values[i]);
            values.set(i, kept);
            i += 1;
        }
        // Pick the associated lon /lat values
        let lon = slice_axis(&self.lon, window.lon_first, window.lon_last);
        let lat = slice_axis(&self.lat, window.lat_first, window.lat_last);
        proof {
            lemma_slice_axis_ok(self.lat@, window.lat_first as int, window.lat_last as int);
            lemma_slice_axis_ok(self.lon@, window.lon_first as int, window.lon_last as int);
        }
        let lat_first = lat[0];
        let lat_last = lat[lat.len() - 1];
        let lon_first = lon[0];
        let lon_last = lon[lon.len() - 1];
        Ok(
            TileData {
                min_lon: if lon_first <= lon_last { lon_first } else { lon_last },
                max_lon: if lon_first >= lon_last { lon_first } else { lon_last },
                lon,
                min_lat: if lat_first <= lat_last { lat_first } else { lat_last },
                max_lat: if lat_first >= lat_last { lat_first } else { lat_last },
                lat,
                values,
                bbox: window.bbox,
                tile: Tile { x: tile.x, y: tile.y, z: tile.z },
            },
        )
    }

    /// Says which sample of the source is the closest to a point on the
    /// spherical Mercator plane: its row and its column. A point outside the
    /// extent of the source is out of bounds.
    pub fn locate(&self, lat: i64, lon: i64) -> (r: Result<(usize, usize), TileError>)
        requires
            self.wf(),
        ensures
            r.is_ok() <==> self.covers(lat, lon),
            r matches Ok(at) ==> at.0 == nearest_index(self.lat@, lat as int) && at.0
                < self.lat@.len() && at.1 == nearest_index(self.lon@, lon as int) && at.1
                < self.lon@.len(),
            r matches Err(e) ==> e == TileError::OutOfBounds,
    {
        if !self.contains_point(lat, lon) {
            return Err(TileError::OutOfBounds);
        }
        // fetch the closest point in the dataset
        let lon_idx = search_closest_idx(self.lon.as_slice(), lon).unwrap();
        let lat_idx = search_closest_idx(self.lat.as_slice(), lat).unwrap();
        Ok((lat_idx, lon_idx))
    }

    /// Return the value stored at (lat, lon), a point on the spherical
    /// Mercator plane. `fetched` is the sample read at the row and column
    /// that `locate` names for the point; where it equals the fill value the
    /// value is missing. A point outside the extent of the source is out of
    /// bounds.
    pub fn value_at_coordinates(&self, lat: i64, lon: i64, fetched: Option<i64>) -> (r: Result<
        Option<i64>,
        TileError,
    >)
        requires
            self.wf(),
        ensures
            r == (if self.covers(lat, lon) {
                Ok::<Option<i64>, TileError>(masked(self.fill_value, fetched))
            } else {
                Err::<Option<i64>, TileError>(TileError::OutOfBounds)
            }),
    {
        if self.contains_point(lat, lon) {
            Ok(self.mask_fill(fetched))
        } else {
            Err(TileError::OutOfBounds)
        }
    }
}

} // verus!
