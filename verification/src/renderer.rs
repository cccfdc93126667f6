//! From a window of samples to the pixels of a tile, and from one window to
//! the tiles of a whole pyramid.

use crate::colormap::{rgb, ColorMap};
use crate::dataset::Dataset;
use crate::error::TileError;
use crate::pyramid::{
    lemma_pyramid_addresses_unique, lemma_pyramid_block, lemma_pyramid_grows, lemma_pyramid_place,
    lemma_pyramid_tiles_len, pyramid_tiles, tiles_in_pyramid,
};
use crate::scale::{curve_needed, needs_curve, normalize, normalized, Scale};
use crate::regrid::cell;
use crate::tile::{child_tile, lemma_child_tile_wf, Tile, MAX_ZOOM, TILE_SIZE};
use crate::tiledata::TileData;
use vstd::prelude::*;

verus! {

/// Number of cells in the pixel grid of a tile.
pub const GRID_CELLS: usize = 65_536;

/// Number of bytes in the pixel buffer of a tile: four for each cell.
pub const PIXEL_BYTES: usize = 262_144;

/// This struct represents an image tile,
/// it holds all the pixel values needed to build
/// an image file (PNG) from it.
#[derive(Debug)]
pub struct ImgTile {
    /// Pixel values (flattened): red, green, blue and opacity of each
    /// pixel, row by row from the north, each row from the west
    pub pixels: Vec<u8>,
    /// Web mercator x coordinate of the tile
    pub x: u32,
    /// Web mercator y coordinate of the tile
    pub y: u32,
    /// Zoom level
    pub z: u32,
}

/// The address of the tile that an image shows.
pub open spec fn address(img: ImgTile) -> Tile {
    Tile { x: img.x, y: img.y, z: img.z }
}

/// The four bytes of the `i`-th pixel of a buffer.
pub open spec fn pixel_at(pixels: Seq<u8>, i: int) -> Seq<u8> {
    pixels.subrange(4 * i, 4 * i + 4)
}

/// Provides convenient functions to render windows of a `Dataset` into
/// `ImgTile`s
#[derive(Debug)]
pub struct Renderer {
    pub color_map: ColorMap,
    pub scale: Scale,
    pub dataset: Dataset,
}

impl Renderer {
    /// The palette and the dataset are well formed.
    pub open spec fn wf(&self) -> bool {
        self.color_map.wf() && self.dataset.wf()
    }

    /// One of the four bytes of the pixel of a value: a missing value is
    /// fully transparent; any other has the colour that the palette gives
    /// its position on the scale, and is opaque. `curve_value` is the
    /// position that the curve of a curved scale gives the value.
    pub open spec fn rgba_channel(&self, value: Option<i64>, curve_value: i64, k: int) -> int {
        match value {
            None => 0,
            Some(v) => if k == 3 {
                255
            } else {
                self.color_map.channel(normalized(self.scale, v, curve_value), k)
            },
        }
    }

    /// The pixel is that of the value, with `c` for what the curve gave
    /// where the scale asked it.
    pub open spec fn shows_with<F: Fn(i64) -> i64>(
        &self,
        value: Option<i64>,
        pixel: Seq<u8>,
        curve: F,
        c: i64,
    ) -> bool {
        &&& pixel.len() == 4
        &&& value matches Some(v) ==> (needs_curve(self.scale, v) ==> call_ensures(curve, (v,), c))
        &&& forall|k: int| 0 <= k < 4 ==> pixel[k] == self.rgba_channel(value, c, k)
    }

    /// The pixel is that of the value, whatever the curve gave where the
    /// scale asked it.
    pub open spec fn shows<F: Fn(i64) -> i64>(&self, value: Option<i64>, pixel: Seq<u8>, curve: F) -> bool {
        exists|c: i64| #[trigger] self.shows_with(value, pixel, curve, c)
    }

    /// The buffer holds the pixel of every cell of the window's grid, row by
    /// row from the north, each row from the west.
    pub open spec fn paints<F: Fn(i64) -> i64>(&self, data: TileData, pixels: Seq<u8>, curve: F) -> bool {
        &&& pixels.len() == PIXEL_BYTES
        &&& forall|row: int, col: int|
            0 <= row < TILE_SIZE && 0 <= col < TILE_SIZE ==> self.shows(
                data.grid_cell(row, col),
                #[trigger] pixel_at(pixels, cell(row, col, TILE_SIZE as int)),
                curve,
            )
    }

    /// The image is the tile of the window: it has the window's address and
    /// holds the pixels of its grid.
    pub open spec fn renders<F: Fn(i64) -> i64>(&self, data: TileData, img: ImgTile, curve: F) -> bool {
        &&& img.x == data.tile.x
        &&& img.y == data.tile.y
        &&& img.z == data.tile.z
        &&& self.paints(data, img.pixels@, curve)
    }

    /// Create a `Renderer` instance from a dataset.
    ///
    /// # Args
    /// * `dataset`: A dataset instance (which describes the grid of a source)
    /// * `scale`: how a value is placed on the colour range
    /// * `color_map`: a ColorMap variant, which defines the *value* => *color* mapping
    ///
    /// A dataset that is not well formed is refused as bad geometry, a
    /// palette without control points as a bad palette.
    pub fn from_dataset(dataset: Dataset, scale: Scale, color_map: ColorMap) -> (r: Result<
        Renderer,
        TileError,
    >)
        ensures
            r.is_ok() <==> dataset.wf() && color_map.wf(),
            r matches Ok(renderer) ==> renderer.wf() && renderer.dataset == dataset
                && renderer.scale == scale && renderer.color_map == color_map,
            r matches Err(e) ==> e == (if dataset.wf() {
                TileError::PaletteParse
            } else {
                TileError::InputGeometry
            }),
    {
        if !dataset.is_valid() {
            return Err(TileError::InputGeometry);
        }
        if !color_map.is_valid() {
            return Err(TileError::PaletteParse);
        }
        Ok(Renderer { color_map, scale, dataset })
    }

    /// Returns a pixel value (RGBA) from a value, according to the renderer
    /// colormap and the scale, and to the position `curve_value` that the
    /// curve of a curved scale gives the value.
    pub fn rgba_with(&self, value: Option<i64>, curve_value: i64) -> (px: [u8; 4])
        requires
            self.color_map.wf(),
        ensures
            forall|k: int| 0 <= k < 4 ==> px[k] == self.rgba_channel(value, curve_value, k),
    {
        match value {
            None => [0u8, 0u8, 0u8, 0u8],
            Some(v) => {
                let scaled_value = normalize(&self.scale, v, curve_value);
                let rgb = rgb(scaled_value, &self.color_map);
                [rgb[0], rgb[1], rgb[2], 255u8]
            },
        }
    }

    /// Returns a pixel value (RGBA) from a value, according to the
    /// renderer colormap, and the scale. `curve` is asked for the position
    /// of the value where the scale is a curved one and the value lies
    /// where its curve decides; its answer is held within the colour range.
    pub fn value_to_rgba<F: Fn(i64) -> i64>(&self, value: Option<i64>, curve: &F) -> (px: [u8; 4])
        requires
            self.color_map.wf(),
            forall|v: i64| call_requires(*curve, (v,)),
        ensures
            self.shows(value, px@, *curve),
    {
        let needed = match value {
            Some(v) => curve_needed(&self.scale, v),
            None => false,
        };
        let c: i64 = match value {
            Some(v) => if needed {
                curve(v)
            } else {
                0
            },
            None => 0,
        };
        let px = self.rgba_with(value, c);
        proof {
            assert(self.shows_with(value, px@, *curve, c));
        }
        px
    }

    /// Turns the values of a pixel grid into a pixel buffer, cell by cell.
    pub fn values_to_colors<F: Fn(i64) -> i64>(&self, values: &Vec<Option<i64>>, curve: &F) -> (colors:
        Vec<u8>)
        requires
            self.color_map.wf(),
            values@.len() == GRID_CELLS,
            forall|v: i64| call_requires(*curve, (v,)),
        ensures
            colors@.len() == PIXEL_BYTES,
            forall|i: int|
                0 <= i < GRID_CELLS ==> self.shows(
                    values@[i],
                    #[trigger] pixel_at(colors@, i),
                    *curve,
                ),
    {
        let mut colors: Vec<u8> = Vec::with_capacity(PIXEL_BYTES);
        let mut count: usize = 0;
        while count < GRID_CELLS
            invariant
                self.color_map.wf(),
                values@.len() == GRID_CELLS,
                forall|v: i64| call_requires(*curve, (v,)),
                count <= GRID_CELLS,
                colors@.len() == 4 * count,
                forall|i: int|
                    0 <= i < count ==> self.shows(
                        values@[i],
                        #[trigger] pixel_at(colors@, i),
                        *curve,
                    ),
            decreases GRID_CELLS - count,
        {
            let rgba = self.value_to_rgba(values[count], curve);
            let ghost before = colors@;
            colors.push(rgba[0]);
            colors.push(rgba[1]);
            colors.push(rgba[2]);
            colors.push(rgba[3]);
            proof {
                assert(pixel_at(colors@, count as int) =~= rgba@);
                assert forall|i: int| 0 <= i < count implies self.shows(
                    values@[i],
                    #[trigger] pixel_at(colors@, i),
                    *curve,
                ) by {
                    assert(pixel_at(colors@, i) =~= pixel_at(before, i));
                }
            }
            count += 1;
        }
        colors
    }

    /// The images are the pyramid of the window down to `depth` levels below
    /// it: first the tile of the window itself; then, where `depth` is not
    /// zero, the pyramids of depth `depth - 1` of the four parts of the
    /// window that the four tiles dividing its tile need, one after the
    /// other.
    pub open spec fn is_pyramid<F: Fn(i64) -> i64>(
        &self,
        data: TileData,
        depth: nat,
        imgs: Seq<ImgTile>,
        curve: F,
    ) -> bool
        decreases depth, 1nat,
    {
        &&& imgs.len() == tiles_in_pyramid(depth)
        &&& self.renders(data, imgs[0], curve)
        &&& depth > 0 ==> {
            &&& self.holds_part(data, depth, imgs, curve, 0)
            &&& self.holds_part(data, depth, imgs, curve, 1)
            &&& self.holds_part(data, depth, imgs, curve, 2)
            &&& self.holds_part(data, depth, imgs, curve, 3)
        }
    }

    /// The `k`-th stretch of images after the first is the pyramid of depth
    /// `depth - 1` of the part of the window that the `k`-th of the four
    /// tiles dividing its tile needs.
    pub open spec fn holds_part<F: Fn(i64) -> i64>(
        &self,
        data: TileData,
        depth: nat,
        imgs: Seq<ImgTile>,
        curve: F,
        k: int,
    ) -> bool
        decreases depth, 0nat,
    {
        depth > 0 && exists|sub: TileData|
            {
                &&& #[trigger] data.is_cut(sub, child_tile(data.tile, k))
                &&& self.is_pyramid(
                    sub,
                    (depth - 1) as nat,
                    imgs.subrange(
                        1 + k * tiles_in_pyramid((depth - 1) as nat),
                        1 + (k + 1) * tiles_in_pyramid((depth - 1) as nat),
                    ),
                    curve,
                )
            }
    }

    /// The images of a pyramid have the addresses of the pyramid of the
    /// window's tile, in the same order.
    pub proof fn lemma_pyramid_addresses<F: Fn(i64) -> i64>(
        &self,
        data: TileData,
        depth: nat,
        imgs: Seq<ImgTile>,
        curve: F,
    )
        requires
            self.is_pyramid(data, depth, imgs, curve),
        ensures
            imgs.len() == pyramid_tiles(data.tile, depth).len(),
            forall|i: int|
                0 <= i < imgs.len() ==> address(#[trigger] imgs[i]) == pyramid_tiles(
                    data.tile,
                    depth,
                )[i],
        decreases depth, 1nat,
    {
        lemma_pyramid_tiles_len(data.tile, depth);
        if depth > 0 {
            let size = tiles_in_pyramid((depth - 1) as nat) as int;
            self.lemma_part_addresses(data, depth, imgs, curve, 0);
            self.lemma_part_addresses(data, depth, imgs, curve, 1);
            self.lemma_part_addresses(data, depth, imgs, curve, 2);
            self.lemma_part_addresses(data, depth, imgs, curve, 3);
            assert forall|i: int| 0 <= i < imgs.len() implies address(#[trigger] imgs[i])
                == pyramid_tiles(data.tile, depth)[i] by {
                if i > 0 {
                    let at = lemma_pyramid_place(depth, i);
                    lemma_pyramid_block(data.tile, depth, at.0, at.1);
                    assert(imgs[1 + at.0 * size + at.1] == imgs[i]);
                } else {
                    lemma_pyramid_tiles_len(data.tile, (depth - 1) as nat);
                    lemma_pyramid_block(data.tile, depth, 0, 0);
                }
            }
        }
    }

    /// The images of the `k`-th part of a pyramid have the addresses of the
    /// pyramid of the `k`-th of the four tiles that divide the window's
    /// tile.
    pub proof fn lemma_part_addresses<F: Fn(i64) -> i64>(
        &self,
        data: TileData,
        depth: nat,
        imgs: Seq<ImgTile>,
        curve: F,
        k: int,
    )
        requires
            self.is_pyramid(data, depth, imgs, curve),
            depth > 0,
            0 <= k < 4,
        ensures
            forall|j: int|
                0 <= j < tiles_in_pyramid((depth - 1) as nat) ==> address(
                    #[trigger] imgs[1 + k * tiles_in_pyramid((depth - 1) as nat) + j],
                ) == pyramid_tiles(child_tile(data.tile, k), (depth - 1) as nat)[j],
        decreases depth, 0nat,
    {
        let below = (depth - 1) as nat;
        let size = tiles_in_pyramid(below) as int;
        assert(self.holds_part(data, depth, imgs, curve, k));
        let part = imgs.subrange(1 + k * size, 1 + (k + 1) * size);
        let sub = choose|sub: TileData|
            {
                &&& #[trigger] data.is_cut(sub, child_tile(data.tile, k))
                &&& self.is_pyramid(sub, below, part, curve)
            };
        self.lemma_pyramid_addresses(sub, below, part, curve);
        lemma_pyramid_grows(depth);
        assert((k + 1) * size == k * size + size) by (nonlinear_arith);
        assert(0 <= k * size <= 3 * size) by (nonlinear_arith)
            requires
                0 <= k < 4,
                size >= 0,
        ;
        assert forall|j: int| 0 <= j < size implies address(#[trigger] imgs[1 + k * size + j])
            == pyramid_tiles(child_tile(data.tile, k), below)[j] by {
            assert(part[j] == imgs[1 + k * size + j]);
        }
    }

    /// The curve does not stand in the way of one answer: the scale is not
    /// a curved one, or the curve gives every value one position only.
    pub open spec fn settled<F: Fn(i64) -> i64>(&self, curve: F) -> bool {
        (self.scale is Log || self.scale is Exponential) ==> forall|v: i64, c: i64, d: i64|
            call_ensures(curve, (v,), c) && call_ensures(curve, (v,), d) ==> c == d
    }

    /// Two windows with the same coordinates, samples and box have the same
    /// image: where the curve does not stand in the way, two images of them
    /// are the same.
    pub proof fn lemma_render_determined<F: Fn(i64) -> i64>(
        &self,
        one: TileData,
        other: TileData,
        a: ImgTile,
        b: ImgTile,
        curve: F,
    )
        requires
            self.settled(curve),
            one.wf(),
            other.wf(),
            one.lat@ == other.lat@,
            one.lon@ == other.lon@,
            one.values@ == other.values@,
            one.bbox == other.bbox,
            one.tile == other.tile,
            self.renders(one, a, curve),
            self.renders(other, b, curve),
        ensures
            a.pixels@ == b.pixels@,
            address(a) == address(b),
    {
        assert forall|n: int| 0 <= n < PIXEL_BYTES implies a.pixels@[n] == b.pixels@[n] by {
            let i = n / 4;
            let k = n % 4;
            let row = i / 256;
            let col = i % 256;
            assert(i == cell(row, col, TILE_SIZE as int));
            let value = one.grid_cell(row, col);
            assert(value == other.grid_cell(row, col));
            let pa = pixel_at(a.pixels@, cell(row, col, TILE_SIZE as int));
            let pb = pixel_at(b.pixels@, cell(row, col, TILE_SIZE as int));
            assert(self.shows(value, pa, curve));
            assert(self.shows(value, pb, curve));
            let ca = choose|c: i64| #[trigger] self.shows_with(value, pa, curve, c);
            let cb = choose|c: i64| #[trigger] self.shows_with(value, pb, curve, c);
            assert(pa[k] == self.rgba_channel(value, ca, k));
            assert(pb[k] == self.rgba_channel(value, cb, k));
            assert(self.rgba_channel(value, ca, k) == self.rgba_channel(value, cb, k));
            assert(pa[k] == a.pixels@[n]);
            assert(pb[k] == b.pixels@[n]);
        }
        assert(a.pixels@ =~= b.pixels@);
    }

    /// The first image of the pyramid of a tile is the image of the tile
    /// alone: where both come from the same samples and the curve does not
    /// stand in the way, the two are the same.
    pub proof fn lemma_pyramid_starts_with_tile<F: Fn(i64) -> i64>(
        &self,
        tile: Tile,
        samples: Seq<Option<i64>>,
        depth: nat,
        img: ImgTile,
        imgs: Seq<ImgTile>,
        curve: F,
    )
        requires
            self.settled(curve),
            exists|data: TileData|
                #[trigger] self.dataset.is_tile_data(tile, samples, data) && self.renders(
                    data,
                    img,
                    curve,
                ),
            exists|data: TileData|
                #[trigger] self.dataset.is_tile_data(tile, samples, data) && self.is_pyramid(
                    data,
                    depth,
                    imgs,
                    curve,
                ),
        ensures
            imgs.len() > 0,
            imgs[0].pixels@ == img.pixels@,
            address(imgs[0]) == address(img),
    {
        let one = choose|data: TileData|
            #[trigger] self.dataset.is_tile_data(tile, samples, data) && self.renders(
                data,
                img,
                curve,
            );
        let other = choose|data: TileData|
            #[trigger] self.dataset.is_tile_data(tile, samples, data) && self.is_pyramid(
                data,
                depth,
                imgs,
                curve,
            );
        lemma_pyramid_tiles_len(tile, depth);
        assert(one.values@ =~= other.values@);
        self.lemma_render_determined(other, one, imgs[0], img, curve);
    }

    /// Renders a window into the ImgTile of its tile.
    pub fn render_tiledata<F: Fn(i64) -> i64>(&self, data: &TileData, curve: &F) -> (img: ImgTile)
        requires
            self.color_map.wf(),
            data.wf(),
            forall|v: i64| call_requires(*curve, (v,)),
        ensures
            self.renders(*data, img, *curve),
    {
        let grid = data.to_tile_grid();
        let colors = self.values_to_colors(&grid, curve);
        proof {
            assert forall|row: int, col: int| 0 <= row < TILE_SIZE && 0 <= col < TILE_SIZE implies self.shows(
                data.grid_cell(row, col),
                #[trigger] pixel_at(colors@, cell(row, col, TILE_SIZE as int)),
                *curve,
            ) by {
                let i = cell(row, col, TILE_SIZE as int);
                assert(grid@[i] == data.grid_cell(row, col));
                assert(self.shows(grid@[i], pixel_at(colors@, i), *curve));
            }
        }
        ImgTile { pixels: colors, x: data.tile.x, y: data.tile.y, z: data.tile.z }
    }

    /// Render a Tile into an ImgTile.
    ///
    /// #Details
    ///
    /// Packs the samples read for the tile into a window,
    /// interpolate them into a TILE_SIZE * TILE_SIZE grid,
    /// and convert them into pixel values. `samples` are the samples of the
    /// rows and columns that `Dataset::tile_window` names for the tile.
    pub fn render_tile<F: Fn(i64) -> i64>(&self, tile: &Tile, samples: Vec<Option<i64>>, curve: &F) -> (r:
        Result<ImgTile, TileError>)
        requires
            self.wf(),
            tile.wf(),
            forall|v: i64| call_requires(*curve, (v,)),
        ensures
            r.is_ok() <==> self.dataset.intersects(crate::tile::bounds_of(*tile)) && samples@.len()
                == self.dataset.samples_needed(*tile),
            r matches Err(e) ==> e == (if self.dataset.intersects(crate::tile::bounds_of(*tile)) {
                TileError::SourceAccess
            } else {
                TileError::OutOfBounds
            }),
            r matches Ok(img) ==> exists|data: TileData|
                #[trigger] self.dataset.is_tile_data(*tile, samples@, data) && self.renders(
                    data,
                    img,
                    *curve,
                ),
    {
        let ghost given = samples@;
        let tile_data = match self.dataset.get_tile_data(tile, samples) {
            Ok(d) => d,
            Err(e) => {
                return Err(e);
            },
        };
        let img = self.render_tiledata(&tile_data, curve);
        proof {
            assert(self.dataset.is_tile_data(*tile, given, tile_data));
            assert(self.renders(tile_data, img, *curve));
            assert(given == samples@);
        }
        Ok(img)
    }

    /// This function render a Tildata and its `level` sub-levels into ImgTile,
    /// by *RECURSIVELY* calling itself using `data.sub_tiledata`.
    pub fn render_n_tiledata_zoom<F: Fn(i64) -> i64>(&self, data: &TileData, level: u8, curve: &F) -> (imgs:
        Vec<ImgTile>)
        requires
            self.color_map.wf(),
            data.wf(),
            data.tile.wf(),
            data.tile.z + level <= MAX_ZOOM,
            forall|v: i64| call_requires(*curve, (v,)),
        ensures
            self.is_pyramid(*data, level as nat, imgs@, *curve),
            imgs@.len() == tiles_in_pyramid(level as nat),
            forall|i: int|
                0 <= i < imgs@.len() ==> address(#[trigger] imgs@[i]) == pyramid_tiles(
                    data.tile,
                    level as nat,
                )[i],
            forall|a: int, b: int|
                0 <= a < b < imgs@.len() ==> address(#[trigger] imgs@[a]) != address(
                    #[trigger] imgs@[b],
                ),
        decreases level,
    {
        let mut imgs: Vec<ImgTile> = Vec::new();
        imgs.push(self.render_tiledata(data, curve));
        if level > 0 {
            let subs = data.sub_tiledata();
            let ghost size = tiles_in_pyramid((level - 1) as nat) as int;
            proof {
                lemma_pyramid_grows(level as nat);
            }
            let mut k: usize = 0;
            while k < 4
                invariant
                    self.color_map.wf(),
                    data.wf(),
                    data.tile.wf(),
                    level > 0,
                    data.tile.z + level <= MAX_ZOOM,
                    forall|v: i64| call_requires(*curve, (v,)),
                    k <= 4,
                    subs@.len() == 4,
                    forall|j: int|
                        0 <= j < 4 ==> data.is_cut(#[trigger] subs@[j], child_tile(data.tile, j)),
                    size == tiles_in_pyramid((level - 1) as nat),
                    imgs@.len() == 1 + k * size,
                    self.renders(*data, imgs@[0], *curve),
                    forall|j: int|
                        0 <= j < k ==> #[trigger] self.is_pyramid(
                            subs@[j],
                            (level - 1) as nat,
                            imgs@.subrange(1 + j * size, 1 + (j + 1) * size),
                            *curve,
                        ),
                decreases 4 - k,
            {
                proof {
                    lemma_child_tile_wf(data.tile, k as int);
                }
                let mut part = self.render_n_tiledata_zoom(&subs[k], level - 1, curve);
                let ghost before = imgs@;
                let ghost added = part@;
                imgs.append(&mut part);
                proof {
                    assert(imgs@ =~= before + added);
                    assert((k + 1) * size == k * size + size) by (nonlinear_arith);
                    assert(imgs@.subrange(1 + k * size, 1 + (k + 1) * size) =~= added);
                    assert forall|j: int| 0 <= j < k implies #[trigger] self.is_pyramid(
                        subs@[j],
                        (level - 1) as nat,
                        imgs@.subrange(1 + j * size, 1 + (j + 1) * size),
                        *curve,
                    ) by {
                        assert((j + 1) * size <= k * size) by (nonlinear_arith)
                            requires
                                j + 1 <= k,
                                size >= 0,
                        ;
                        assert(0 <= j * size <= (j + 1) * size) by (nonlinear_arith)
                            requires
                                0 <= j,
                                size >= 0,
                        ;
                        assert(imgs@.subrange(1 + j * size, 1 + (j + 1) * size) =~= before.subrange(
                            1 + j * size,
                            1 + (j + 1) * size,
                        ));
                    }
                }
                k += 1;
            }
            proof {
                lemma_pyramid_grows(level as nat);
                assert forall|j: int| 0 <= j < 4 implies self.holds_part(
                    *data,
                    level as nat,
                    imgs@,
                    *curve,
                    j,
                ) by {
                    let below = (level as nat - 1) as nat;
                    assert(data.is_cut(subs@[j], child_tile(data.tile, j)));
                    assert(self.is_pyramid(
                        subs@[j],
                        (level - 1) as nat,
                        imgs@.subrange(1 + j * size, 1 + (j + 1) * size),
                        *curve,
                    ));
                    assert(tiles_in_pyramid(below) == size);
                }
                assert(self.holds_part(*data, level as nat, imgs@, *curve, 0));
                assert(self.holds_part(*data, level as nat, imgs@, *curve, 1));
                assert(self.holds_part(*data, level as nat, imgs@, *curve, 2));
                assert(self.holds_part(*data, level as nat, imgs@, *curve, 3));
                assert(imgs@.len() == tiles_in_pyramid(level as nat));
                assert(self.is_pyramid(*data, level as nat, imgs@, *curve));
            }
        } else {
            proof {
                assert(imgs@.len() == tiles_in_pyramid(0));
                assert(self.is_pyramid(*data, 0, imgs@, *curve));
            }
        }
        proof {
            self.lemma_pyramid_addresses(*data, level as nat, imgs@, *curve);
            lemma_pyramid_addresses_unique(data.tile, level as nat);
        }
        imgs
    }

    /// This function renders a tile and its `level` sub-levels into ImgTile.
    /// It packs the samples read for the tile into a window once, and
    /// recursively renders `level` levels of tiles using those values.
    /// `samples` are the samples of the rows and columns that
    /// `Dataset::tile_window` names for the tile.
    pub fn render_n_level_tile<F: Fn(i64) -> i64>(
        &self,
        tile: &Tile,
        level: u8,
        samples: Vec<Option<i64>>,
        curve: &F,
    ) -> (r: Result<Vec<ImgTile>, TileError>)
        requires
            self.wf(),
            tile.wf(),
            tile.z + level <= MAX_ZOOM,
            forall|v: i64| call_requires(*curve, (v,)),
        ensures
            r.is_ok() <==> self.dataset.intersects(crate::tile::bounds_of(*tile)) && samples@.len()
                == self.dataset.samples_needed(*tile),
            r matches Err(e) ==> e == (if self.dataset.intersects(crate::tile::bounds_of(*tile)) {
                TileError::SourceAccess
            } else {
                TileError::OutOfBounds
            }),
            r matches Ok(imgs) ==> imgs@.len() == tiles_in_pyramid(level as nat) && exists|
                data: TileData,
            |
                #[trigger] self.dataset.is_tile_data(*tile, samples@, data) && self.is_pyramid(
                    data,
                    level as nat,
                    imgs@,
                    *curve,
                ),
            r matches Ok(imgs) ==> forall|i: int|
                0 <= i < imgs@.len() ==> address(#[trigger] imgs@[i]) == pyramid_tiles(
                    *tile,
                    level as nat,
                )[i],
            r matches Ok(imgs) ==> forall|a: int, b: int|
                0 <= a < b < imgs@.len() ==> address(#[trigger] imgs@[a]) != address(
                    #[trigger] imgs@[b],
                ),
    {
        let ghost given = samples@;
        let tile_data = match self.dataset.get_tile_data(tile, samples) {
            Ok(d) => d,
            Err(e) => {
                return Err(e);
            },
        };
        let imgs = self.render_n_tiledata_zoom(&tile_data, level, curve);
        proof {
            assert(self.dataset.is_tile_data(*tile, given, tile_data));
            assert(self.is_pyramid(tile_data, level as nat, imgs@, *curve));
        }
        Ok(imgs)
    }

    /// Return the value stored at (lat, lon), a point on the spherical
    /// Mercator plane. `fetched` is the sample read at the row and column
    /// that `Dataset::locate` names for the point.
    pub fn value_at_coordinates(&self, lat: i64, lon: i64, fetched: Option<i64>) -> (r: Result<
        Option<i64>,
        TileError,
    >)
        requires
            self.dataset.wf(),
        ensures
            r == (if self.dataset.covers(lat, lon) {
                Ok::<Option<i64>, TileError>(crate::dataset::masked(self.dataset.fill_value, fetched))
            } else {
                Err::<Option<i64>, TileError>(TileError::OutOfBounds)
            }),
    {
        self.dataset.value_at_coordinates(lat, lon, fetched)
    }
}

} // verus!
