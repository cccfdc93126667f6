//! Turns a scalar field on a latitude/longitude grid into the square tiles
//! of a web map.
//!
//! Everything is exact integer arithmetic. Coordinates are whole
//! millimetres on the spherical Mercator plane; sample values and positions
//! on the colour range are whole millionths; a missing sample is `None`.
//!
//! The way from a source to a tile:
//!
//! * a [`Dataset`] holds the two axes of the source and says which rows and
//!   columns a [`Tile`] needs;
//! * the samples read for them make a [`TileData`], the window of the tile,
//!   which regrids itself to the 256 by 256 pixels of a tile and divides
//!   itself into the windows of the four tiles of the next zoom level;
//! * a [`Scale`] places each value on the colour range and a [`ColorMap`]
//!   gives the position its colour;
//! * a [`Renderer`] puts these together into an [`ImgTile`], or into the
//!   tiles of a whole pyramid from one window.
//!
//! Reading the source, evaluating the curves of the curved scales and
//! writing image files are left to the caller.

pub mod axis;
pub mod colormap;
pub mod dataset;
pub mod error;
pub mod pyramid;
pub mod qgis;
pub mod regrid;
pub mod renderer;
pub mod scale;
pub mod tile;
pub mod tiledata;
pub mod utils;

pub use colormap::{rgb, ColorMap, CustomColormap};
pub use dataset::Dataset;
pub use error::TileError;
pub use renderer::{ImgTile, Renderer};
pub use scale::{normalize, Scale};
pub use tile::{Bbox, Tile};
pub use tiledata::TileData;
