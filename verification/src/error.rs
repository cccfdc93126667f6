//! What can go wrong on the way from a source to a tile.

use vstd::prelude::*;

verus! {

/// The kinds of failure that the library reports.
#[derive(Debug, PartialEq, Eq, Structural, Clone, Copy)]
pub enum TileError {
    /// An axis is empty, is not strictly rising or falling, or leaves the
    /// limits of the library.
    InputGeometry,
    /// The tile or the point does not meet the extent of the source.
    OutOfBounds,
    /// The source did not hand over what was asked of it.
    SourceAccess,
    /// A palette description holds no control point.
    PaletteParse,
}

} // verus!
