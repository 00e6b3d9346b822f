//! How drawing a frame can fail.

use vstd::prelude::*;

verus! {

/// Why a frame could not be drawn. Each of these means that an input to the
/// renderer was inconsistent; none is a state to recover from.
#[derive(Debug, Clone, Copy, PartialEq, Eq, Structural)]
pub enum RenderError {
    /// A pixel to be written lies outside the raster target.
    PixelOutOfBounds,
    /// A ray was followed to a place outside the map.
    CellOutOfBounds,
    /// A texture or a texture coordinate does not exist in the atlas.
    TextureOutOfBounds,
}

} // verus!
