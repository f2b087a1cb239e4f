//! Places in the texture atlas.

use crate::geometry::Bounds;
use crate::scalar::DevicePixels;
use vstd::prelude::*;

verus! {

/// What a texture of the atlas holds.
#[derive(Clone, Copy, Debug, PartialEq, Eq, Structural)]
pub enum AtlasTextureKind {
    Monochrome,
    Polychrome,
    Subpixel,
}

/// One texture of the atlas.
#[derive(Clone, Copy, Debug, PartialEq, Eq, Structural)]
pub struct AtlasTextureId {
    pub index: u32,
    pub kind: AtlasTextureKind,
}

/// One tile, among all that were ever put into the atlas.
#[derive(Clone, Copy, Debug, PartialEq, Eq, Structural)]
pub struct TileId(pub u32);

/// A tile and where it is.
#[derive(Clone, Copy, Debug)]
pub struct AtlasTile {
    pub texture_id: AtlasTextureId,
    pub tile_id: TileId,
    pub padding: u32,
    pub bounds: Bounds<DevicePixels>,
}

} // verus!
