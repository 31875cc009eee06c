//! Error values reported by the engine.

use vstd::prelude::*;

verus! {

/// Everything that can go wrong while tiling an image, retrieving tile
/// data, or assembling the metadata document.  Every failure is terminal
/// for the call in which it occurs; nothing is retried internally.
#[derive(Debug)]
pub enum TileError {
    /// The requested tile size is zero, which would make the grid undefined.
    InvalidTileSize,
    /// The input bytes could not be decoded as a supported raster format.
    /// Carries the codec's diagnostic message.
    DecodeError { message: String },
    /// A tile could not be encoded.  Carries the codec's diagnostic message.
    EncodeError { message: String },
    /// A tile index lies outside the tile list.
    IndexOutOfBounds,
    /// A page description cannot be represented in the metadata document.
    MetadataParseError { message: String },
}

} // verus!
