//! Decoder for a legacy compressed raster-sprite archive format.
//!
//! The archive holds one or two compressed cells per animation frame.  Each
//! cell is expanded by a byte-stream interpreter into an RGBA pixel buffer,
//! and a frame's cells are then composited into one combined buffer.

use vstd::prelude::*;

pub mod frame;
pub mod sprite_convert;

verus! {

/// Everything that can go wrong while reading an archive.
#[derive(Clone, Copy, Debug, PartialEq, Eq, Structural)]
pub enum SpriteError {
    /// A frame offset or cell header would be read past the end of the
    /// archive buffer.
    MalformedArchive,
    /// A compressed cell stream asked for a read or a pixel write outside
    /// the archive buffer or the cell's pixel buffer, or its declared line
    /// length did not match the bytes actually consumed.
    CorruptCellStream,
    /// The palette holds fewer than the 256 three-byte entries the stream
    /// may index.
    PaletteTooSmall,
}

} // verus!
