//! What can stop a conversion before any pixel is drawn.

use vstd::prelude::*;

verus! {

/// Why a requested image cannot be laid out over the samples at hand.
#[derive(Clone, Copy, Debug, PartialEq, Eq, Structural)]
pub enum GeometryFault {
    /// The requested width is zero.
    ZeroWidth,
    /// The requested height is zero.
    ZeroHeight,
    /// There are more columns to draw than samples to draw them from, so a
    /// column would get no sample at all.
    TooFewSamples,
    /// The requested image is larger than a raster can hold.
    TooLarge,
}

/// A failed conversion. Nothing is retried and nothing is rendered in part:
/// the first violated precondition ends the conversion.
#[derive(Clone, Copy, Debug, PartialEq, Eq, Structural)]
pub enum ThumbnailError {
    /// The samples are not in a supported signed format.
    UnsupportedFormat,
    /// The samples do not divide into whole frames.
    CorruptInput,
    /// The requested geometry cannot be drawn.
    DegenerateGeometry(GeometryFault),
    /// A colour string is not of the form `#RRGGBB`.
    InvalidConfig,
}

} // verus!
