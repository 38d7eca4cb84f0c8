//! Why a tile could not be rasterized.

use vstd::prelude::*;

verus! {

/// The failure of one request. It never concerns the other requests of the
/// batch.
#[derive(Clone, Copy, Debug, PartialEq, Eq, Structural)]
pub enum BlobImageError {
    /// The request asks for a pixel format other than RGBA8.
    UnsupportedPixelFormat,
    /// No image is registered under the request's key.
    UnknownImageIdentifier,
    /// The bytes stored for the image are not a command buffer.
    MalformedCommandBuffer,
    /// The rectangle to rasterize has no pixel, or more than a tile can hold.
    DegenerateGeometry,
}

} // verus!
