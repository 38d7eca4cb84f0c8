//! A rasterizer for blob images: images that are kept as a list of draw
//! commands and turned into pixels tile by tile.
//!
//! - [`command`]: the draw commands.
//! - [`format`], [`wire`], [`codec`], [`blob_data`]: the command buffer, the
//!   bytes that a list of commands is kept as, with the proof that reading
//!   gives back what was written.
//! - [`handler`]: the registry of images, and how an image is brought up to
//!   date when the region in view changes.
//! - [`rasterizer`]: from a request for a tile to its pixels.
//! - [`paint`]: the calls into `tiny_skia`, which does the painting.
//! - [`geometry`]: boxes of whole pixels.
//! - [`devtools`]: the switch for live notifications to developer tools.

pub mod blob_data;
pub mod codec;
pub mod command;
pub mod devtools;
pub mod error;
pub mod format;
pub mod geometry;
pub mod handler;
pub mod paint;
pub mod rasterizer;
pub mod wire;

pub use blob_data::{BlobData, BlobDataHeader, BlobDataIterator};
pub use codec::{decode, encode};
pub use command::{BlobImageCommand, BlobImageCommandKind, FillRule};
pub use devtools::{handle_wants_live_notifications, GlobalScope};
pub use error::BlobImageError;
pub use geometry::{
    BlobDirtyRect, Box2D, DeviceIntRect, DirtyRect, LayoutPoint, LayoutRect, Point2D,
};
pub use handler::{BlobCommand, BlobImageKey, ServoBlobImageHandler, TileSize};
pub use rasterizer::{
    BlobImageDescriptor, BlobImageParams, BlobImageRequest, BlobImageResult, ImageFormat,
    RasterizedBlobImage, ServoBlobRasterizer, TileOffset,
};
