//! Painting onto a tile, which the `tiny_skia` crate does.
//!
//! A tile is a vector of `4 * width * height` bytes: premultiplied RGBA
//! pixels, row after row. Nothing here is proved. Each function calls
//! `tiny_skia`, and its contract states what is taken on trust of that call.
//! Which bytes come out of painting is not spelled out: the result is given
//! a name, a function of what goes into the call, and the rasterizer's
//! contracts are stated over these names.

use crate::command::FillRule;
use crate::geometry::{Box2D, LayoutPoint};
use vstd::prelude::*;

verus! {

/// The widest tile that `tiny_skia` takes: four bytes per pixel of a row
/// must fit a 32-bit signed number.
pub const TILE_WIDTH_MAX: u32 = 536_870_911;

/// The greatest coordinate of a point of a path. Every whole number from
/// its negative up to it is a single-precision number, which is what a path
/// is made of; beyond it some whole numbers are not.
pub const COORDINATE_MAX: i32 = 16_777_216;

/// One segment of a path under construction.
pub enum PathStep {
    /// A contour starts at this point.
    MoveTo(LayoutPoint),
    /// A straight edge leads to this point.
    LineTo(LayoutPoint),
    /// The contour returns to its start.
    Close,
}

/// `pixel_bytes` bytes are a tile of `width` by `height` pixels that
/// `tiny_skia` accepts.
pub open spec fn tile_shape(width: u32, height: u32, pixel_bytes: nat) -> bool {
    &&& 0 < width <= TILE_WIDTH_MAX
    &&& 0 < height
    &&& pixel_bytes == 4 * width * height
}

/// Both coordinates of `p` are whole numbers that single precision holds
/// as they are.
pub open spec fn spec_exact_in_single(p: LayoutPoint) -> bool {
    &&& -COORDINATE_MAX <= p.x <= COORDINATE_MAX
    &&& -COORDINATE_MAX <= p.y <= COORDINATE_MAX
}

/// `tiny_skia::PathBuilder`, of which Verus sees nothing but the name.
#[verifier::external_type_specification]
#[verifier::external_body]
pub struct ExPathBuilder(tiny_skia::PathBuilder);

/// The segments that a path builder holds, in the order in which they were
/// added, each with its point, whose coordinates are the whole numbers that
/// the builder holds.
pub uninterp spec fn path_steps(builder: tiny_skia::PathBuilder) -> Seq<PathStep>;

/// The tile that `tiny_skia::PixmapMut::fill_rect` leaves where it fills
/// `rect` on the tile `pixels` with the default paint: opaque black drawn
/// over what is there, with anti-aliasing, and no transform or mask.
pub uninterp spec fn painted_rect(pixels: Seq<u8>, width: u32, height: u32, rect: Box2D) -> Seq<u8>;

/// The tile that `tiny_skia::PixmapMut::fill_path` leaves where it fills
/// the path made of `steps` on the tile `pixels` by the rule `fill`, with
/// the default paint and no transform or mask.
pub uninterp spec fn painted_path(pixels: Seq<u8>, width: u32, height: u32, steps: Seq<PathStep>, fill: FillRule) -> Seq<u8>;

/// Calls `tiny_skia::PathBuilder::new`. Taken on trust: the new builder
/// holds no segment.
#[verifier::external_body]
pub(crate) fn path_new() -> (builder: tiny_skia::PathBuilder)
    ensures
        path_steps(builder) == Seq::<PathStep>::empty(),
{
    tiny_skia::PathBuilder::new()
}

/// Calls `tiny_skia::PathBuilder::move_to` on a builder without segments,
/// with a point whose coordinates single precision holds as they are, so
/// that handing them over changes nothing. Taken on trust: the builder then
/// holds the one segment that starts a contour at `p`.
#[verifier::external_body]
pub(crate) fn path_move_to(builder: &mut tiny_skia::PathBuilder, p: &LayoutPoint)
    requires
        path_steps(*old(builder)).len() == 0,
        spec_exact_in_single(*p),
    ensures
        path_steps(*final(builder)) == seq![PathStep::MoveTo(*p)],
{
    builder.move_to(p.x as _, p.y as _);
}

/// Calls `tiny_skia::PathBuilder::line_to` on a builder whose last segment
/// is not a closing one, with a point whose coordinates single precision
/// holds as they are, so that handing them over changes nothing. Taken on
/// trust: the builder then holds one more segment, the edge to `p`.
#[verifier::external_body]
pub(crate) fn path_line_to(builder: &mut tiny_skia::PathBuilder, p: &LayoutPoint)
    requires
        path_steps(*old(builder)).len() > 0,
        !(path_steps(*old(builder)).last() is Close),
        spec_exact_in_single(*p),
    ensures
        path_steps(*final(builder)) == path_steps(*old(builder)).push(PathStep::LineTo(*p)),
{
    builder.line_to(p.x as _, p.y as _);
}

/// Calls `tiny_skia::PathBuilder::close` on a builder whose last segment is
/// not a closing one. Taken on trust: the builder then holds one more
/// segment, the closing one.
#[verifier::external_body]
pub(crate) fn path_close(builder: &mut tiny_skia::PathBuilder)
    requires
        path_steps(*old(builder)).len() > 0,
        !(path_steps(*old(builder)).last() is Close),
    ensures
        path_steps(*final(builder)) == path_steps(*old(builder)).push(PathStep::Close),
{
    builder.close();
}

/// Calls `tiny_skia::PixmapMut::fill_rect` on the tile `pixels`, for a
/// rectangle that has pixels and lies on the tile. Taken on trust: the call
/// returns, the tile keeps its length, and what it then holds depends on
/// nothing but the tile before the call, its shape and the rectangle.
#[verifier::external_body]
pub(crate) fn fill_rect(pixels: &mut Vec<u8>, width: u32, height: u32, rect: &Box2D)
    requires
        tile_shape(width, height, old(pixels)@.len()),
        0 <= rect.min.x < rect.max.x <= width,
        0 <= rect.min.y < rect.max.y <= height,
    ensures
        final(pixels)@ == painted_rect(old(pixels)@, width, height, *rect),
        final(pixels)@.len() == old(pixels)@.len(),
{
    let shape = tiny_skia::IntRect::from_ltrb(rect.min.x, rect.min.y, rect.max.x, rect.max.y);
    let tile = tiny_skia::PixmapMut::from_bytes(pixels.as_mut_slice(), width, height);
    if let (Some(shape), Some(mut tile)) = (shape, tile) {
        tile.fill_rect(
            shape.to_rect(),
            &tiny_skia::Paint::default(),
            tiny_skia::Transform::identity(),
            None,
        );
    }
}

/// Calls `tiny_skia::PathBuilder::finish` and, where that gives a path,
/// `tiny_skia::PixmapMut::fill_path` on the tile `pixels`, with
/// `FillRule::Winding` for `Nonzero` and `FillRule::EvenOdd` for `Evenodd`.
/// Taken on trust: the call returns, the tile keeps its length, and what it
/// then holds depends on nothing but the tile before the call, its shape,
/// the segments of the builder and the rule.
#[verifier::external_body]
pub(crate) fn fill_path(
    pixels: &mut Vec<u8>,
    width: u32,
    height: u32,
    builder: tiny_skia::PathBuilder,
    fill: FillRule,
)
    requires
        tile_shape(width, height, old(pixels)@.len()),
    ensures
        final(pixels)@ == painted_path(old(pixels)@, width, height, path_steps(builder), fill),
        final(pixels)@.len() == old(pixels)@.len(),
{
    let rule = match fill {
        FillRule::Nonzero => tiny_skia::FillRule::Winding,
        FillRule::Evenodd => tiny_skia::FillRule::EvenOdd,
    };
    let path = builder.finish();
    let tile = tiny_skia::PixmapMut::from_bytes(pixels.as_mut_slice(), width, height);
    if let (Some(path), Some(mut tile)) = (path, tile) {
        let paint = tiny_skia::Paint::default();
        tile.fill_path(&path, &paint, rule, tiny_skia::Transform::identity(), None);
    }
}

} // verus!
