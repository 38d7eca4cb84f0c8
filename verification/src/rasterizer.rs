//! Rasterizing requests: from a registered command buffer to the pixels of
//! a tile.
//!
//! A request is answered in four steps that fail in this order: its pixel
//! format is tested, the tile is laid out, the image is looked up, its
//! buffer is decoded. Then the commands are painted in their order, each
//! cut to the dirty pixels of its bounds that lie on the tile.
//!
//! What a painted shape looks like is the painter's matter, and stands in
//! the contracts as a named result. What is proved is all that surrounds
//! it: which request fails and how, which rectangle a tile reports, in which
//! order and on which region each command is painted, and that no pixel
//! outside that region is touched.

use crate::codec::decode;
use crate::command::{BlobImageCommand, BlobImageCommandKind, DrawCommand, DrawCommandKind};
use crate::error::BlobImageError;
use crate::format::spec_decode;
use crate::geometry::{BlobDirtyRect, Box2D, DeviceIntRect, LayoutPoint};
use crate::handler::{BlobCommand, BlobCommandView, BlobImageKey, ServoBlobImageHandler};
use crate::paint::{
    fill_path, fill_rect, painted_path, painted_rect, path_close, path_line_to, path_move_to,
    path_new, path_steps, spec_exact_in_single, PathStep, COORDINATE_MAX, TILE_WIDTH_MAX,
};
use std::sync::Arc;
use vstd::prelude::*;

verus! {

/// How the pixels of a tile are laid out.
#[derive(Clone, Copy, Debug, PartialEq, Eq, Structural)]
pub enum ImageFormat {
    R8,
    R16,
    BGRA8,
    RGBAF32,
    RG8,
    RG16,
    RGBAI32,
    RGBA8,
}

/// The place of a tile in its image, counted in tiles.
#[derive(Clone, Copy, Debug, PartialEq, Eq, Structural)]
pub struct TileOffset {
    pub x: i32,
    pub y: i32,
}

/// The identity of a request: which image, and which tile of it.
#[derive(Clone, Copy, Debug, PartialEq, Eq, Structural)]
pub struct BlobImageRequest {
    pub key: BlobImageKey,
    pub tile: TileOffset,
}

/// What the tile shall cover and hold.
#[derive(Clone, Copy, Debug, PartialEq, Eq, Structural)]
pub struct BlobImageDescriptor {
    /// The rectangle to rasterize, in the coordinate space of the commands.
    pub rect: DeviceIntRect,
    /// The layout of the pixels.
    pub format: ImageFormat,
}

/// One request of a batch.
#[derive(Clone, Copy, Debug, PartialEq, Eq, Structural)]
pub struct BlobImageParams {
    pub request: BlobImageRequest,
    pub descriptor: BlobImageDescriptor,
    /// The part of the image that has to be painted again.
    pub dirty_rect: BlobDirtyRect,
}

/// A rasterized tile.
#[derive(Clone, Debug, PartialEq, Eq)]
pub struct RasterizedBlobImage {
    /// The rectangle that was rasterized, seen from the corner of the tile.
    pub rasterized_rect: DeviceIntRect,
    /// The pixels of the tile, row after row, four bytes each.
    pub data: Arc<Vec<u8>>,
}

/// What a request comes to.
pub type BlobImageResult = Result<RasterizedBlobImage, BlobImageError>;

/// The highest tile: the rectangle that was rasterized is told in 32-bit
/// signed coordinates.
pub const TILE_HEIGHT_MAX: u32 = 0x7fff_ffff;

/// A tile for `rect` can be had: `rect` has pixels, is no wider and no
/// higher than a tile may be, and its pixels fit one allocation.
pub open spec fn spec_tile_allocatable(rect: DeviceIntRect) -> bool {
    &&& 0 < rect.spec_width() <= TILE_WIDTH_MAX
    &&& 0 < rect.spec_height() <= TILE_HEIGHT_MAX
    &&& 4 * rect.spec_width() * rect.spec_height() <= isize::MAX
}

/// The dirty pixels of `area` that lie on the tile for `rect`, seen from
/// the corner of the tile; the empty box at the origin where there are none.
pub open spec fn spec_local_part(area: Box2D, dirty: BlobDirtyRect, rect: DeviceIntRect) -> Box2D {
    let part = dirty.spec_clip(&area).spec_intersection_unchecked(&rect);
    if part.spec_is_empty() {
        Box2D::spec_zero()
    } else {
        part.spec_relative_to(&rect.min)
    }
}

/// A tile of `width` by `height` pixels, all of them transparent.
pub open spec fn spec_blank_tile(width: u32, height: u32) -> Seq<u8> {
    Seq::new((4 * width * height) as nat, |i: int| 0u8)
}

/// The path of a polygon: a start at its first point, an edge to each
/// further point, and the way back.
pub open spec fn spec_polygon_steps(points: Seq<LayoutPoint>) -> Seq<PathStep>
    recommends
        points.len() > 0,
{
    seq![PathStep::MoveTo(points[0])] + Seq::new(
        (points.len() - 1) as nat,
        |i: int| PathStep::LineTo(points[i + 1]),
    ) + seq![PathStep::Close]
}

/// The tile that holds `after` on the pixels of `region` and `before` on
/// all others. The byte `i` belongs to the pixel `i / 4`, which stands in
/// the column `(i / 4) % width` of the row `(i / 4) / width`.
pub open spec fn spec_restore_outside(
    before: Seq<u8>,
    after: Seq<u8>,
    width: u32,
    region: Box2D,
) -> Seq<u8> {
    Seq::new(
        before.len(),
        |i: int|
            if region.contains((i / 4) % (width as int), (i / 4) / (width as int)) {
                after[i]
            } else {
                before[i]
            },
    )
}

/// Whether a path can be made of `points` that encloses anything and is
/// what the points say: there are at least two of them, and single
/// precision holds every coordinate as it is.
pub open spec fn spec_polygon_paintable(points: Seq<LayoutPoint>) -> bool {
    &&& points.len() >= 2
    &&& forall|i: int| 0 <= i < points.len() ==> spec_exact_in_single(#[trigger] points[i])
}

/// Whether `command` has nothing to paint on the tile for `rect`: no dirty
/// pixel of its bounds lies on the tile, or it is a polygon of which no
/// path can be made.
pub open spec fn spec_degenerate(
    command: DrawCommand,
    dirty: BlobDirtyRect,
    rect: DeviceIntRect,
) -> bool {
    ||| spec_local_part(command.bounds, dirty, rect).spec_is_empty()
    ||| command.kind matches DrawCommandKind::DrawPolygon(points, _) && !spec_polygon_paintable(
        points,
    )
}

/// The tile after `command` was painted on `pixels`. A command paints
/// only the dirty pixels of its bounds that lie on the tile: the shape is
/// painted, and every pixel beyond those is put back as it was. A
/// degenerate command paints nothing.
pub open spec fn spec_paint_command(
    pixels: Seq<u8>,
    width: u32,
    height: u32,
    command: DrawCommand,
    dirty: BlobDirtyRect,
    rect: DeviceIntRect,
) -> Seq<u8> {
    let region = spec_local_part(command.bounds, dirty, rect);
    if spec_degenerate(command, dirty, rect) {
        pixels
    } else {
        spec_restore_outside(
            pixels,
            match command.kind {
                DrawCommandKind::FillRect => painted_rect(pixels, width, height, region),
                DrawCommandKind::DrawPolygon(points, fill) => painted_path(
                    pixels,
                    width,
                    height,
                    spec_polygon_steps(points),
                    fill,
                ),
            },
            width,
            region,
        )
    }
}

/// The tile after `commands` were painted on `pixels`, one after the other,
/// each over what the ones before it left.
pub open spec fn spec_paint_commands(
    pixels: Seq<u8>,
    width: u32,
    height: u32,
    commands: Seq<DrawCommand>,
    dirty: BlobDirtyRect,
    rect: DeviceIntRect,
) -> Seq<u8>
    decreases commands.len(),
{
    if commands.len() == 0 {
        pixels
    } else {
        spec_paint_command(
            spec_paint_commands(pixels, width, height, commands.drop_last(), dirty, rect),
            width,
            height,
            commands.last(),
            dirty,
            rect,
        )
    }
}

/// Why a request fails, or `None` where it succeeds. The tests are made in
/// this order: the pixel format, the rectangle, the key, the buffer.
pub open spec fn spec_rasterize_failure(
    entry: Option<BlobCommandView>,
    params: BlobImageParams,
) -> Option<BlobImageError> {
    if params.descriptor.format != ImageFormat::RGBA8 {
        Some(BlobImageError::UnsupportedPixelFormat)
    } else if !spec_tile_allocatable(params.descriptor.rect) {
        Some(BlobImageError::DegenerateGeometry)
    } else if entry is None {
        Some(BlobImageError::UnknownImageIdentifier)
    } else if spec_decode(entry->0.data) is None {
        Some(BlobImageError::MalformedCommandBuffer)
    } else {
        None
    }
}

/// The pixels of the tile for a request that succeeds on the buffer `data`.
pub open spec fn spec_tile_pixels(data: Seq<u8>, params: BlobImageParams) -> Seq<u8> {
    let rect = params.descriptor.rect;
    let width = rect.spec_width() as u32;
    let height = rect.spec_height() as u32;
    spec_paint_commands(
        spec_blank_tile(width, height),
        width,
        height,
        spec_decode(data)->0,
        params.dirty_rect,
        rect,
    )
}

/// `outcome` is what the request `params` comes to where `entry` is what
/// the registry holds under its key.
pub open spec fn spec_rasterized(
    entry: Option<BlobCommandView>,
    params: BlobImageParams,
    outcome: (BlobImageRequest, BlobImageResult),
) -> bool {
    &&& outcome.0 == params.request
    &&& match outcome.1 {
        Ok(tile) => {
            &&& spec_rasterize_failure(entry, params) is None
            &&& tile.rasterized_rect == spec_local_part(
                params.descriptor.rect,
                params.dirty_rect,
                params.descriptor.rect,
            )
            &&& tile.data@ == spec_tile_pixels(entry->0.data, params)
            &&& tile.data@.len() == 4 * params.descriptor.rect.spec_width()
                * params.descriptor.rect.spec_height()
        },
        Err(error) => spec_rasterize_failure(entry, params) == Some(error),
    }
}

/// Commands are painted in their order: the tile after one more command is
/// that command painted over what the commands before it left.
pub proof fn law_paint_in_order(
    pixels: Seq<u8>,
    width: u32,
    height: u32,
    commands: Seq<DrawCommand>,
    command: DrawCommand,
    dirty: BlobDirtyRect,
    rect: DeviceIntRect,
)
    ensures
        spec_paint_commands(pixels, width, height, Seq::<DrawCommand>::empty(), dirty, rect)
            == pixels,
        spec_paint_commands(pixels, width, height, commands.push(command), dirty, rect)
            == spec_paint_command(
            spec_paint_commands(pixels, width, height, commands, dirty, rect),
            width,
            height,
            command,
            dirty,
            rect,
        ),
{
    assert(commands.push(command).drop_last() =~= commands);
}

/// What `spec_local_part` is in pixels: a pixel of the tile belongs to it
/// exactly if the pixel of the image that it shows is dirty, lies in `area`
/// and lies in `rect`.
pub proof fn lemma_local_part_pixels(area: Box2D, dirty: BlobDirtyRect, rect: DeviceIntRect)
    requires
        rect.spec_width() <= i32::MAX,
        rect.spec_height() <= i32::MAX,
    ensures
        forall|x: int, y: int|
            #[trigger] spec_local_part(area, dirty, rect).contains(x, y) <==> {
                &&& area.contains(x + rect.min.x, y + rect.min.y)
                &&& dirty.contains(x + rect.min.x, y + rect.min.y)
                &&& rect.contains(x + rect.min.x, y + rect.min.y)
            },
{
    let part = dirty.spec_clip(&area).spec_intersection_unchecked(&rect);
    if part.spec_is_empty() {
        assert forall|x: int, y: int| !(#[trigger] part.contains(x, y)) by {}
    }
}

/// A command is cut to its region: painting it leaves the tile as long as
/// it was and leaves every byte of every pixel outside the dirty part of its
/// bounds on the tile as it was.
pub proof fn law_command_is_cut_to_its_region(
    pixels: Seq<u8>,
    width: u32,
    height: u32,
    command: DrawCommand,
    dirty: BlobDirtyRect,
    rect: DeviceIntRect,
)
    ensures
        ({
            let region = spec_local_part(command.bounds, dirty, rect);
            let painted = spec_paint_command(pixels, width, height, command, dirty, rect);
            &&& painted.len() == pixels.len()
            &&& forall|i: int|
                0 <= i < pixels.len() && !region.contains(
                    (i / 4) % (width as int),
                    (i / 4) / (width as int),
                ) ==> #[trigger] painted[i] == pixels[i]
        }),
{
}

/// Commands paint nothing beyond the part of the tile that is dirty:
/// after any commands, the tile is as long as it was and every byte of every
/// pixel outside the dirty part of the tile is as it was.
pub proof fn law_painting_stays_in_the_dirty_part(
    pixels: Seq<u8>,
    width: u32,
    height: u32,
    commands: Seq<DrawCommand>,
    dirty: BlobDirtyRect,
    rect: DeviceIntRect,
)
    requires
        rect.spec_width() <= i32::MAX,
        rect.spec_height() <= i32::MAX,
    ensures
        ({
            let part = spec_local_part(rect, dirty, rect);
            let painted = spec_paint_commands(pixels, width, height, commands, dirty, rect);
            &&& painted.len() == pixels.len()
            &&& forall|i: int|
                0 <= i < pixels.len() && !part.contains(
                    (i / 4) % (width as int),
                    (i / 4) / (width as int),
                ) ==> #[trigger] painted[i] == pixels[i]
        }),
    decreases commands.len(),
{
    if commands.len() > 0 {
        let before = spec_paint_commands(pixels, width, height, commands.drop_last(), dirty, rect);
        law_painting_stays_in_the_dirty_part(
            pixels,
            width,
            height,
            commands.drop_last(),
            dirty,
            rect,
        );
        law_command_is_cut_to_its_region(before, width, height, commands.last(), dirty, rect);
        lemma_local_part_pixels(commands.last().bounds, dirty, rect);
        lemma_local_part_pixels(rect, dirty, rect);
    }
}

/// A tile is transparent wherever it was not to be rasterized: every byte
/// of every pixel outside the rectangle that a tile reports as rasterized is
/// zero.
pub proof fn law_tile_is_blank_outside_the_rasterized_rect(
    entry: Option<BlobCommandView>,
    params: BlobImageParams,
    outcome: (BlobImageRequest, BlobImageResult),
    i: int,
)
    requires
        spec_rasterized(entry, params, outcome),
        outcome.1 is Ok,
        0 <= i < outcome.1->Ok_0.data@.len(),
        !outcome.1->Ok_0.rasterized_rect.contains(
            (i / 4) % params.descriptor.rect.spec_width(),
            (i / 4) / params.descriptor.rect.spec_width(),
        ),
    ensures
        outcome.1->Ok_0.data@[i] == 0,
{
    let rect = params.descriptor.rect;
    let width = rect.spec_width() as u32;
    let height = rect.spec_height() as u32;
    law_painting_stays_in_the_dirty_part(
        spec_blank_tile(width, height),
        width,
        height,
        spec_decode(entry->0.data)->0,
        params.dirty_rect,
        rect,
    );
}

/// A request has one outcome: whatever rasterizes it, and in whatever order
/// a batch is worked through, the request and what the registry holds
/// under its key decide the identity, the rectangle and every pixel of the
/// tile, or the failure.
pub proof fn law_outcome_determined(
    entry: Option<BlobCommandView>,
    params: BlobImageParams,
    a: (BlobImageRequest, BlobImageResult),
    b: (BlobImageRequest, BlobImageResult),
)
    requires
        spec_rasterized(entry, params, a),
        spec_rasterized(entry, params, b),
    ensures
        a.0 == b.0,
        match (a.1, b.1) {
            (Ok(x), Ok(y)) => x.rasterized_rect == y.rasterized_rect && x.data@ == y.data@,
            (Err(x), Err(y)) => x == y,
            _ => false,
        },
{
}

/// A request for a key that is not registered fails, with
/// `UnknownImageIdentifier` unless its format or its rectangle is refused
/// before the key is looked at; what else is registered plays no part.
pub proof fn law_unknown_key(params: BlobImageParams, outcome: (BlobImageRequest, BlobImageResult))
    requires
        spec_rasterized(None, params, outcome),
    ensures
        outcome.0 == params.request,
        outcome.1 is Err,
        params.descriptor.format == ImageFormat::RGBA8 && spec_tile_allocatable(
            params.descriptor.rect,
        ) ==> outcome.1 == Err::<RasterizedBlobImage, BlobImageError>(
            BlobImageError::UnknownImageIdentifier,
        ),
{
}

/// The width and the height of the tile for `rect`, or `None` where no tile
/// can be had for it.
pub fn tile_dimensions(rect: &DeviceIntRect) -> (r: Option<(u32, u32)>)
    ensures
        match r {
            Some((width, height)) => {
                &&& spec_tile_allocatable(*rect)
                &&& width == rect.spec_width()
                &&& height == rect.spec_height()
            },
            None => !spec_tile_allocatable(*rect),
        },
{
    let width: i64 = rect.width();
    let height: i64 = rect.height();
    if width <= 0 || width > TILE_WIDTH_MAX as i64 || height <= 0 || height
        > TILE_HEIGHT_MAX as i64 {
        return None;
    }
    assert(4 * width * height <= 0x7fff_ffff_0000_0000) by (nonlinear_arith)
        requires
            0 < width <= 536_870_911,
            0 < height <= 0xffff_ffff,
    ;
    let bytes: u64 = 4 * (width as u64) * (height as u64);
    if bytes > isize::MAX as u64 {
        return None;
    }
    Some((width as u32, height as u32))
}

/// A tile of `width` by `height` pixels, all of them transparent.
pub fn blank_tile(width: u32, height: u32) -> (pixels: Vec<u8>)
    requires
        4 * width * height <= isize::MAX,
    ensures
        pixels@ == spec_blank_tile(width, height),
{
    assert(4 * (width as u64) * (height as u64) <= isize::MAX) by (nonlinear_arith)
        requires
            4 * width * height <= isize::MAX,
    ;
    let bytes: u64 = 4 * (width as u64) * (height as u64);
    let pixels = vec![0u8; bytes as usize];
    pixels
}

/// The dirty pixels of `area` that lie on the tile for `rect`, seen from
/// the corner of the tile.
pub fn local_part(area: &Box2D, dirty: &BlobDirtyRect, rect: &DeviceIntRect) -> (part: Box2D)
    requires
        rect.spec_width() <= i32::MAX,
        rect.spec_height() <= i32::MAX,
    ensures
        part == spec_local_part(*area, *dirty, *rect),
        forall|x: int, y: int|
            #[trigger] part.contains(x, y) <==> {
                &&& area.contains(x + rect.min.x, y + rect.min.y)
                &&& dirty.contains(x + rect.min.x, y + rect.min.y)
                &&& rect.contains(x + rect.min.x, y + rect.min.y)
            },
        !part.spec_is_empty() ==> {
            &&& 0 <= part.min.x < part.max.x <= rect.spec_width()
            &&& 0 <= part.min.y < part.max.y <= rect.spec_height()
        },
{
    let part = dirty.clip(area).intersection_unchecked(rect);
    if part.is_empty() {
        Box2D::zero()
    } else {
        part.relative_to(&rect.min)
    }
}

/// Whether a path can be made of `points`: see `spec_polygon_paintable`.
pub fn polygon_paintable(points: &Vec<LayoutPoint>) -> (paintable: bool)
    ensures
        paintable == spec_polygon_paintable(points@),
{
    if points.len() < 2 {
        return false;
    }
    let mut i: usize = 0;
    while i < points.len()
        invariant
            i <= points.len(),
            forall|k: int| 0 <= k < i ==> spec_exact_in_single(#[trigger] points@[k]),
        decreases points.len() - i,
    {
        let p: LayoutPoint = points[i];
        if p.x < -COORDINATE_MAX || p.x > COORDINATE_MAX || p.y < -COORDINATE_MAX || p.y
            > COORDINATE_MAX {
            return false;
        }
        i += 1;
    }
    true
}

/// The path of the polygon through `points`.
pub(crate) fn polygon_path(points: &Vec<LayoutPoint>) -> (builder: tiny_skia::PathBuilder)
    requires
        spec_polygon_paintable(points@),
    ensures
        path_steps(builder) == spec_polygon_steps(points@),
{
    let mut builder = path_new();
    path_move_to(&mut builder, &points[0]);
    let mut i: usize = 1;
    assert(path_steps(builder) =~= seq![PathStep::MoveTo(points@[0])] + Seq::new(
        0,
        |k: int| PathStep::LineTo(points@[k + 1]),
    ));
    while i < points.len()
        invariant
            1 <= i <= points.len(),
            spec_polygon_paintable(points@),
            path_steps(builder) == seq![PathStep::MoveTo(points@[0])] + Seq::new(
                (i - 1) as nat,
                |k: int| PathStep::LineTo(points@[k + 1]),
            ),
        decreases points.len() - i,
    {
        path_line_to(&mut builder, &points[i]);
        assert(path_steps(builder) =~= seq![PathStep::MoveTo(points@[0])] + Seq::new(
            i as nat,
            |k: int| PathStep::LineTo(points@[k + 1]),
        ));
        i += 1;
    }
    path_close(&mut builder);
    builder
}

/// Puts the bytes of `before` back on every pixel outside `region`. This is
/// how a painted shape is cut to a region: it is painted on the whole
/// tile, and what it did beyond the region is undone.
pub fn restore_outside(pixels: &mut Vec<u8>, before: &Vec<u8>, width: u32, region: &Box2D)
    requires
        width > 0,
        old(pixels)@.len() == before@.len(),
    ensures
        final(pixels)@ == spec_restore_outside(before@, old(pixels)@, width, *region),
{
    let ghost after = pixels@;
    let mut i: usize = 0;
    while i < pixels.len()
        invariant
            width > 0,
            i <= pixels@.len(),
            pixels@.len() == before@.len(),
            pixels@.len() == after.len(),
            forall|k: int|
                0 <= k < i ==> pixels@[k] == spec_restore_outside(before@, after, width, *region)[k],
            forall|k: int| i <= k < pixels@.len() ==> pixels@[k] == after[k],
        decreases pixels@.len() - i,
    {
        let pixel: usize = i / 4;
        let column: i64 = (pixel % (width as usize)) as i64;
        let row: i64 = (pixel / (width as usize)) as i64;
        let inside = region.min.x as i64 <= column && column < region.max.x as i64
            && region.min.y as i64 <= row && row < region.max.y as i64;
        if !inside {
            pixels[i] = before[i];
        }
        i += 1;
    }
}

/// What the registry holds under the key of a request is rasterized for
/// that request: see `spec_rasterized`.
pub struct ServoBlobRasterizer<'a> {
    handler: &'a ServoBlobImageHandler,
}

impl<'a> ServoBlobRasterizer<'a> {
    /// The registry that the rasterizer reads.
    pub closed spec fn registry(&self) -> Map<BlobImageKey, BlobCommandView> {
        self.handler@
    }

    /// What the registry holds under `key`, if anything.
    pub open spec fn entry(&self, key: BlobImageKey) -> Option<BlobCommandView> {
        if self.registry().contains_key(key) {
            Some(self.registry()[key])
        } else {
            None
        }
    }

    /// A rasterizer that reads `handler`.
    pub fn new(handler: &'a ServoBlobImageHandler) -> (rasterizer: Self)
        ensures
            rasterizer.registry() == handler@,
    {
        ServoBlobRasterizer { handler }
    }

    /// Paints one command on the tile `pixels` for the request `request`.
    /// A degenerate command leaves the tile as it is, which is reported and
    /// is no failure of the request.
    pub fn process_blob(
        pixels: &mut Vec<u8>,
        width: u32,
        height: u32,
        command: &BlobImageCommand,
        request: &BlobImageParams,
    ) -> (r: Result<(), BlobImageError>)
        requires
            spec_tile_allocatable(request.descriptor.rect),
            width == request.descriptor.rect.spec_width(),
            height == request.descriptor.rect.spec_height(),
            old(pixels)@.len() == 4 * width * height,
        ensures
            final(pixels)@ == spec_paint_command(
                old(pixels)@,
                width,
                height,
                command@,
                request.dirty_rect,
                request.descriptor.rect,
            ),
            final(pixels)@.len() == old(pixels)@.len(),
            match r {
                Ok(_) => !spec_degenerate(command@, request.dirty_rect, request.descriptor.rect),
                Err(error) => {
                    &&& error == BlobImageError::DegenerateGeometry
                    &&& spec_degenerate(command@, request.dirty_rect, request.descriptor.rect)
                    &&& final(pixels)@ == old(pixels)@
                },
            },
    {
        let region = local_part(&command.bounds, &request.dirty_rect, &request.descriptor.rect);
        if region.is_empty() {
            return Err(BlobImageError::DegenerateGeometry);
        }
        if let BlobImageCommandKind::DrawPolygon(coordinates, _) = &command.kind {
            if !polygon_paintable(coordinates) {
                return Err(BlobImageError::DegenerateGeometry);
            }
        }
        let before = pixels.clone();
        match &command.kind {
            BlobImageCommandKind::FillRect => {
                fill_rect(pixels, width, height, &region);
            },
            BlobImageCommandKind::DrawPolygon(coordinates, fill) => {
                let path_builder = polygon_path(coordinates);
                fill_path(pixels, width, height, path_builder, *fill);
            },
        }
        restore_outside(pixels, &before, width, &region);
        Ok(())
    }

    /// Makes a tile of the painted `pixels`: the answer to `request`.
    pub fn package_tile(request: &BlobImageParams, pixels: Vec<u8>) -> (outcome: (
        BlobImageRequest,
        BlobImageResult,
    ))
        requires
            spec_tile_allocatable(request.descriptor.rect),
        ensures
            outcome.0 == request.request,
            outcome.1 matches Ok(tile) && tile.data@ == pixels@ && tile.rasterized_rect
                == spec_local_part(
                request.descriptor.rect,
                request.dirty_rect,
                request.descriptor.rect,
            ),
    {
        let rect = request.descriptor.rect;
        let rasterized_rect = local_part(&rect, &request.dirty_rect, &rect);
        (request.request, Ok(RasterizedBlobImage { rasterized_rect, data: Arc::new(pixels) }))
    }

    /// Rasterizes `request` from `entry`, which is what the registry holds
    /// under the key of the request, or `None` where it holds nothing. A
    /// failure is an answer like any other; it concerns this request alone.
    pub fn rasterize_entry(entry: Option<&BlobCommand>, request: &BlobImageParams) -> (outcome: (
        BlobImageRequest,
        BlobImageResult,
    ))
        ensures
            spec_rasterized(
                match entry {
                    Some(command) => Some(command@),
                    None => None,
                },
                *request,
                outcome,
            ),
    {
        match request.descriptor.format {
            ImageFormat::RGBA8 => {},
            _ => {
                return (request.request, Err(BlobImageError::UnsupportedPixelFormat));
            },
        }
        let rect = request.descriptor.rect;
        let (width, height) = match tile_dimensions(&rect) {
            Some(dimensions) => dimensions,
            None => {
                return (request.request, Err(BlobImageError::DegenerateGeometry));
            },
        };
        let command = match entry {
            Some(command) => command,
            None => {
                return (request.request, Err(BlobImageError::UnknownImageIdentifier));
            },
        };
        let blob_data = match decode(command.data().as_slice()) {
            Ok(commands) => commands,
            Err(_) => {
                return (request.request, Err(BlobImageError::MalformedCommandBuffer));
            },
        };
        let mut pixels = blank_tile(width, height);
        let ghost blank = pixels@;
        let ghost all = blob_data.deep_view();
        let mut i: usize = 0;
        while i < blob_data.len()
            invariant
                i <= blob_data.len(),
                all == blob_data.deep_view(),
                spec_tile_allocatable(request.descriptor.rect),
                width == request.descriptor.rect.spec_width(),
                height == request.descriptor.rect.spec_height(),
                pixels@.len() == 4 * width * height,
                pixels@ == spec_paint_commands(
                    blank,
                    width,
                    height,
                    all.take(i as int),
                    request.dirty_rect,
                    request.descriptor.rect,
                ),
            decreases blob_data.len() - i,
        {
            // a command that has nothing to paint is passed over
            let _skipped = Self::process_blob(&mut pixels, width, height, &blob_data[i], request);
            proof {
                let longer = all.take(i + 1);
                assert(longer.drop_last() =~= all.take(i as int));
            }
            i += 1;
        }
        assert(all.take(i as int) =~= all);
        Self::package_tile(request, pixels)
    }

    /// Rasterizes `request` from what the registry holds under its key.
    pub fn rasterize_blob(&self, request: &BlobImageParams) -> (outcome: (
        BlobImageRequest,
        BlobImageResult,
    ))
        ensures
            spec_rasterized(self.entry(request.request.key), *request, outcome),
    {
        Self::rasterize_entry(self.handler.get(request.request.key), request)
    }

    /// Rasterizes the requests of a batch, one after the other in their
    /// order. Every request gets its answer, in the place of the request; a
    /// request that fails takes nothing from the others.
    pub fn rasterize(&self, requests: &[BlobImageParams], _low_priority: bool) -> (outcomes: Vec<
        (BlobImageRequest, BlobImageResult),
    >)
        ensures
            outcomes@.len() == requests@.len(),
            forall|i: int|
                0 <= i < requests@.len() ==> spec_rasterized(
                    self.entry(requests@[i].request.key),
                    requests@[i],
                    #[trigger] outcomes@[i],
                ),
    {
        let mut outcomes: Vec<(BlobImageRequest, BlobImageResult)> = Vec::new();
        let mut i: usize = 0;
        while i < requests.len()
            invariant
                i <= requests@.len(),
                outcomes@.len() == i,
                forall|k: int|
                    0 <= k < i ==> spec_rasterized(
                        self.entry(requests@[k].request.key),
                        requests@[k],
                        #[trigger] outcomes@[k],
                    ),
            decreases requests@.len() - i,
        {
            let outcome = self.rasterize_blob(&requests[i]);
            outcomes.push(outcome);
            i += 1;
        }
        outcomes
    }
}

} // verus!
