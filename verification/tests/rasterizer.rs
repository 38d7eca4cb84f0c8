use blob_rasterizer::codec::encode;
use blob_rasterizer::command::{BlobImageCommand, FillRule};
use blob_rasterizer::error::BlobImageError;
use blob_rasterizer::geometry::{Box2D, DirtyRect, Point2D};
use blob_rasterizer::handler::{BlobImageKey, ServoBlobImageHandler};
use blob_rasterizer::rasterizer::{
    blank_tile, local_part, polygon_paintable, restore_outside, tile_dimensions,
    BlobImageDescriptor,
    BlobImageParams, BlobImageRequest, BlobImageResult, ImageFormat, RasterizedBlobImage,
    ServoBlobRasterizer, TileOffset,
};
use rayon::iter::{IntoParallelRefIterator, ParallelIterator};
use std::sync::Arc;

const CLEAR: [u8; 4] = [0, 0, 0, 0];
const BLACK: [u8; 4] = [0, 0, 0, 255];

fn rect(min_x: i32, min_y: i32, max_x: i32, max_y: i32) -> Box2D {
    Box2D::from_coords(min_x, min_y, max_x, max_y)
}

fn key(n: u32) -> BlobImageKey {
    BlobImageKey { namespace: 1, key: n }
}

fn request(n: u32, target: Box2D, dirty: DirtyRect) -> BlobImageParams {
    BlobImageParams {
        request: BlobImageRequest { key: key(n), tile: TileOffset { x: 0, y: 0 } },
        descriptor: BlobImageDescriptor { rect: target, format: ImageFormat::RGBA8 },
        dirty_rect: dirty,
    }
}

fn triangle() -> BlobImageCommand {
    BlobImageCommand::draw_polygon(
        vec![Point2D::new(0, 0), Point2D::new(10, 0), Point2D::new(5, 10)],
        FillRule::Nonzero,
        rect(0, 0, 10, 10),
    )
}

fn handler_with(n: u32, commands: Vec<BlobImageCommand>) -> ServoBlobImageHandler {
    let mut handler = ServoBlobImageHandler::new();
    handler.add(key(n), Arc::new(encode(&commands)), &rect(0, 0, 10, 10), 256);
    handler
}

fn pixel(tile: &RasterizedBlobImage, width: usize, x: usize, y: usize) -> [u8; 4] {
    let at = 4 * (y * width + x);
    [tile.data[at], tile.data[at + 1], tile.data[at + 2], tile.data[at + 3]]
}

fn tile_of(outcome: (BlobImageRequest, BlobImageResult)) -> RasterizedBlobImage {
    outcome.1.unwrap()
}

#[test]
fn fill_rect_paints_the_whole_tile() {
    let handler = handler_with(1, vec![BlobImageCommand::fill_rect(rect(0, 0, 10, 10))]);
    let rasterizer = ServoBlobRasterizer::new(&handler);
    let outcomes = rasterizer.rasterize(&[request(1, rect(0, 0, 10, 10), DirtyRect::All)], false);
    assert_eq!(outcomes.len(), 1);
    assert_eq!(outcomes[0].0, BlobImageRequest { key: key(1), tile: TileOffset { x: 0, y: 0 } });
    let tile = outcomes[0].1.as_ref().unwrap();
    assert_eq!(tile.rasterized_rect, rect(0, 0, 10, 10));
    assert_eq!(tile.data.len(), 400);
    for y in 0..10 {
        for x in 0..10 {
            assert_eq!(pixel(tile, 10, x, y), BLACK);
        }
    }
}

#[test]
fn polygon_is_cut_to_the_dirty_rect() {
    let handler = handler_with(1, vec![triangle()]);
    let rasterizer = ServoBlobRasterizer::new(&handler);
    let params = request(1, rect(0, 0, 10, 10), DirtyRect::Partial(rect(0, 0, 5, 5)));
    let tile = tile_of(rasterizer.rasterize_blob(&params));
    assert_eq!(tile.rasterized_rect, rect(0, 0, 5, 5));
    assert_eq!(tile.data.len(), 400);
    for y in 0..10 {
        for x in 0..10 {
            if x >= 5 || y >= 5 {
                assert_eq!(pixel(&tile, 10, x, y), CLEAR);
            }
        }
    }
    // well inside the triangle and inside the dirty rect
    assert_eq!(pixel(&tile, 10, 3, 1), BLACK);
    assert_eq!(pixel(&tile, 10, 4, 4), BLACK);
    // inside the dirty rect, left of the triangle
    assert_eq!(pixel(&tile, 10, 0, 4), CLEAR);
}

#[test]
fn polygon_with_everything_dirty_is_painted_whole() {
    let handler = handler_with(1, vec![triangle()]);
    let rasterizer = ServoBlobRasterizer::new(&handler);
    let tile = tile_of(rasterizer.rasterize_blob(&request(1, rect(0, 0, 10, 10), DirtyRect::All)));
    assert_eq!(tile.rasterized_rect, rect(0, 0, 10, 10));
    assert_eq!(pixel(&tile, 10, 5, 1), BLACK);
    assert_eq!(pixel(&tile, 10, 5, 7), BLACK);
    assert_eq!(pixel(&tile, 10, 8, 1), BLACK);
    assert_eq!(pixel(&tile, 10, 0, 9), CLEAR);
    assert_eq!(pixel(&tile, 10, 9, 9), CLEAR);
}

#[test]
fn polygon_starts_at_its_first_point() {
    // a triangle away from the origin: had the path started at (0, 0), the
    // pixels between the origin and the triangle would be painted
    let far = BlobImageCommand::draw_polygon(
        vec![Point2D::new(6, 6), Point2D::new(10, 6), Point2D::new(10, 10)],
        FillRule::Nonzero,
        rect(0, 0, 10, 10),
    );
    let handler = handler_with(1, vec![far]);
    let rasterizer = ServoBlobRasterizer::new(&handler);
    let tile = tile_of(rasterizer.rasterize_blob(&request(1, rect(0, 0, 10, 10), DirtyRect::All)));
    assert_eq!(pixel(&tile, 10, 9, 7), BLACK);
    assert_eq!(pixel(&tile, 10, 3, 3), CLEAR);
    assert_eq!(pixel(&tile, 10, 5, 4), CLEAR);
    assert_eq!(pixel(&tile, 10, 6, 9), CLEAR);
}

#[test]
fn polygon_is_cut_to_its_bounds() {
    let narrow = BlobImageCommand::draw_polygon(
        vec![Point2D::new(0, 0), Point2D::new(10, 0), Point2D::new(10, 10), Point2D::new(0, 10)],
        FillRule::Evenodd,
        rect(2, 3, 4, 6),
    );
    let handler = handler_with(1, vec![narrow]);
    let rasterizer = ServoBlobRasterizer::new(&handler);
    let tile = tile_of(rasterizer.rasterize_blob(&request(1, rect(0, 0, 10, 10), DirtyRect::All)));
    for y in 0..10 {
        for x in 0..10 {
            let inside = (2..4).contains(&x) && (3..6).contains(&y);
            assert_eq!(pixel(&tile, 10, x, y), if inside { BLACK } else { CLEAR });
        }
    }
}

#[test]
fn fill_rule_decides_what_a_path_that_winds_twice_encloses() {
    let twice = vec![
        Point2D::new(2, 2),
        Point2D::new(8, 2),
        Point2D::new(8, 8),
        Point2D::new(2, 8),
        Point2D::new(2, 2),
        Point2D::new(8, 2),
        Point2D::new(8, 8),
        Point2D::new(2, 8),
    ];
    let nonzero = BlobImageCommand::draw_polygon(twice.clone(), FillRule::Nonzero, rect(0, 0, 10, 10));
    let evenodd = BlobImageCommand::draw_polygon(twice, FillRule::Evenodd, rect(0, 0, 10, 10));
    let mut handler = ServoBlobImageHandler::new();
    handler.add(key(1), Arc::new(encode(&vec![nonzero])), &rect(0, 0, 10, 10), 256);
    handler.add(key(2), Arc::new(encode(&vec![evenodd])), &rect(0, 0, 10, 10), 256);
    let rasterizer = handler.create_blob_rasterizer();
    let filled = tile_of(rasterizer.rasterize_blob(&request(1, rect(0, 0, 10, 10), DirtyRect::All)));
    let hollow = tile_of(rasterizer.rasterize_blob(&request(2, rect(0, 0, 10, 10), DirtyRect::All)));
    for y in 0..10 {
        for x in 0..10 {
            let inside = (2..8).contains(&x) && (2..8).contains(&y);
            assert_eq!(pixel(&filled, 10, x, y), if inside { BLACK } else { CLEAR });
            assert_eq!(pixel(&hollow, 10, x, y), CLEAR);
        }
    }
}

#[test]
fn process_blob_reports_commands_that_paint_nothing() {
    let params = request(1, rect(0, 0, 4, 4), DirtyRect::Partial(rect(0, 0, 2, 2)));
    let mut pixels = blank_tile(4, 4);
    let beside = BlobImageCommand::fill_rect(rect(2, 2, 4, 4));
    assert_eq!(
        ServoBlobRasterizer::process_blob(&mut pixels, 4, 4, &beside, &params),
        Err(BlobImageError::DegenerateGeometry)
    );
    let pointless = BlobImageCommand::draw_polygon(vec![], FillRule::Nonzero, rect(0, 0, 4, 4));
    assert_eq!(
        ServoBlobRasterizer::process_blob(&mut pixels, 4, 4, &pointless, &params),
        Err(BlobImageError::DegenerateGeometry)
    );
    let dot = BlobImageCommand::draw_polygon(
        vec![Point2D::new(1, 1)],
        FillRule::Nonzero,
        rect(0, 0, 4, 4),
    );
    assert_eq!(
        ServoBlobRasterizer::process_blob(&mut pixels, 4, 4, &dot, &params),
        Err(BlobImageError::DegenerateGeometry)
    );
    let far = BlobImageCommand::draw_polygon(
        vec![Point2D::new(-4, -4), Point2D::new(16_777_217, -4), Point2D::new(-4, 8)],
        FillRule::Nonzero,
        rect(0, 0, 4, 4),
    );
    assert_eq!(
        ServoBlobRasterizer::process_blob(&mut pixels, 4, 4, &far, &params),
        Err(BlobImageError::DegenerateGeometry)
    );
    assert_eq!(pixels, vec![0u8; 64]);
    let near = BlobImageCommand::draw_polygon(
        vec![Point2D::new(-4, -4), Point2D::new(16_777_216, -4), Point2D::new(-4, 16_777_216)],
        FillRule::Nonzero,
        rect(0, 0, 1, 1),
    );
    assert_eq!(ServoBlobRasterizer::process_blob(&mut pixels, 4, 4, &near, &params), Ok(()));
    assert_eq!(pixels[..4], BLACK);
    assert_eq!(pixels[4..], vec![0u8; 60]);
    let mut pixels = blank_tile(4, 4);
    let square = BlobImageCommand::fill_rect(rect(1, 1, 4, 4));
    assert_eq!(ServoBlobRasterizer::process_blob(&mut pixels, 4, 4, &square, &params), Ok(()));
    for y in 0..4 {
        for x in 0..4 {
            let at = 4 * (y * 4 + x);
            let expected = if x == 1 && y == 1 { BLACK } else { CLEAR };
            assert_eq!(pixels[at..at + 4], expected);
        }
    }
}

#[test]
fn package_tile_wraps_the_pixels() {
    let params = request(9, rect(10, 10, 12, 13), DirtyRect::Partial(rect(11, 0, 30, 30)));
    let pixels: Vec<u8> = (0..24).collect();
    let (identity, outcome) = ServoBlobRasterizer::package_tile(&params, pixels.clone());
    assert_eq!(identity, params.request);
    let tile = outcome.unwrap();
    assert_eq!(*tile.data, pixels);
    assert_eq!(tile.rasterized_rect, rect(1, 0, 2, 3));
}

#[test]
fn polygon_without_points_paints_nothing() {
    let handler = handler_with(
        1,
        vec![BlobImageCommand::draw_polygon(vec![], FillRule::Nonzero, rect(0, 0, 10, 10))],
    );
    let rasterizer = ServoBlobRasterizer::new(&handler);
    let tile = tile_of(rasterizer.rasterize_blob(&request(1, rect(0, 0, 10, 10), DirtyRect::All)));
    assert_eq!(*tile.data, vec![0u8; 400]);
    assert_eq!(tile.rasterized_rect, rect(0, 0, 10, 10));
}

#[test]
fn polygon_without_area_paints_nothing() {
    let line = BlobImageCommand::draw_polygon(
        vec![Point2D::new(1, 1), Point2D::new(9, 1)],
        FillRule::Nonzero,
        rect(0, 0, 10, 10),
    );
    let dot = BlobImageCommand::draw_polygon(
        vec![Point2D::new(4, 4)],
        FillRule::Evenodd,
        rect(0, 0, 10, 10),
    );
    let handler = handler_with(1, vec![line, dot]);
    let rasterizer = ServoBlobRasterizer::new(&handler);
    let tile = tile_of(rasterizer.rasterize_blob(&request(1, rect(0, 0, 10, 10), DirtyRect::All)));
    assert_eq!(*tile.data, vec![0u8; 400]);
}

#[test]
fn fill_rect_is_cut_to_the_dirty_rect() {
    let handler = handler_with(1, vec![BlobImageCommand::fill_rect(rect(0, 0, 10, 10))]);
    let rasterizer = ServoBlobRasterizer::new(&handler);
    let params = request(1, rect(0, 0, 10, 10), DirtyRect::Partial(rect(2, 3, 7, 5)));
    let tile = tile_of(rasterizer.rasterize_blob(&params));
    assert_eq!(tile.rasterized_rect, rect(2, 3, 7, 5));
    for y in 0..10 {
        for x in 0..10 {
            let inside = (2..7).contains(&x) && (3..5).contains(&y);
            assert_eq!(pixel(&tile, 10, x, y), if inside { BLACK } else { CLEAR });
        }
    }
}

#[test]
fn bounds_are_seen_from_the_corner_of_the_tile() {
    let handler = handler_with(1, vec![BlobImageCommand::fill_rect(rect(102, 201, 104, 203))]);
    let rasterizer = ServoBlobRasterizer::new(&handler);
    let tile = tile_of(
        rasterizer.rasterize_blob(&request(1, rect(100, 200, 108, 204), DirtyRect::All)),
    );
    assert_eq!(tile.rasterized_rect, rect(0, 0, 8, 4));
    assert_eq!(tile.data.len(), 4 * 8 * 4);
    for y in 0..4 {
        for x in 0..8 {
            let inside = (2..4).contains(&x) && (1..3).contains(&y);
            assert_eq!(pixel(&tile, 8, x, y), if inside { BLACK } else { CLEAR });
        }
    }
}

#[test]
fn rasterized_rect_is_the_dirty_part_of_the_tile() {
    let handler = handler_with(1, vec![]);
    let rasterizer = ServoBlobRasterizer::new(&handler);
    let target = rect(100, 200, 110, 220);
    let dirty = DirtyRect::Partial(rect(95, 205, 104, 300));
    let tile = tile_of(rasterizer.rasterize_blob(&request(1, target, dirty)));
    assert_eq!(tile.rasterized_rect, rect(0, 5, 4, 20));
    assert_eq!(*tile.data, vec![0u8; 4 * 10 * 20]);

    let apart = DirtyRect::Partial(rect(0, 0, 5, 5));
    let tile = tile_of(rasterizer.rasterize_blob(&request(1, target, apart)));
    assert_eq!(tile.rasterized_rect, Box2D::zero());
}

#[test]
fn commands_outside_the_tile_paint_nothing() {
    let handler = handler_with(
        1,
        vec![
            BlobImageCommand::fill_rect(rect(20, 20, 30, 30)),
            BlobImageCommand::fill_rect(rect(-30, -30, 0, 0)),
            BlobImageCommand::fill_rect(rect(5, 5, 5, 5)),
            BlobImageCommand::fill_rect(rect(8, 8, 2, 2)),
            BlobImageCommand::fill_rect(rect(i32::MIN, i32::MIN, i32::MIN + 1, i32::MAX)),
        ],
    );
    let rasterizer = ServoBlobRasterizer::new(&handler);
    let tile = tile_of(rasterizer.rasterize_blob(&request(1, rect(0, 0, 10, 10), DirtyRect::All)));
    assert_eq!(*tile.data, vec![0u8; 400]);
}

#[test]
fn later_commands_are_painted_over_earlier_ones() {
    let handler = handler_with(
        1,
        vec![
            BlobImageCommand::fill_rect(rect(0, 0, 4, 4)),
            BlobImageCommand::fill_rect(rect(2, 2, 6, 6)),
        ],
    );
    let rasterizer = ServoBlobRasterizer::new(&handler);
    let tile = tile_of(rasterizer.rasterize_blob(&request(1, rect(0, 0, 8, 8), DirtyRect::All)));
    for y in 0..8 {
        for x in 0..8 {
            let first = x < 4 && y < 4;
            let second = (2..6).contains(&x) && (2..6).contains(&y);
            assert_eq!(pixel(&tile, 8, x, y), if first || second { BLACK } else { CLEAR });
        }
    }
}

#[test]
fn unknown_key_fails_alone() {
    let handler = handler_with(1, vec![BlobImageCommand::fill_rect(rect(0, 0, 10, 10))]);
    let rasterizer = ServoBlobRasterizer::new(&handler);
    let batch = [
        request(1, rect(0, 0, 10, 10), DirtyRect::All),
        request(404, rect(0, 0, 10, 10), DirtyRect::All),
        request(1, rect(0, 0, 2, 2), DirtyRect::All),
    ];
    let outcomes = rasterizer.rasterize(&batch, false);
    assert_eq!(outcomes.len(), 3);
    assert_eq!(outcomes[0].0.key, key(1));
    assert_eq!(outcomes[1].0.key, key(404));
    assert_eq!(outcomes[2].0.key, key(1));
    assert!(outcomes[0].1.is_ok());
    assert_eq!(outcomes[1].1, Err(BlobImageError::UnknownImageIdentifier));
    assert_eq!(*outcomes[2].1.as_ref().unwrap().data, [BLACK; 4].concat());
}

#[test]
fn other_formats_are_refused() {
    let handler = handler_with(1, vec![]);
    let rasterizer = ServoBlobRasterizer::new(&handler);
    for format in [
        ImageFormat::R8,
        ImageFormat::R16,
        ImageFormat::BGRA8,
        ImageFormat::RGBAF32,
        ImageFormat::RG8,
        ImageFormat::RG16,
        ImageFormat::RGBAI32,
    ] {
        let mut params = request(1, rect(0, 0, 10, 10), DirtyRect::All);
        params.descriptor.format = format;
        let outcome = rasterizer.rasterize_blob(&params);
        assert_eq!(outcome.0, params.request);
        assert_eq!(outcome.1, Err(BlobImageError::UnsupportedPixelFormat));
    }
    // the format is tested before the key
    let mut params = request(404, rect(0, 0, 10, 10), DirtyRect::All);
    params.descriptor.format = ImageFormat::BGRA8;
    assert_eq!(rasterizer.rasterize_blob(&params).1, Err(BlobImageError::UnsupportedPixelFormat));
}

#[test]
fn rectangles_without_a_tile_are_refused() {
    let handler = handler_with(1, vec![]);
    let rasterizer = ServoBlobRasterizer::new(&handler);
    for target in [
        Box2D::zero(),
        rect(0, 0, 10, 0),
        rect(0, 0, 0, 10),
        rect(10, 10, 0, 0),
        rect(0, 0, 536_870_912, 1),
        rect(i32::MIN, 0, i32::MAX, 1),
        rect(i32::MIN, i32::MIN, i32::MAX, i32::MAX),
    ] {
        let params = request(1, target, DirtyRect::All);
        let outcome = rasterizer.rasterize_blob(&params);
        assert_eq!(outcome.0, params.request);
        assert_eq!(outcome.1, Err(BlobImageError::DegenerateGeometry));
    }
    // the rectangle is tested before the key
    let params = request(404, Box2D::zero(), DirtyRect::All);
    assert_eq!(rasterizer.rasterize_blob(&params).1, Err(BlobImageError::DegenerateGeometry));
}

#[test]
fn damaged_buffers_are_refused() {
    let mut handler = ServoBlobImageHandler::new();
    let mut bytes = encode(&vec![triangle()]);
    bytes.pop();
    handler.add(key(1), Arc::new(bytes), &rect(0, 0, 10, 10), 256);
    handler.add(key(2), Arc::new(vec![]), &rect(0, 0, 10, 10), 256);
    handler.add(key(3), Arc::new(encode(&vec![triangle()])), &rect(0, 0, 10, 10), 256);
    let rasterizer = ServoBlobRasterizer::new(&handler);
    let batch = [
        request(1, rect(0, 0, 10, 10), DirtyRect::All),
        request(2, rect(0, 0, 10, 10), DirtyRect::All),
        request(3, rect(0, 0, 10, 10), DirtyRect::All),
    ];
    let outcomes = rasterizer.rasterize(&batch, true);
    assert_eq!(outcomes[0].1, Err(BlobImageError::MalformedCommandBuffer));
    assert_eq!(outcomes[1].1, Err(BlobImageError::MalformedCommandBuffer));
    assert!(outcomes[2].1.is_ok());
}

#[test]
fn rasterize_entry_works_on_a_snapshot() {
    let mut handler = handler_with(1, vec![BlobImageCommand::fill_rect(rect(0, 0, 2, 2))]);
    let snapshot = handler.get(key(1)).cloned();
    handler.delete(key(1));
    let params = request(1, rect(0, 0, 2, 2), DirtyRect::All);
    let outcome = ServoBlobRasterizer::rasterize_entry(snapshot.as_ref(), &params);
    assert_eq!(*outcome.1.unwrap().data, [BLACK; 4].concat());
    let outcome = ServoBlobRasterizer::rasterize_entry(None, &params);
    assert_eq!(outcome.1, Err(BlobImageError::UnknownImageIdentifier));
}

#[test]
fn an_empty_batch_has_no_outcome() {
    let handler = ServoBlobImageHandler::new();
    let rasterizer = ServoBlobRasterizer::new(&handler);
    assert!(rasterizer.rasterize(&[], false).is_empty());
}

#[test]
fn parallel_batch_equals_sequential_batch() {
    let mut handler = ServoBlobImageHandler::new();
    let mut batch = Vec::new();
    for n in 0..100u32 {
        let side = 4 + (n % 7) as i32;
        let commands = vec![
            BlobImageCommand::fill_rect(rect(0, 0, 1 + (n % 3) as i32, side)),
            BlobImageCommand::draw_polygon(
                vec![Point2D::new(0, 0), Point2D::new(side, 0), Point2D::new(side / 2, side)],
                if n % 3 == 0 { FillRule::Evenodd } else { FillRule::Nonzero },
                rect(0, 0, side, side),
            ),
        ];
        handler.add(key(n), Arc::new(encode(&commands)), &rect(0, 0, side, side), 256);
        let dirty = if n % 2 == 0 {
            DirtyRect::All
        } else {
            DirtyRect::Partial(rect(0, 0, side - 1, side - 2))
        };
        batch.push(request(n, rect(0, 0, side, side), dirty));
    }
    let rasterizer = ServoBlobRasterizer::new(&handler);
    assert!(handler.multithreading_enabled());
    let sequential = rasterizer.rasterize(&batch, false);
    let mut parallel: Vec<(BlobImageRequest, BlobImageResult)> =
        batch.par_iter().map(|r| rasterizer.rasterize_blob(r)).collect();
    assert_eq!(sequential.len(), 100);
    assert_eq!(parallel.len(), 100);
    parallel.reverse();
    for (n, outcome) in sequential.iter().enumerate() {
        assert_eq!(outcome.0.key, key(n as u32));
        let same: Vec<_> = parallel.iter().filter(|other| other.0 == outcome.0).collect();
        assert_eq!(same.len(), 1);
        assert_eq!(same[0].1, outcome.1);
        assert!(outcome.1.is_ok());
    }
    assert_ne!(sequential[0].1, sequential[1].1);
}

#[test]
fn tile_dimensions_of_rectangles() {
    assert_eq!(tile_dimensions(&rect(0, 0, 10, 20)), Some((10, 20)));
    assert_eq!(tile_dimensions(&rect(-5, -5, 5, 5)), Some((10, 10)));
    assert_eq!(tile_dimensions(&rect(0, 0, 536_870_911, 1)), Some((536_870_911, 1)));
    assert_eq!(tile_dimensions(&rect(0, 0, 536_870_912, 1)), None);
    assert_eq!(tile_dimensions(&rect(0, 0, 0, 1)), None);
    assert_eq!(tile_dimensions(&rect(0, 0, 1, 0)), None);
    assert_eq!(tile_dimensions(&rect(3, 3, 2, 4)), None);
    assert_eq!(tile_dimensions(&rect(0, i32::MIN, 1, i32::MAX)), None);
}

#[test]
fn blank_tile_is_transparent() {
    assert_eq!(blank_tile(3, 2), vec![0u8; 24]);
    assert_eq!(blank_tile(1, 1), vec![0u8; 4]);
}

#[test]
fn local_part_of_an_area() {
    let target = rect(100, 200, 110, 220);
    assert_eq!(local_part(&rect(105, 190, 120, 210), &DirtyRect::All, &target), rect(5, 0, 10, 10));
    assert_eq!(
        local_part(&rect(105, 190, 120, 210), &DirtyRect::Partial(rect(0, 0, 107, 205)), &target),
        rect(5, 0, 7, 5)
    );
    assert_eq!(local_part(&rect(0, 0, 50, 50), &DirtyRect::All, &target), Box2D::zero());
    assert_eq!(local_part(&target, &DirtyRect::All, &target), rect(0, 0, 10, 20));
}

#[test]
fn restore_outside_keeps_the_region() {
    // a tile of 3 by 2 pixels
    let before: Vec<u8> = (0..24).collect();
    let mut pixels: Vec<u8> = (100..124).collect();
    restore_outside(&mut pixels, &before, 3, &rect(1, 0, 3, 1));
    let expected: Vec<u8> = vec![
        0, 1, 2, 3, 104, 105, 106, 107, 108, 109, 110, 111, // row 0: pixels 1 and 2 stay
        12, 13, 14, 15, 16, 17, 18, 19, 20, 21, 22, 23, // row 1 is put back
    ];
    assert_eq!(pixels, expected);
}

#[test]
fn polygons_with_points_beyond_single_precision_are_passed_over() {
    let shapes = vec![
        vec![
            Point2D::new(i32::MIN, i32::MIN),
            Point2D::new(i32::MAX, i32::MIN),
            Point2D::new(i32::MAX, i32::MAX),
            Point2D::new(i32::MIN, i32::MAX),
        ],
        vec![Point2D::new(0, 0), Point2D::new(i32::MAX, 1), Point2D::new(1, i32::MAX)],
        vec![Point2D::new(i32::MIN, 0), Point2D::new(i32::MIN, 10), Point2D::new(i32::MIN + 1, 5)],
        vec![Point2D::new(16_777_217, 0), Point2D::new(0, 16_777_217), Point2D::new(-16_777_217, 3)],
        vec![Point2D::new(-20, -20), Point2D::new(16_777_217, -20), Point2D::new(-20, 40)],
        vec![Point2D::new(-20, -20), Point2D::new(40, -20), Point2D::new(-20, -16_777_217)],
    ];
    for points in shapes {
        assert!(!polygon_paintable(&points));
        for fill in [FillRule::Nonzero, FillRule::Evenodd] {
            let command = BlobImageCommand::draw_polygon(
                points.clone(),
                fill,
                rect(i32::MIN, i32::MIN, i32::MAX, i32::MAX),
            );
            let handler = handler_with(1, vec![command]);
            let rasterizer = ServoBlobRasterizer::new(&handler);
            for target in [rect(0, 0, 10, 10), rect(-5, -5, 5, 5), rect(i32::MAX - 8, 0, i32::MAX, 8)] {
                let tile = tile_of(rasterizer.rasterize_blob(&request(1, target, DirtyRect::All)));
                assert_eq!(tile.data.len() as i64, 4 * target.width() * target.height());
                assert!(tile.data.iter().all(|byte| *byte == 0));
            }
        }
    }
}

#[test]
fn polygons_with_points_at_the_edge_of_single_precision_are_painted() {
    let shapes = vec![
        vec![
            Point2D::new(-16_777_216, -16_777_216),
            Point2D::new(16_777_216, -16_777_216),
            Point2D::new(16_777_216, 16_777_216),
            Point2D::new(-16_777_216, 16_777_216),
        ],
        vec![Point2D::new(-1_000_000, -5), Point2D::new(1_000_000, -5), Point2D::new(5, 1_000_000)],
        vec![Point2D::new(-20, -20), Point2D::new(16_777_216, -20), Point2D::new(-20, 16_777_216)],
    ];
    for points in shapes {
        assert!(polygon_paintable(&points));
        for fill in [FillRule::Nonzero, FillRule::Evenodd] {
            let command = BlobImageCommand::draw_polygon(
                points.clone(),
                fill,
                rect(i32::MIN, i32::MIN, i32::MAX, i32::MAX),
            );
            let handler = handler_with(1, vec![command]);
            let rasterizer = ServoBlobRasterizer::new(&handler);
            let tile = tile_of(rasterizer.rasterize_blob(&request(1, rect(0, 0, 10, 10), DirtyRect::All)));
            assert!(tile.data.chunks(4).all(|pixel| pixel == BLACK));
        }
    }
}

#[test]
fn polygon_paintable_asks_for_two_points_within_single_precision() {
    assert!(!polygon_paintable(&vec![]));
    assert!(!polygon_paintable(&vec![Point2D::new(1, 1)]));
    assert!(polygon_paintable(&vec![Point2D::new(1, 1), Point2D::new(1, 1)]));
    assert!(polygon_paintable(&vec![Point2D::new(16_777_216, -16_777_216), Point2D::new(0, 0)]));
    assert!(!polygon_paintable(&vec![Point2D::new(16_777_217, 0), Point2D::new(0, 0)]));
    assert!(!polygon_paintable(&vec![Point2D::new(0, 0), Point2D::new(0, -16_777_217)]));
    assert!(!polygon_paintable(&vec![Point2D::new(0, 0), Point2D::new(2, 2), Point2D::new(i32::MIN, 0)]));
}

#[test]
fn wide_and_high_tiles_are_painted() {
    let handler = handler_with(1, vec![BlobImageCommand::fill_rect(rect(0, 0, 9000, 9000))]);
    let rasterizer = ServoBlobRasterizer::new(&handler);
    let wide = tile_of(rasterizer.rasterize_blob(&request(1, rect(0, 0, 9000, 2), DirtyRect::All)));
    assert_eq!(wide.data.len(), 4 * 9000 * 2);
    assert!(wide.data.chunks(4).all(|pixel| pixel == BLACK));
    let high = tile_of(rasterizer.rasterize_blob(&request(1, rect(0, 0, 2, 9000), DirtyRect::All)));
    assert_eq!(high.data.len(), 4 * 2 * 9000);
    assert!(high.data.chunks(4).all(|pixel| pixel == BLACK));

    let triangle = BlobImageCommand::draw_polygon(
        vec![Point2D::new(0, 0), Point2D::new(9000, 0), Point2D::new(0, 4)],
        FillRule::Nonzero,
        rect(8990, 0, 9000, 1),
    );
    let handler = handler_with(1, vec![triangle]);
    let rasterizer = ServoBlobRasterizer::new(&handler);
    let tile = tile_of(rasterizer.rasterize_blob(&request(1, rect(0, 0, 9000, 4), DirtyRect::All)));
    assert_eq!(pixel(&tile, 9000, 10, 0), CLEAR);
    assert_eq!(pixel(&tile, 9000, 8989, 0), CLEAR);
    assert_eq!(pixel(&tile, 9000, 100, 3), CLEAR);
}
