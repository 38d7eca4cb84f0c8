use blob_rasterizer::codec::{decode, encode};
use blob_rasterizer::command::{BlobImageCommand, FillRule};
use blob_rasterizer::geometry::{Box2D, DirtyRect, Point2D};
use blob_rasterizer::handler::{BlobImageKey, ServoBlobImageHandler};
use std::sync::Arc;

fn rect(min_x: i32, min_y: i32, max_x: i32, max_y: i32) -> Box2D {
    Box2D::from_coords(min_x, min_y, max_x, max_y)
}

fn key(n: u32) -> BlobImageKey {
    BlobImageKey { namespace: 1, key: n }
}

fn commands() -> Vec<BlobImageCommand> {
    vec![
        BlobImageCommand::fill_rect(rect(0, 0, 10, 10)),
        BlobImageCommand::draw_polygon(
            vec![Point2D::new(0, 0), Point2D::new(10, 0), Point2D::new(5, 10)],
            FillRule::Nonzero,
            rect(0, 0, 10, 10),
        ),
    ]
}

#[test]
fn packed_key_holds_both_parts() {
    assert_eq!(BlobImageKey { namespace: 0, key: 0 }.packed(), 0);
    assert_eq!(BlobImageKey { namespace: 0, key: 7 }.packed(), 7);
    assert_eq!(BlobImageKey { namespace: 1, key: 0 }.packed(), 4294967296);
    assert_eq!(BlobImageKey { namespace: 3, key: 5 }.packed(), 12884901893);
    assert_eq!(BlobImageKey { namespace: u32::MAX, key: u32::MAX }.packed(), u64::MAX);
}

#[test]
fn a_new_registry_is_empty_and_multithreaded() {
    let handler = ServoBlobImageHandler::new();
    assert!(handler.get(key(1)).is_none());
    assert!(handler.multithreading_enabled());
}

#[test]
fn add_registers_and_overwrites() {
    let mut handler = ServoBlobImageHandler::new();
    let first = Arc::new(encode(&commands()));
    handler.add(key(1), first.clone(), &rect(0, 0, 10, 10), 256);
    {
        let entry = handler.get(key(1)).unwrap();
        assert_eq!(entry.data(), &first);
        assert_eq!(entry.visible_rect(), rect(0, 0, 10, 10));
        assert_eq!(entry.tile_size(), 256);
    }
    assert!(handler.get(key(2)).is_none());
    assert!(handler.get(BlobImageKey { namespace: 2, key: 1 }).is_none());

    let second = Arc::new(encode(&vec![]));
    handler.add(key(1), second.clone(), &rect(1, 1, 2, 2), 64);
    let entry = handler.get(key(1)).unwrap();
    assert_eq!(entry.data(), &second);
    assert_eq!(entry.visible_rect(), rect(1, 1, 2, 2));
    assert_eq!(entry.tile_size(), 64);
}

#[test]
fn add_takes_any_bytes() {
    let mut handler = ServoBlobImageHandler::new();
    handler.add(key(1), Arc::new(vec![1, 2, 3]), &rect(0, 0, 10, 10), 256);
    assert_eq!(**handler.get(key(1)).unwrap().data(), vec![1, 2, 3]);
}

#[test]
fn keys_differ_by_namespace() {
    let mut handler = ServoBlobImageHandler::new();
    handler.add(BlobImageKey { namespace: 1, key: 0 }, Arc::new(vec![1]), &rect(0, 0, 1, 1), 1);
    handler.add(BlobImageKey { namespace: 0, key: 1 }, Arc::new(vec![2]), &rect(0, 0, 2, 2), 2);
    assert_eq!(**handler.get(BlobImageKey { namespace: 1, key: 0 }).unwrap().data(), vec![1]);
    assert_eq!(**handler.get(BlobImageKey { namespace: 0, key: 1 }).unwrap().data(), vec![2]);
}

#[test]
fn update_keeps_all_commands_when_dirty_covers_what_stays_in_view() {
    let mut handler = ServoBlobImageHandler::new();
    handler.add(key(1), Arc::new(encode(&vec![])), &rect(0, 0, 10, 10), 256);
    // in view before and after: (5, 0) to (10, 10)
    handler.update(
        key(1),
        Arc::new(encode(&commands())),
        &rect(5, 0, 20, 10),
        &DirtyRect::Partial(rect(5, 0, 10, 10)),
    );
    let entry = handler.get(key(1)).unwrap();
    assert_eq!(decode(entry.data()), Ok(commands()));
    assert_eq!(**entry.data(), encode(&commands()));
    assert_eq!(entry.visible_rect(), rect(5, 0, 20, 10));
    assert_eq!(entry.tile_size(), 256);
}

#[test]
fn update_keeps_no_command_when_dirty_misses_a_pixel_that_stays_in_view() {
    let mut handler = ServoBlobImageHandler::new();
    handler.add(key(1), Arc::new(encode(&commands())), &rect(0, 0, 10, 10), 256);
    handler.update(
        key(1),
        Arc::new(encode(&commands())),
        &rect(5, 0, 20, 10),
        &DirtyRect::Partial(rect(5, 0, 10, 9)),
    );
    let entry = handler.get(key(1)).unwrap();
    assert_eq!(decode(entry.data()), Ok(vec![]));
    assert_eq!(**entry.data(), vec![0u8; 8]);
    assert_eq!(entry.visible_rect(), rect(5, 0, 20, 10));
    assert_eq!(entry.tile_size(), 256);
}

#[test]
fn update_with_everything_dirty_keeps_all_commands() {
    let mut handler = ServoBlobImageHandler::new();
    handler.add(key(1), Arc::new(encode(&vec![])), &rect(0, 0, 10, 10), 256);
    handler.update(key(1), Arc::new(encode(&commands())), &rect(0, 0, 10, 10), &DirtyRect::All);
    assert_eq!(decode(handler.get(key(1)).unwrap().data()), Ok(commands()));
}

#[test]
fn update_keeps_all_commands_when_nothing_stays_in_view() {
    let mut handler = ServoBlobImageHandler::new();
    handler.add(key(1), Arc::new(encode(&vec![])), &rect(0, 0, 10, 10), 256);
    // the old and the new region do not meet, so no pixel has to be dirty
    handler.update(
        key(1),
        Arc::new(encode(&commands())),
        &rect(50, 50, 60, 60),
        &DirtyRect::Partial(Box2D::zero()),
    );
    let entry = handler.get(key(1)).unwrap();
    assert_eq!(decode(entry.data()), Ok(commands()));
    assert_eq!(entry.visible_rect(), rect(50, 50, 60, 60));
}

#[test]
fn update_does_not_test_the_bounds_of_a_command() {
    let mut handler = ServoBlobImageHandler::new();
    handler.add(key(1), Arc::new(encode(&vec![])), &rect(0, 0, 10, 10), 256);
    // the command lies far from the dirty region and is kept all the same
    let far = vec![BlobImageCommand::fill_rect(rect(1000, 1000, 1001, 1001))];
    handler.update(
        key(1),
        Arc::new(encode(&far)),
        &rect(0, 0, 10, 10),
        &DirtyRect::Partial(rect(0, 0, 10, 10)),
    );
    assert_eq!(decode(handler.get(key(1)).unwrap().data()), Ok(far));
}

#[test]
fn update_drops_bytes_behind_the_last_entry() {
    let mut handler = ServoBlobImageHandler::new();
    handler.add(key(1), Arc::new(encode(&vec![])), &rect(0, 0, 10, 10), 256);
    let mut bytes = encode(&commands());
    bytes.extend_from_slice(&[7, 7, 7]);
    handler.update(key(1), Arc::new(bytes), &rect(0, 0, 10, 10), &DirtyRect::All);
    assert_eq!(**handler.get(key(1)).unwrap().data(), encode(&commands()));
}

#[test]
fn update_of_an_absent_key_does_nothing() {
    let mut handler = ServoBlobImageHandler::new();
    handler.add(key(1), Arc::new(encode(&commands())), &rect(0, 0, 10, 10), 256);
    handler.update(key(2), Arc::new(encode(&vec![])), &rect(0, 0, 1, 1), &DirtyRect::All);
    assert!(handler.get(key(2)).is_none());
    let entry = handler.get(key(1)).unwrap();
    assert_eq!(decode(entry.data()), Ok(commands()));
    assert_eq!(entry.visible_rect(), rect(0, 0, 10, 10));
}

#[test]
fn update_with_a_damaged_buffer_does_nothing() {
    let mut handler = ServoBlobImageHandler::new();
    handler.add(key(1), Arc::new(encode(&commands())), &rect(0, 0, 10, 10), 256);
    let mut damaged = encode(&commands());
    damaged.pop();
    handler.update(key(1), Arc::new(damaged), &rect(5, 5, 6, 6), &DirtyRect::All);
    handler.update(key(1), Arc::new(vec![1, 2]), &rect(5, 5, 6, 6), &DirtyRect::All);
    let entry = handler.get(key(1)).unwrap();
    assert_eq!(decode(entry.data()), Ok(commands()));
    assert_eq!(entry.visible_rect(), rect(0, 0, 10, 10));
}

#[test]
fn delete_removes_the_entry() {
    let mut handler = ServoBlobImageHandler::new();
    handler.add(key(1), Arc::new(encode(&commands())), &rect(0, 0, 10, 10), 256);
    handler.add(key(2), Arc::new(encode(&vec![])), &rect(0, 0, 5, 5), 128);
    handler.delete(key(1));
    assert!(handler.get(key(1)).is_none());
    assert_eq!(handler.get(key(2)).unwrap().visible_rect(), rect(0, 0, 5, 5));
}

#[test]
fn delete_of_an_absent_key_does_nothing() {
    let mut handler = ServoBlobImageHandler::new();
    handler.delete(key(1));
    assert!(handler.get(key(1)).is_none());
    handler.add(key(2), Arc::new(encode(&commands())), &rect(0, 0, 10, 10), 256);
    handler.delete(key(1));
    handler.delete(key(1));
    let entry = handler.get(key(2)).unwrap();
    assert_eq!(decode(entry.data()), Ok(commands()));
    assert_eq!(entry.visible_rect(), rect(0, 0, 10, 10));
    assert_eq!(entry.tile_size(), 256);
}

#[test]
fn multithreading_is_a_switch() {
    let mut handler = ServoBlobImageHandler::new();
    handler.add(key(1), Arc::new(encode(&commands())), &rect(0, 0, 10, 10), 256);
    handler.enable_multithreading(false);
    assert!(!handler.multithreading_enabled());
    assert!(handler.get(key(1)).is_some());
    handler.enable_multithreading(true);
    assert!(handler.multithreading_enabled());
}
