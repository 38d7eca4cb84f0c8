//! Writing commands to bytes and reading them back.

use crate::blob_data::BlobDataIterator;
use crate::command::{BlobImageCommand, BlobImageCommandKind, DrawCommand, FillRule};
use crate::error::BlobImageError;
use crate::format::{
    command_representable, decodable_prefix, lemma_command_len, lemma_decode_is, representable,
    spec_command_len, spec_decode, spec_decode_point, spec_decode_points, spec_decode_rect,
    spec_encode, spec_encode_command, spec_encode_commands, spec_encode_point,
    spec_encode_points, spec_encode_rect, spec_parse_command, ENTRY_HEAD_LEN, HEADER_LEN,
    POINT_LEN, POLYGON_HEAD_LEN, TAG_DRAW_POLYGON, TAG_DRAW_POLYGON_EVENODD, TAG_FILL_RECT,
};
use crate::geometry::{Box2D, LayoutPoint, LayoutRect, Point2D};
use crate::wire::{read_i32, read_u64, write_i32, write_u64};
use vstd::prelude::*;

verus! {

/// Appends the bytes of a point.
pub(crate) fn write_point(out: &mut Vec<u8>, p: &LayoutPoint)
    ensures
        final(out)@ == old(out)@ + spec_encode_point(*p),
{
    proof {
        reveal(spec_encode_point);
    }
    write_i32(out, p.x);
    write_i32(out, p.y);
}

/// Appends the bytes of a box.
pub(crate) fn write_rect(out: &mut Vec<u8>, r: &LayoutRect)
    ensures
        final(out)@ == old(out)@ + spec_encode_rect(*r),
{
    proof {
        reveal(spec_encode_rect);
    }
    write_point(out, &r.min);
    write_point(out, &r.max);
}

/// Appends the bytes of the points, in their order.
pub(crate) fn write_points(out: &mut Vec<u8>, points: &Vec<LayoutPoint>)
    ensures
        final(out)@ == old(out)@ + spec_encode_points(points@),
{
    let ghost start = out@;
    let mut i: usize = 0;
    while i < points.len()
        invariant
            i <= points.len(),
            out@ == start + spec_encode_points(points@.take(i as int)),
        decreases points.len() - i,
    {
        write_point(out, &points[i]);
        proof {
            let longer = points@.take(i + 1);
            assert(longer.drop_last() =~= points@.take(i as int));
        }
        i += 1;
    }
    assert(points@.take(i as int) =~= points@);
}

/// Appends the entry of `command`.
pub(crate) fn write_command(out: &mut Vec<u8>, command: &BlobImageCommand)
    ensures
        final(out)@ == old(out)@ + spec_encode_command(command@),
{
    proof {
        reveal(spec_encode_command);
    }
    match &command.kind {
        BlobImageCommandKind::FillRect => {
            out.push(TAG_FILL_RECT);
            write_rect(out, &command.bounds);
        },
        BlobImageCommandKind::DrawPolygon(points, fill) => {
            out.push(
                match fill {
                    FillRule::Nonzero => TAG_DRAW_POLYGON,
                    FillRule::Evenodd => TAG_DRAW_POLYGON_EVENODD,
                },
            );
            write_rect(out, &command.bounds);
            write_u64(out, points.len() as u64);
            write_points(out, points);
        },
    }
}

/// Reads the point at `at`.
pub(crate) fn read_point(bytes: &[u8], at: usize) -> (p: LayoutPoint)
    requires
        at + POINT_LEN <= bytes@.len(),
    ensures
        p == spec_decode_point(bytes@.skip(at as int)),
{
    proof {
        reveal(spec_decode_point);
    }
    assert(at + POINT_LEN <= bytes.len());
    assert(bytes@.skip(at as int).skip(4) =~= bytes@.skip(at + 4));
    Point2D { x: read_i32(bytes, at), y: read_i32(bytes, at + 4) }
}

/// Reads the box at `at`.
pub(crate) fn read_rect(bytes: &[u8], at: usize) -> (r: LayoutRect)
    requires
        at + 2 * POINT_LEN <= bytes@.len(),
    ensures
        r == spec_decode_rect(bytes@.skip(at as int)),
{
    proof {
        reveal(spec_decode_rect);
    }
    assert(at + 2 * POINT_LEN <= bytes.len());
    assert(bytes@.skip(at as int).skip(8) =~= bytes@.skip(at + 8));
    Box2D { min: read_point(bytes, at), max: read_point(bytes, at + 8) }
}

/// Where the entry that starts at `offset` ends, read from its tag and, for
/// a polygon, its count of points; `None` where no entry starts there.
pub(crate) fn entry_end(bytes: &[u8], offset: usize) -> (r: Option<usize>)
    requires
        offset <= bytes@.len(),
    ensures
        match r {
            Some(next) => {
                &&& spec_parse_command(bytes@.skip(offset as int)) is Some
                &&& next == offset + spec_command_len(
                    spec_parse_command(bytes@.skip(offset as int))->0,
                )
                &&& next <= bytes@.len()
            },
            None => spec_parse_command(bytes@.skip(offset as int)) is None,
        },
{
    proof {
        reveal(spec_parse_command);
    }
    let ghost s = bytes@.skip(offset as int);
    let left: usize = bytes.len() - offset;
    if left < ENTRY_HEAD_LEN {
        return None;
    }
    let tag: u8 = bytes[offset];
    if tag == TAG_FILL_RECT {
        Some(offset + ENTRY_HEAD_LEN)
    } else if tag == TAG_DRAW_POLYGON || tag == TAG_DRAW_POLYGON_EVENODD {
        if left < POLYGON_HEAD_LEN {
            return None;
        }
        assert(s.skip(ENTRY_HEAD_LEN as int) =~= bytes@.skip(offset + ENTRY_HEAD_LEN));
        let count: u64 = read_u64(bytes, offset + ENTRY_HEAD_LEN);
        let room: usize = (left - POLYGON_HEAD_LEN) / POINT_LEN;
        if count > room as u64 {
            return None;
        }
        Some(offset + POLYGON_HEAD_LEN + POINT_LEN * (count as usize))
    } else {
        None
    }
}

/// Reads the entry that starts at `offset`, and says where the next one
/// starts; `None` where no entry starts there.
pub(crate) fn read_command(bytes: &[u8], offset: usize) -> (r: Option<(BlobImageCommand, usize)>)
    requires
        offset <= bytes@.len(),
    ensures
        match r {
            Some((command, next)) => {
                &&& spec_parse_command(bytes@.skip(offset as int)) == Some(command@)
                &&& next == offset + spec_command_len(command@)
                &&& next <= bytes@.len()
            },
            None => spec_parse_command(bytes@.skip(offset as int)) is None,
        },
{
    proof {
        reveal(spec_parse_command);
    }
    let ghost s = bytes@.skip(offset as int);
    let next: usize = match entry_end(bytes, offset) {
        Some(next) => next,
        None => {
            return None;
        },
    };
    assert(s.skip(1) =~= bytes@.skip(offset + 1));
    let bounds = read_rect(bytes, offset + 1);
    if bytes[offset] == TAG_FILL_RECT {
        Some((BlobImageCommand { kind: BlobImageCommandKind::FillRect, bounds }, next))
    } else {
        let first: usize = offset + POLYGON_HEAD_LEN;
        let n: usize = (next - first) / POINT_LEN;
        let ghost tail = s.skip(POLYGON_HEAD_LEN as int);
        let mut points: Vec<LayoutPoint> = Vec::new();
        let mut i: usize = 0;
        while i < n
            invariant
                i <= n,
                first + POINT_LEN * n <= bytes.len(),
                tail == bytes@.skip(first as int),
                points@ == spec_decode_points(tail, n as nat).take(i as int),
            decreases n - i,
        {
            assert(tail.skip(POINT_LEN * i) =~= bytes@.skip(first + POINT_LEN * i));
            let p = read_point(bytes, first + POINT_LEN * i);
            points.push(p);
            i += 1;
        }
        assert(points@ =~= spec_decode_points(tail, n as nat));
        let fill = if bytes[offset] == TAG_DRAW_POLYGON {
            FillRule::Nonzero
        } else {
            FillRule::Evenodd
        };
        Some(
            (BlobImageCommand { kind: BlobImageCommandKind::DrawPolygon(points, fill), bounds }, next),
        )
    }
}

/// The bytes of a buffer that holds `commands`, in their order.
pub fn encode(commands: &Vec<BlobImageCommand>) -> (bytes: Vec<u8>)
    ensures
        bytes@ == spec_encode(commands.deep_view()),
        spec_decode(bytes@) == Some(commands.deep_view()),
{
    let mut out: Vec<u8> = Vec::new();
    write_u64(&mut out, commands.len() as u64);
    let ghost header = out@;
    let ghost all = commands.deep_view();
    let mut i: usize = 0;
    while i < commands.len()
        invariant
            i <= commands.len(),
            all == commands.deep_view(),
            out@ == header + spec_encode_commands(all.take(i as int)),
        decreases commands.len() - i,
    {
        write_command(&mut out, &commands[i]);
        proof {
            let longer = all.take(i + 1);
            assert(longer.drop_last() =~= all.take(i as int));
        }
        i += 1;
    }
    proof {
        assert(all.take(i as int) =~= all);
        lemma_deep_view_representable(commands);
        lemma_decode_is(out@, all);
    }
    out
}

/// A command holds its points in a vector, so their number fits the eight
/// bytes of the count.
pub proof fn lemma_command_view_representable(command: &BlobImageCommand)
    ensures
        command_representable(command@),
{
    match command.kind {
        BlobImageCommandKind::FillRect => {},
        BlobImageCommandKind::DrawPolygon(points, _) => {
            assert(points@.len() == points.len());
        },
    }
}

/// The commands of a buffer that was made from a vector are representable:
/// a vector has at most `usize::MAX` items.
pub proof fn lemma_deep_view_representable(commands: &Vec<BlobImageCommand>)
    ensures
        representable(commands.deep_view()),
{
    let all = commands.deep_view();
    assert(all.len() == commands.len());
    assert forall|i: int| 0 <= i < all.len() implies command_representable(
        #[trigger] all[i],
    ) by {
        let command = commands@[i];
        match command.kind {
            BlobImageCommandKind::FillRect => {},
            BlobImageCommandKind::DrawPolygon(points, _) => {
                assert(points@.len() == points.len());
            },
        }
    }
}

/// The commands that a buffer holds, in their order. The header says how
/// many entries are read; bytes after the last of them are not looked at.
/// A buffer that is cut short, or holds an entry with an unknown tag, is
/// malformed.
pub fn decode(bytes: &[u8]) -> (r: Result<Vec<BlobImageCommand>, BlobImageError>)
    ensures
        match r {
            Ok(commands) => spec_decode(bytes@) == Some(commands.deep_view()),
            Err(e) => e == BlobImageError::MalformedCommandBuffer && spec_decode(bytes@) is None,
        },
{
    let mut cursor = BlobDataIterator::from_raw(bytes);
    let mut commands: Vec<BlobImageCommand> = Vec::new();
    let mut exhausted = false;
    while !exhausted
        invariant
            cursor.wf(),
            cursor.bytes() == bytes@,
            cursor.yielded() == commands.deep_view(),
            bytes@.len() >= HEADER_LEN ==> decodable_prefix(bytes@, cursor.yielded()),
            exhausted && spec_decode(bytes@) is Some ==> spec_decode(bytes@) == Some(
                cursor.yielded(),
            ),
        decreases
                bytes@.len() - spec_encode_commands(cursor.yielded()).len(),
                if exhausted { 0int } else { 1int },
    {
        let ghost seen = cursor.yielded();
        match cursor.next() {
            Some(command) => {
                proof {
                    lemma_command_len(command@);
                    assert(seen.push(command@).drop_last() =~= seen);
                }
                commands.push(command);
            },
            None => {
                exhausted = true;
            },
        }
    }
    if cursor.finished() {
        Ok(commands)
    } else {
        Err(BlobImageError::MalformedCommandBuffer)
    }
}

} // verus!
