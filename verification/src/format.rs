//! The byte layout of a command buffer.
//!
//! A buffer opens with a header, the number of entries as eight bytes, and
//! goes on with the entries. An entry is a tag byte, the sixteen bytes of
//! its bounds and, for a polygon, the number of points as eight bytes and
//! then eight bytes per point. The tag tells a rectangle from a polygon,
//! and for a polygon the rule by which it is filled. Every length is
//! written out, so no entry is read by guessing where it ends, and bytes
//! after the last entry that the header counts are never read.
//!
//! The layout is defined by what is written: `spec_encode` gives the bytes
//! of a sequence of commands. What a buffer holds is defined from that: a
//! buffer holds the commands whose bytes it begins with. The lemmas show
//! that there is at most one such sequence, and the laws at the end state
//! what follows for writing and reading.

use crate::command::{DrawCommand, DrawCommandKind, FillRule};
use crate::geometry::{Box2D, LayoutPoint, LayoutRect, Point2D};
use crate::wire::{
    lemma_i32_bytes_of_value, lemma_i32_value_of_bytes, lemma_u64_bytes_of_value,
    lemma_u64_value_of_bytes, spec_i32_bytes, spec_i32_value, spec_u64_bytes, spec_u64_value,
};
use vstd::prelude::*;

verus! {

/// The tag byte of a `FillRect` entry.
pub const TAG_FILL_RECT: u8 = 0;

/// The tag byte of a `DrawPolygon` entry that is filled by the non-zero
/// rule.
pub const TAG_DRAW_POLYGON: u8 = 1;

/// The tag byte of a `DrawPolygon` entry that is filled by the even-odd
/// rule.
pub const TAG_DRAW_POLYGON_EVENODD: u8 = 2;

/// The number of bytes of the header.
pub const HEADER_LEN: usize = 8;

/// The number of bytes of a point.
pub const POINT_LEN: usize = 8;

/// The number of bytes of an entry up to and including its bounds.
pub const ENTRY_HEAD_LEN: usize = 17;

/// The number of bytes of a polygon entry up to its first point.
pub const POLYGON_HEAD_LEN: usize = 25;

/// The eight bytes of a point: `x`, then `y`.
#[verifier::opaque]
pub open spec fn spec_encode_point(p: LayoutPoint) -> Seq<u8> {
    spec_i32_bytes(p.x) + spec_i32_bytes(p.y)
}

/// The sixteen bytes of a box: `min`, then `max`.
#[verifier::opaque]
pub open spec fn spec_encode_rect(r: LayoutRect) -> Seq<u8> {
    spec_encode_point(r.min) + spec_encode_point(r.max)
}

/// The bytes of the points, one after the other.
pub open spec fn spec_encode_points(points: Seq<LayoutPoint>) -> Seq<u8>
    decreases points.len(),
{
    if points.len() == 0 {
        Seq::empty()
    } else {
        spec_encode_points(points.drop_last()) + spec_encode_point(points.last())
    }
}

/// A command whose polygon, if it has one, has a number of points that the
/// eight bytes of its count can hold.
pub open spec fn command_representable(command: DrawCommand) -> bool {
    command.kind matches DrawCommandKind::DrawPolygon(points, _) ==> points.len() <= u64::MAX
}

/// A sequence whose length the header can hold, of representable commands.
pub open spec fn representable(commands: Seq<DrawCommand>) -> bool {
    &&& commands.len() <= u64::MAX
    &&& forall|i: int| 0 <= i < commands.len() ==> command_representable(#[trigger] commands[i])
}

/// The tag byte of a command: its kind and, for a polygon, its fill rule.
pub open spec fn spec_tag(kind: DrawCommandKind) -> u8 {
    match kind {
        DrawCommandKind::FillRect => TAG_FILL_RECT,
        DrawCommandKind::DrawPolygon(_, FillRule::Nonzero) => TAG_DRAW_POLYGON,
        DrawCommandKind::DrawPolygon(_, FillRule::Evenodd) => TAG_DRAW_POLYGON_EVENODD,
    }
}

/// The bytes of one entry.
#[verifier::opaque]
pub open spec fn spec_encode_command(command: DrawCommand) -> Seq<u8> {
    match command.kind {
        DrawCommandKind::FillRect => seq![spec_tag(command.kind)] + spec_encode_rect(
            command.bounds,
        ),
        DrawCommandKind::DrawPolygon(points, _) => seq![spec_tag(command.kind)] + spec_encode_rect(
            command.bounds,
        ) + spec_u64_bytes(points.len() as u64) + spec_encode_points(points),
    }
}

/// The bytes of the entries, one after the other.
pub open spec fn spec_encode_commands(commands: Seq<DrawCommand>) -> Seq<u8>
    decreases commands.len(),
{
    if commands.len() == 0 {
        Seq::empty()
    } else {
        spec_encode_commands(commands.drop_last()) + spec_encode_command(commands.last())
    }
}

/// The bytes of a whole buffer: the header, then the entries.
pub open spec fn spec_encode(commands: Seq<DrawCommand>) -> Seq<u8> {
    spec_u64_bytes(commands.len() as u64) + spec_encode_commands(commands)
}

/// The number of entries that the header of `bytes` declares.
pub open spec fn spec_header_count(bytes: Seq<u8>) -> u64
    recommends
        bytes.len() >= HEADER_LEN,
{
    spec_u64_value(bytes)
}

/// `command` is the entry that starts at `offset`.
pub open spec fn entry_at(bytes: Seq<u8>, offset: int, command: DrawCommand) -> bool {
    &&& 0 <= offset <= bytes.len()
    &&& command_representable(command)
    &&& spec_encode_command(command).is_prefix_of(bytes.skip(offset))
}

/// `commands` are the first entries of the buffer, with no more of them
/// than the header declares.
pub open spec fn decodable_prefix(bytes: Seq<u8>, commands: Seq<DrawCommand>) -> bool {
    &&& bytes.len() >= HEADER_LEN
    &&& commands.len() <= spec_header_count(bytes)
    &&& representable(commands)
    &&& spec_encode_commands(commands).is_prefix_of(bytes.skip(HEADER_LEN as int))
}

/// The buffer holds exactly `commands`: it begins with their encoding.
/// What follows the last entry is not looked at.
pub open spec fn decodes_to(bytes: Seq<u8>, commands: Seq<DrawCommand>) -> bool {
    representable(commands) && spec_encode(commands).is_prefix_of(bytes)
}

/// The commands that a buffer holds, or `None` for bytes that no sequence of
/// commands encodes to.
pub open spec fn spec_decode(bytes: Seq<u8>) -> Option<Seq<DrawCommand>> {
    if exists|commands: Seq<DrawCommand>| decodes_to(bytes, commands) {
        Some(choose|commands: Seq<DrawCommand>| decodes_to(bytes, commands))
    } else {
        None
    }
}

/// The point whose eight bytes open `s`.
#[verifier::opaque]
pub open spec fn spec_decode_point(s: Seq<u8>) -> LayoutPoint {
    Point2D { x: spec_i32_value(s), y: spec_i32_value(s.skip(4)) }
}

/// The box whose sixteen bytes open `s`.
#[verifier::opaque]
pub open spec fn spec_decode_rect(s: Seq<u8>) -> LayoutRect {
    Box2D { min: spec_decode_point(s), max: spec_decode_point(s.skip(8)) }
}

/// The `count` points whose bytes open `s`.
pub open spec fn spec_decode_points(s: Seq<u8>, count: nat) -> Seq<LayoutPoint> {
    Seq::new(count, |i: int| spec_decode_point(s.skip(POINT_LEN * i)))
}

/// What opens a sequence, and what is left of it, make up the sequence.
pub proof fn lemma_prefix_rest<T>(x: Seq<T>, s: Seq<T>)
    requires
        x.is_prefix_of(s),
    ensures
        s == x + s.skip(x.len() as int),
{
}

/// Where `x` followed by `y` opens `s`, `x` opens `s` and `y` opens the rest.
pub proof fn lemma_prefix_split<T>(x: Seq<T>, y: Seq<T>, s: Seq<T>)
    requires
        (x + y).is_prefix_of(s),
    ensures
        x.is_prefix_of(s),
        y.is_prefix_of(s.skip(x.len() as int)),
{
    let both = x + y;
    assert forall|i: int| 0 <= i < x.len() implies x[i] == s[i] by {
        assert(both[i] == x[i]);
    }
    assert forall|i: int| 0 <= i < y.len() implies y[i] == s[x.len() + i] by {
        assert(both[x.len() + i] == y[i]);
    }
}

/// Where `x` opens `s` and `y` opens the rest, `x` followed by `y` opens `s`.
pub proof fn lemma_prefix_join<T>(x: Seq<T>, y: Seq<T>, s: Seq<T>)
    requires
        x.is_prefix_of(s),
        y.is_prefix_of(s.skip(x.len() as int)),
    ensures
        (x + y).is_prefix_of(s),
{
}

/// Reading a point undoes writing it, whatever follows.
pub proof fn lemma_point_round_trip(p: LayoutPoint, rest: Seq<u8>)
    ensures
        spec_encode_point(p).len() == POINT_LEN,
        spec_decode_point(spec_encode_point(p) + rest) == p,
{
    reveal(spec_encode_point);
    reveal(spec_decode_point);
    lemma_i32_value_of_bytes(p.x, spec_i32_bytes(p.y) + rest);
    lemma_i32_value_of_bytes(p.y, rest);
    let s = spec_encode_point(p) + rest;
    assert(s =~= spec_i32_bytes(p.x) + (spec_i32_bytes(p.y) + rest));
    assert(s.skip(4) =~= spec_i32_bytes(p.y) + rest);
}

/// Writing the point read from eight bytes gives those bytes back.
pub proof fn lemma_point_of_bytes(s: Seq<u8>)
    requires
        s.len() >= POINT_LEN,
    ensures
        spec_encode_point(spec_decode_point(s)) == s.subrange(0, POINT_LEN as int),
{
    reveal(spec_encode_point);
    reveal(spec_decode_point);
    lemma_i32_bytes_of_value(s);
    lemma_i32_bytes_of_value(s.skip(4));
}

/// Reading a box undoes writing it, whatever follows.
pub proof fn lemma_rect_round_trip(r: LayoutRect, rest: Seq<u8>)
    ensures
        spec_encode_rect(r).len() == 2 * POINT_LEN,
        spec_decode_rect(spec_encode_rect(r) + rest) == r,
{
    reveal(spec_encode_rect);
    reveal(spec_decode_rect);
    lemma_point_round_trip(r.min, spec_encode_point(r.max) + rest);
    lemma_point_round_trip(r.max, rest);
    let s = spec_encode_rect(r) + rest;
    assert(s =~= spec_encode_point(r.min) + (spec_encode_point(r.max) + rest));
    assert(s.skip(8) =~= spec_encode_point(r.max) + rest);
}

/// Writing the box read from sixteen bytes gives those bytes back.
pub proof fn lemma_rect_of_bytes(s: Seq<u8>)
    requires
        s.len() >= 2 * POINT_LEN,
    ensures
        spec_encode_rect(spec_decode_rect(s)) == s.subrange(0, 2 * POINT_LEN),
{
    reveal(spec_encode_rect);
    reveal(spec_decode_rect);
    lemma_point_of_bytes(s);
    lemma_point_of_bytes(s.skip(8));
}

/// Every point takes eight bytes.
pub proof fn lemma_points_len(points: Seq<LayoutPoint>)
    ensures
        spec_encode_points(points).len() == POINT_LEN * points.len(),
    decreases points.len(),
{
    if points.len() > 0 {
        lemma_points_len(points.drop_last());
        lemma_point_round_trip(points.last(), Seq::empty());
    }
}

/// Reading points undoes writing them, whatever follows.
pub proof fn lemma_points_round_trip(points: Seq<LayoutPoint>, rest: Seq<u8>)
    ensures
        spec_decode_points(spec_encode_points(points) + rest, points.len()) == points,
    decreases points.len(),
{
    let s = spec_encode_points(points) + rest;
    if points.len() > 0 {
        let front = points.drop_last();
        let tail = spec_encode_point(points.last()) + rest;
        lemma_points_len(front);
        lemma_points_round_trip(front, tail);
        lemma_point_round_trip(points.last(), rest);
        assert(s =~= spec_encode_points(front) + tail);
        assert(s.skip(POINT_LEN * front.len()) =~= tail);
        assert forall|i: int| 0 <= i < points.len() implies spec_decode_points(s, points.len())[i]
            == points[i] by {
            if i < front.len() {
                assert(spec_decode_points(s, front.len())[i] == front[i]);
            }
        }
    }
}

/// Writing the points read from bytes gives those bytes back.
pub proof fn lemma_points_of_bytes(s: Seq<u8>, count: nat)
    requires
        s.len() >= POINT_LEN * count,
    ensures
        spec_encode_points(spec_decode_points(s, count)) == s.subrange(0, POINT_LEN * count),
    decreases count,
{
    let points = spec_decode_points(s, count);
    if count > 0 {
        let less = (count - 1) as nat;
        lemma_points_of_bytes(s, less);
        assert(points.drop_last() =~= spec_decode_points(s, less));
        lemma_point_of_bytes(s.skip(POINT_LEN * less));
        assert(s.subrange(0, POINT_LEN * count) =~= s.subrange(0, POINT_LEN * less) + s.skip(
            POINT_LEN * less,
        ).subrange(0, POINT_LEN as int));
    }
}

/// The length of an entry: its head, and for a polygon its count and points.
pub open spec fn spec_command_len(command: DrawCommand) -> nat {
    match command.kind {
        DrawCommandKind::FillRect => ENTRY_HEAD_LEN as nat,
        DrawCommandKind::DrawPolygon(points, _) => POLYGON_HEAD_LEN as nat + POINT_LEN as nat
            * points.len(),
    }
}

/// An entry is as long as `spec_command_len` says, and opens with its tag.
pub proof fn lemma_command_len(command: DrawCommand)
    ensures
        spec_encode_command(command).len() == spec_command_len(command),
        spec_encode_command(command).len() >= ENTRY_HEAD_LEN,
        spec_encode_command(command)[0] == spec_tag(command.kind),
{
    reveal(spec_encode_command);
    lemma_rect_round_trip(command.bounds, Seq::empty());
    match command.kind {
        DrawCommandKind::FillRect => {},
        DrawCommandKind::DrawPolygon(points, _) => {
            lemma_points_len(points);
            lemma_u64_value_of_bytes(points.len() as u64, Seq::empty());
        },
    }
}

/// The entry that the bytes `s` start with, or `None` where no entry does.
#[verifier::opaque]
pub open spec fn spec_parse_command(s: Seq<u8>) -> Option<DrawCommand> {
    if s.len() < ENTRY_HEAD_LEN {
        None
    } else if s[0] == TAG_FILL_RECT {
        Some(DrawCommand { kind: DrawCommandKind::FillRect, bounds: spec_decode_rect(s.skip(1)) })
    } else if s[0] == TAG_DRAW_POLYGON || s[0] == TAG_DRAW_POLYGON_EVENODD {
        if s.len() < POLYGON_HEAD_LEN {
            None
        } else {
            let count = spec_u64_value(s.skip(ENTRY_HEAD_LEN as int));
            if s.len() - POLYGON_HEAD_LEN < POINT_LEN * count {
                None
            } else {
                Some(
                    DrawCommand {
                        kind: DrawCommandKind::DrawPolygon(
                            spec_decode_points(s.skip(POLYGON_HEAD_LEN as int), count as nat),
                            if s[0] == TAG_DRAW_POLYGON {
                                FillRule::Nonzero
                            } else {
                                FillRule::Evenodd
                            },
                        ),
                        bounds: spec_decode_rect(s.skip(1)),
                    },
                )
            }
        }
    } else {
        None
    }
}

/// An entry that `s` starts with is the one that parsing `s` finds.
pub proof fn lemma_parse_of_encoding(command: DrawCommand, s: Seq<u8>)
    requires
        command_representable(command),
        spec_encode_command(command).is_prefix_of(s),
    ensures
        spec_parse_command(s) == Some(command),
{
    reveal(spec_encode_command);
    reveal(spec_parse_command);
    let e = spec_encode_command(command);
    let rest = s.skip(e.len() as int);
    lemma_command_len(command);
    lemma_prefix_rest(e, s);
    match command.kind {
        DrawCommandKind::FillRect => {
            lemma_rect_round_trip(command.bounds, rest);
            assert(s.skip(1) =~= spec_encode_rect(command.bounds) + rest);
        },
        DrawCommandKind::DrawPolygon(points, _) => {
            let count_bytes = spec_u64_bytes(points.len() as u64);
            let point_bytes = spec_encode_points(points);
            lemma_rect_round_trip(command.bounds, count_bytes + point_bytes + rest);
            lemma_u64_value_of_bytes(points.len() as u64, point_bytes + rest);
            lemma_points_round_trip(points, rest);
            lemma_points_len(points);
            assert(s.skip(1) =~= spec_encode_rect(command.bounds) + (count_bytes + point_bytes
                + rest));
            assert(s.skip(ENTRY_HEAD_LEN as int) =~= count_bytes + (point_bytes + rest));
            assert(s.skip(POLYGON_HEAD_LEN as int) =~= point_bytes + rest);
        },
    }
}

/// The entry that parsing finds is one that the bytes start with.
pub proof fn lemma_encoding_of_parse(s: Seq<u8>)
    requires
        spec_parse_command(s) is Some,
    ensures
        command_representable(spec_parse_command(s)->0),
        spec_encode_command(spec_parse_command(s)->0).is_prefix_of(s),
{
    reveal(spec_encode_command);
    reveal(spec_parse_command);
    let command = spec_parse_command(s)->0;
    lemma_command_len(command);
    lemma_rect_of_bytes(s.skip(1));
    if s[0] != TAG_FILL_RECT {
        let count = spec_u64_value(s.skip(ENTRY_HEAD_LEN as int));
        lemma_u64_bytes_of_value(s.skip(ENTRY_HEAD_LEN as int));
        lemma_points_of_bytes(s.skip(POLYGON_HEAD_LEN as int), count as nat);
    }
}

/// At one place of a buffer there is at most one entry.
pub proof fn lemma_entry_unique(bytes: Seq<u8>, offset: int, a: DrawCommand, b: DrawCommand)
    requires
        entry_at(bytes, offset, a),
        entry_at(bytes, offset, b),
    ensures
        a == b,
{
    lemma_parse_of_encoding(a, bytes.skip(offset));
    lemma_parse_of_encoding(b, bytes.skip(offset));
}

/// Appending a command appends its entry.
pub proof fn lemma_encode_commands_push(commands: Seq<DrawCommand>, command: DrawCommand)
    ensures
        spec_encode_commands(commands.push(command)) == spec_encode_commands(commands)
            + spec_encode_command(command),
{
    assert(commands.push(command).drop_last() =~= commands);
}

/// The entries of the first `k` commands open the entries of all of them.
pub proof fn lemma_encode_commands_take(commands: Seq<DrawCommand>, k: int)
    requires
        0 <= k <= commands.len(),
    ensures
        spec_encode_commands(commands.take(k)).is_prefix_of(spec_encode_commands(commands)),
    decreases commands.len() - k,
{
    if k == commands.len() {
        assert(commands.take(k) =~= commands);
    } else {
        lemma_encode_commands_take(commands, k + 1);
        let longer = commands.take(k + 1);
        assert(longer.drop_last() =~= commands.take(k));
        lemma_prefix_rest(spec_encode_commands(longer), spec_encode_commands(commands));
        lemma_prefix_split(
            spec_encode_commands(commands.take(k)),
            spec_encode_command(longer.last()) + spec_encode_commands(commands).skip(
                spec_encode_commands(longer).len() as int,
            ),
            spec_encode_commands(commands),
        );
    }
}

/// Every entry takes at least its head, so a buffer is longer than its
/// number of entries.
pub proof fn lemma_encode_commands_len(commands: Seq<DrawCommand>)
    ensures
        spec_encode_commands(commands).len() >= ENTRY_HEAD_LEN * commands.len(),
    decreases commands.len(),
{
    if commands.len() > 0 {
        lemma_encode_commands_len(commands.drop_last());
        lemma_command_len(commands.last());
    }
}

/// Two sequences of commands of one length whose entries open the same
/// bytes are the same sequence.
pub proof fn lemma_entries_unique(s: Seq<u8>, a: Seq<DrawCommand>, b: Seq<DrawCommand>)
    requires
        a.len() == b.len(),
        representable(a),
        representable(b),
        spec_encode_commands(a).is_prefix_of(s),
        spec_encode_commands(b).is_prefix_of(s),
    ensures
        a == b,
    decreases a.len(),
{
    if a.len() > 0 {
        let a_front = a.drop_last();
        let b_front = b.drop_last();
        lemma_prefix_split(spec_encode_commands(a_front), spec_encode_command(a.last()), s);
        lemma_prefix_split(spec_encode_commands(b_front), spec_encode_command(b.last()), s);
        lemma_entries_unique(s, a_front, b_front);
        let at = spec_encode_commands(a_front).len() as int;
        lemma_entry_unique(s, at, a.last(), b.last());
        assert(b =~= b_front.push(b.last()));
    }
}

/// A buffer holds `commands` exactly when they are a decodable prefix of it
/// and as many as its header declares.
pub proof fn lemma_decodes_to_by_prefix(bytes: Seq<u8>, commands: Seq<DrawCommand>)
    ensures
        decodes_to(bytes, commands) <==> (decodable_prefix(bytes, commands) && commands.len()
            == spec_header_count(bytes)),
{
    let header = spec_u64_bytes(commands.len() as u64);
    let entries = spec_encode_commands(commands);
    lemma_u64_value_of_bytes(commands.len() as u64, Seq::empty());
    if decodes_to(bytes, commands) {
        lemma_prefix_split(header, entries, bytes);
        lemma_prefix_rest(header, bytes);
        lemma_u64_value_of_bytes(commands.len() as u64, bytes.skip(HEADER_LEN as int));
    }
    if decodable_prefix(bytes, commands) && commands.len() == spec_header_count(bytes) {
        lemma_u64_bytes_of_value(bytes);
        lemma_prefix_join(header, entries, bytes);
    }
}

/// What opens an opening of `s` opens `s`.
pub proof fn lemma_prefix_trans<T>(x: Seq<T>, y: Seq<T>, s: Seq<T>)
    requires
        x.is_prefix_of(y),
        y.is_prefix_of(s),
    ensures
        x.is_prefix_of(s),
{
}

/// Where a decodable prefix goes on with `command`, the shorter sequence
/// is a decodable prefix too, and `command` is the entry behind it.
pub proof fn lemma_decodable_prefix_push(
    bytes: Seq<u8>,
    seen: Seq<DrawCommand>,
    command: DrawCommand,
)
    requires
        decodable_prefix(bytes, seen.push(command)),
    ensures
        decodable_prefix(bytes, seen),
        spec_parse_command(bytes.skip(HEADER_LEN + spec_encode_commands(seen).len())) == Some(
            command,
        ),
{
    let entries = bytes.skip(HEADER_LEN as int);
    let longer = seen.push(command);
    assert(longer.drop_last() =~= seen);
    lemma_prefix_split(spec_encode_commands(seen), spec_encode_command(command), entries);
    assert forall|i: int| 0 <= i < seen.len() implies command_representable(
        #[trigger] seen[i],
    ) by {
    }
    let at = spec_encode_commands(seen).len();
    lemma_parse_of_encoding(command, bytes.skip(HEADER_LEN + at));
}

/// Where an entry can be read behind a decodable prefix that is shorter
/// than the header declares, the prefix goes on with that entry.
pub proof fn lemma_decodable_prefix_extend(bytes: Seq<u8>, seen: Seq<DrawCommand>)
    requires
        decodable_prefix(bytes, seen),
        seen.len() < spec_header_count(bytes),
        spec_parse_command(bytes.skip(HEADER_LEN + spec_encode_commands(seen).len())) is Some,
    ensures
        ({
            let command = spec_parse_command(
                bytes.skip(HEADER_LEN + spec_encode_commands(seen).len()),
            )->0;
            &&& decodable_prefix(bytes, seen.push(command))
            &&& spec_encode_commands(seen.push(command)).len() == spec_encode_commands(seen).len()
                + spec_command_len(command)
        }),
{
    let entries = bytes.skip(HEADER_LEN as int);
    let at = spec_encode_commands(seen).len();
    let command = spec_parse_command(bytes.skip(HEADER_LEN + at))->0;
    lemma_encoding_of_parse(bytes.skip(HEADER_LEN + at));
    lemma_command_len(command);
    lemma_prefix_join(spec_encode_commands(seen), spec_encode_command(command), entries);
    assert(seen.push(command).drop_last() =~= seen);
}

/// Every decodable prefix of a buffer that holds `commands` is made of the
/// first of these commands, and the next of them is the entry behind it.
pub proof fn lemma_decodable_prefix_of_decoded(
    bytes: Seq<u8>,
    commands: Seq<DrawCommand>,
    seen: Seq<DrawCommand>,
)
    requires
        decodes_to(bytes, commands),
        decodable_prefix(bytes, seen),
    ensures
        seen.len() <= commands.len(),
        seen == commands.take(seen.len() as int),
        seen.len() < commands.len() ==> spec_parse_command(
            bytes.skip(HEADER_LEN + spec_encode_commands(seen).len()),
        ) == Some(commands[seen.len() as int]),
{
    let entries = bytes.skip(HEADER_LEN as int);
    let k = seen.len() as int;
    lemma_decodes_to_by_prefix(bytes, commands);
    lemma_encode_commands_take(commands, k);
    lemma_prefix_trans(
        spec_encode_commands(commands.take(k)),
        spec_encode_commands(commands),
        entries,
    );
    lemma_entries_unique(entries, commands.take(k), seen);
    if k < commands.len() {
        let longer = commands.take(k + 1);
        lemma_encode_commands_take(commands, k + 1);
        lemma_prefix_trans(spec_encode_commands(longer), spec_encode_commands(commands), entries);
        assert(longer =~= seen.push(commands[k]));
        lemma_decodable_prefix_push(bytes, seen, commands[k]);
    }
}

/// A buffer holds at most one sequence of commands.
pub proof fn lemma_decode_unique(bytes: Seq<u8>, a: Seq<DrawCommand>, b: Seq<DrawCommand>)
    requires
        decodes_to(bytes, a),
        decodes_to(bytes, b),
    ensures
        a == b,
{
    lemma_decodes_to_by_prefix(bytes, a);
    lemma_decodes_to_by_prefix(bytes, b);
    lemma_entries_unique(bytes.skip(HEADER_LEN as int), a, b);
}

/// The commands that a buffer holds are what decoding it gives.
pub proof fn lemma_decode_is(bytes: Seq<u8>, commands: Seq<DrawCommand>)
    requires
        decodes_to(bytes, commands),
    ensures
        spec_decode(bytes) == Some(commands),
{
    lemma_decode_unique(bytes, commands, spec_decode(bytes)->0);
}

/// Decoding undoes encoding: the buffer made of any commands holds exactly
/// those commands, in their order.
pub proof fn law_decode_of_encode(commands: Seq<DrawCommand>)
    requires
        representable(commands),
    ensures
        spec_decode(spec_encode(commands)) == Some(commands),
{
    lemma_decode_is(spec_encode(commands), commands);
}

/// Bytes behind the last entry that the header counts are not looked at: a
/// buffer with anything added at its end holds the commands that it held.
/// So a buffer that has grown by an entry, and whose header does not count
/// that entry yet, is as good as it was before.
pub proof fn law_trailing_bytes_are_not_read(commands: Seq<DrawCommand>, extra: Seq<u8>)
    requires
        representable(commands),
    ensures
        spec_decode(spec_encode(commands) + extra) == Some(commands),
{
    let longer = spec_encode(commands) + extra;
    lemma_decode_is(longer, commands);
}

/// Appending a command puts its entry behind the entries that are there
/// and nothing else; decoding the longer buffer gives what the shorter one
/// held with the new command at its end, at the index that was the length
/// before.
pub proof fn law_append(commands: Seq<DrawCommand>, command: DrawCommand)
    requires
        representable(commands.push(command)),
    ensures
        spec_encode(commands.push(command)).skip(HEADER_LEN as int) == spec_encode(commands).skip(
            HEADER_LEN as int,
        ) + spec_encode_command(command),
        spec_decode(spec_encode(commands)) == Some(commands),
        spec_decode(spec_encode(commands.push(command))) == Some(commands.push(command)),
        commands.push(command)[commands.len() as int] == command,
{
    let longer = commands.push(command);
    assert forall|i: int| 0 <= i < commands.len() implies command_representable(
        #[trigger] commands[i],
    ) by {
        assert(commands[i] == longer[i]);
    }
    law_decode_of_encode(commands);
    law_decode_of_encode(longer);
    lemma_encode_commands_push(commands, command);
    lemma_u64_value_of_bytes(commands.len() as u64, Seq::empty());
    lemma_u64_value_of_bytes(longer.len() as u64, Seq::empty());
}

} // verus!
