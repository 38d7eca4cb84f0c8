//! A command buffer under construction, and a cursor that reads one.

use crate::codec::{entry_end, read_command, write_command};
use crate::command::{BlobImageCommand, DrawCommand};
use crate::format::{
    decodable_prefix, decodes_to, lemma_command_len, lemma_decodable_prefix_extend,
    lemma_decodable_prefix_of_decoded, lemma_decodable_prefix_push, lemma_decode_is,
    lemma_decodes_to_by_prefix, lemma_encode_commands_len, lemma_encode_commands_take,
    lemma_parse_of_encoding, lemma_prefix_split, representable, spec_decode, spec_encode,
    spec_encode_command, spec_encode_commands, spec_header_count, ENTRY_HEAD_LEN, HEADER_LEN,
};
use crate::wire::{
    lemma_u64_value_of_bytes, overwrite, read_u64, spec_u64_bytes, splice, store_u64, write_u64,
};
use vstd::prelude::*;

verus! {

/// The most entries for which `new_with_capacity` reserves room ahead.
pub const RESERVED_ENTRIES_MAX: usize = 4096;

/// The header of a command buffer: the number of entries that follow it.
#[derive(Debug, Copy, Clone, PartialEq, Eq, Structural)]
pub struct BlobDataHeader {
    pub length: u64,
}

impl BlobDataHeader {
    /// The header of `bytes`, or `None` where `bytes` is too short for one.
    pub fn read(bytes: &[u8]) -> (r: Option<BlobDataHeader>)
        ensures
            match r {
                Some(header) => bytes@.len() >= HEADER_LEN && header.length == spec_header_count(
                    bytes@,
                ),
                None => bytes@.len() < HEADER_LEN,
            },
    {
        if bytes.len() < HEADER_LEN {
            None
        } else {
            assert(bytes@.skip(0) =~= bytes@);
            Some(BlobDataHeader { length: read_u64(bytes, 0) })
        }
    }
}

impl Default for BlobDataHeader {
    /// The header of a buffer without entries.
    fn default() -> (header: BlobDataHeader)
        ensures
            header.length == 0,
    {
        BlobDataHeader { length: 0 }
    }
}

/// A command buffer that grows by whole entries. Its bytes are at every
/// moment the encoding of the commands that were put into it.
pub struct BlobData {
    bytes: Vec<u8>,
    commands: Ghost<Seq<DrawCommand>>,
}

impl View for BlobData {
    type V = Seq<DrawCommand>;

    /// The commands of the buffer, in their order.
    closed spec fn view(&self) -> Seq<DrawCommand> {
        self.commands@
    }
}

/// The entries of `a` followed by those of `b` are the entries of `a + b`.
pub proof fn lemma_encode_commands_concat(a: Seq<DrawCommand>, b: Seq<DrawCommand>)
    ensures
        spec_encode_commands(a + b) == spec_encode_commands(a) + spec_encode_commands(b),
    decreases b.len(),
{
    if b.len() > 0 {
        lemma_encode_commands_concat(a, b.drop_last());
        assert((a + b).drop_last() =~= a + b.drop_last());
    }
}

impl BlobData {
    /// The bytes are the encoding of the commands.
    pub closed spec fn wf(&self) -> bool {
        &&& representable(self.commands@)
        &&& self.bytes@ == spec_encode(self.commands@)
    }

    /// The bytes of the buffer.
    pub closed spec fn spec_bytes(&self) -> Seq<u8> {
        self.bytes@
    }

    /// A well-formed buffer holds the encoding of its commands, and decoding
    /// that gives the commands back.
    pub proof fn lemma_bytes(&self)
        requires
            self.wf(),
        ensures
            representable(self@),
            self.spec_bytes() == spec_encode(self@),
            spec_decode(self.spec_bytes()) == Some(self@),
    {
        lemma_decode_is(self.bytes@, self.commands@);
    }

    /// A buffer without entries.
    pub fn new() -> (buffer: BlobData)
        ensures
            buffer.wf(),
            buffer@ == Seq::<DrawCommand>::empty(),
    {
        let mut bytes: Vec<u8> = Vec::new();
        write_u64(&mut bytes, 0);
        let buffer = BlobData { bytes, commands: Ghost(Seq::empty()) };
        buffer
    }

    /// A buffer without entries, with room reserved for `capacity` entries
    /// of the shortest kind, though for no more than `RESERVED_ENTRIES_MAX`.
    pub fn new_with_capacity(capacity: usize) -> (buffer: BlobData)
        ensures
            buffer.wf(),
            buffer@ == Seq::<DrawCommand>::empty(),
    {
        let entries: usize = if capacity <= RESERVED_ENTRIES_MAX {
            capacity
        } else {
            RESERVED_ENTRIES_MAX
        };
        let mut bytes: Vec<u8> = Vec::with_capacity(HEADER_LEN + entries * ENTRY_HEAD_LEN);
        write_u64(&mut bytes, 0);
        let buffer = BlobData { bytes, commands: Ghost(Seq::empty()) };
        buffer
    }

    /// The number of entries.
    pub fn len(&self) -> (n: usize)
        requires
            self.wf(),
        ensures
            n == self@.len(),
    {
        proof {
            lemma_u64_value_of_bytes(
                self.commands@.len() as u64,
                spec_encode_commands(self.commands@),
            );
            lemma_encode_commands_len(self.commands@);
            assert(self.bytes@.skip(0) =~= self.bytes@);
            assert(self.bytes@.len() == self.bytes.len());
        }
        read_u64(self.bytes.as_slice(), 0) as usize
    }

    /// Appends `data` as the last entry and returns its index. The entry is
    /// written behind the others first; the header is brought up to date
    /// last, so at no moment does the header count an entry that is not
    /// there.
    pub fn new_entry(&mut self, data: BlobImageCommand) -> (index: usize)
        requires
            old(self).wf(),
        ensures
            final(self).wf(),
            final(self)@ == old(self)@.push(data@),
            index == old(self)@.len(),
    {
        let ghost before = self.commands@;
        let ghost entries = spec_encode_commands(before);
        let index: usize = self.len();
        proof {
            lemma_u64_value_of_bytes(before.len() as u64, entries);
            lemma_encode_commands_len(before);
            lemma_command_len(data@);
            crate::codec::lemma_command_view_representable(&data);
        }
        write_command(&mut self.bytes, &data);
        proof {
            lemma_encode_commands_len(before.push(data@));
            assert(before.push(data@).drop_last() =~= before);
            assert(self.bytes@.len() == self.bytes.len());
        }
        store_u64(&mut self.bytes, 0, index as u64 + 1);
        proof {
            self.commands@ = before.push(data@);
            assert(self.bytes@ =~= spec_encode(before.push(data@)));
        }
        index
    }

    /// Puts `data` in the place of the entry at `index`. Where the new
    /// entry is as long as the old one it is written over it; otherwise the
    /// bytes are laid out anew, so that no neighbour is touched.
    pub fn update_entry(&mut self, index: usize, data: BlobImageCommand)
        requires
            old(self).wf(),
            index < old(self)@.len(),
        ensures
            final(self).wf(),
            final(self)@ == old(self)@.update(index as int, data@),
    {
        let ghost before = self.commands@;
        let ghost front = before.take(index as int);
        let ghost back = before.skip(index + 1);
        let ghost header = spec_u64_bytes(before.len() as u64);
        proof {
            lemma_u64_value_of_bytes(before.len() as u64, spec_encode_commands(before));
            assert(before =~= front.push(before[index as int]) + back);
            lemma_encode_commands_concat(front.push(before[index as int]), back);
            assert(front.push(before[index as int]).drop_last() =~= front);
            crate::codec::lemma_command_view_representable(&data);
        }
        let start: usize = self.entry_offset(index);
        let ghost old_entry = spec_encode_command(before[index as int]);
        proof {
            lemma_command_len(before[index as int]);
            assert(self.bytes@ =~= header + spec_encode_commands(front) + old_entry
                + spec_encode_commands(back));
            lemma_parse_of_encoding(before[index as int], self.bytes@.skip(start as int));
        }
        let end: usize = match entry_end(self.bytes.as_slice(), start) {
            Some(next) => next,
            None => start,
        };
        let mut entry: Vec<u8> = Vec::new();
        write_command(&mut entry, &data);
        let ghost after = before.update(index as int, data@);
        proof {
            assert(after =~= front.push(data@) + back);
            lemma_encode_commands_concat(front.push(data@), back);
            assert(front.push(data@).drop_last() =~= front);
        }
        if entry.len() == end - start {
            overwrite(&mut self.bytes, start, &entry);
        } else {
            self.bytes = splice(&self.bytes, start, end, &entry);
        }
        proof {
            self.commands@ = after;
            assert(self.bytes@ =~= spec_encode(after));
        }
    }

    /// Where the entry at `index` starts.
    fn entry_offset(&self, index: usize) -> (offset: usize)
        requires
            self.wf(),
            index < self@.len(),
        ensures
            offset == HEADER_LEN + spec_encode_commands(self@.take(index as int)).len(),
            offset + spec_encode_command(self@[index as int]).len() <= self.spec_bytes().len(),
    {
        let ghost all = self.commands@;
        let ghost entries = spec_encode_commands(all);
        proof {
            lemma_u64_value_of_bytes(all.len() as u64, entries);
        }
        let mut offset: usize = HEADER_LEN;
        let mut i: usize = 0;
        while i < index
            invariant
                i <= index < all.len(),
                all == self.commands@,
                entries == spec_encode_commands(all),
                representable(all),
                self.bytes@.skip(HEADER_LEN as int) == entries,
                self.bytes@.len() == HEADER_LEN + entries.len(),
                offset == HEADER_LEN + spec_encode_commands(all.take(i as int)).len(),
                offset <= self.bytes@.len(),
            decreases index - i,
        {
            proof {
                lemma_entry_in_place(all, i as int);
                lemma_parse_of_encoding(all[i as int], self.bytes@.skip(offset as int));
                assert(all.take(i + 1).drop_last() =~= all.take(i as int));
            }
            offset = match entry_end(self.bytes.as_slice(), offset) {
                Some(next) => next,
                None => offset,
            };
            proof {
                lemma_command_len(all[i as int]);
            }
            i += 1;
        }
        proof {
            lemma_entry_in_place(all, index as int);
        }
        offset
    }

    /// The bytes of the buffer as they are now: a command buffer at any
    /// moment between two calls.
    pub fn as_slice(&self) -> (bytes: &[u8])
        requires
            self.wf(),
        ensures
            bytes@ == spec_encode(self@),
            spec_decode(bytes@) == Some(self@),
    {
        proof {
            self.lemma_bytes();
        }
        self.bytes.as_slice()
    }

    /// The bytes of the buffer. Decoding them gives its commands.
    pub fn take(self) -> (bytes: Vec<u8>)
        requires
            self.wf(),
        ensures
            bytes@ == spec_encode(self@),
            bytes@ == self.spec_bytes(),
            spec_decode(bytes@) == Some(self@),
    {
        proof {
            self.lemma_bytes();
        }
        self.bytes
    }
}

/// In the entries of `commands`, the entry of the command at `k` stands
/// right behind the entries of the `k` commands before it.
pub proof fn lemma_entry_in_place(commands: Seq<DrawCommand>, k: int)
    requires
        0 <= k < commands.len(),
    ensures
        (spec_encode_commands(commands.take(k)) + spec_encode_command(commands[k])).is_prefix_of(
            spec_encode_commands(commands),
        ),
        spec_encode_command(commands[k]).is_prefix_of(
            spec_encode_commands(commands).skip(spec_encode_commands(commands.take(k)).len() as int),
        ),
{
    lemma_encode_commands_take(commands, k + 1);
    assert(commands.take(k + 1).drop_last() =~= commands.take(k));
    lemma_prefix_split(
        spec_encode_commands(commands.take(k)),
        spec_encode_command(commands[k]),
        spec_encode_commands(commands),
    );
}

/// A cursor over the entries of a command buffer. It reads one entry at a
/// call and copies nothing ahead; it looks at the header anew at every
/// call, and never reads more entries than the header declares.
pub struct BlobDataIterator<'a> {
    current_pos: usize,
    offset: usize,
    data: &'a [u8],
    seen: Ghost<Seq<DrawCommand>>,
}

impl<'a> BlobDataIterator<'a> {
    /// The commands read so far are a decodable prefix of the buffer, and
    /// the cursor stands behind their entries.
    pub closed spec fn wf(&self) -> bool {
        &&& self.seen@.len() == self.current_pos
        &&& self.offset == HEADER_LEN + spec_encode_commands(self.seen@).len()
        &&& if self.data@.len() >= HEADER_LEN {
            decodable_prefix(self.data@, self.seen@)
        } else {
            self.seen@.len() == 0
        }
    }

    /// The bytes that the cursor reads.
    pub closed spec fn bytes(&self) -> Seq<u8> {
        self.data@
    }

    /// The commands that the cursor has handed out, in their order.
    pub closed spec fn yielded(&self) -> Seq<DrawCommand> {
        self.seen@
    }

    /// A cursor in front of the first entry of `buffer`.
    pub fn from_raw(buffer: &'a [u8]) -> (cursor: Self)
        ensures
            cursor.wf(),
            cursor.bytes() == buffer@,
            cursor.yielded() == Seq::<DrawCommand>::empty(),
            buffer@.len() >= HEADER_LEN ==> decodable_prefix(buffer@, cursor.yielded()),
    {
        BlobDataIterator {
            current_pos: 0,
            offset: HEADER_LEN,
            data: buffer,
            seen: Ghost(Seq::empty()),
        }
    }

    /// Whether the cursor has handed out every entry that the header
    /// declares: whether the buffer holds exactly the commands read so far.
    /// Where `next` gives `None` and this is false, the buffer is damaged.
    pub fn finished(&self) -> (done: bool)
        requires
            self.wf(),
        ensures
            done == decodes_to(self.bytes(), self.yielded()),
            done == (spec_decode(self.bytes()) == Some(self.yielded())),
    {
        proof {
            lemma_decodes_to_by_prefix(self.data@, self.seen@);
            if decodes_to(self.data@, self.seen@) {
                lemma_decode_is(self.data@, self.seen@);
            }
            lemma_encode_commands_len(self.seen@);
        }
        if self.data.len() < HEADER_LEN {
            false
        } else {
            assert(self.data@.skip(0) =~= self.data@);
            read_u64(self.data, 0) == self.current_pos as u64
        }
    }

    /// The next entry, or `None` where the header declares no further entry
    /// or no entry can be read where one should start.
    pub fn next(&mut self) -> (r: Option<BlobImageCommand>)
        requires
            old(self).wf(),
        ensures
            final(self).wf(),
            final(self).bytes() == old(self).bytes(),
            match r {
                Some(command) => {
                    &&& final(self).yielded() == old(self).yielded().push(command@)
                    &&& decodable_prefix(old(self).bytes(), final(self).yielded())
                },
                None => {
                    &&& final(self).yielded() == old(self).yielded()
                    &&& forall|command: DrawCommand|
                        !decodable_prefix(
                            old(self).bytes(),
                            #[trigger] old(self).yielded().push(command),
                        )
                },
            },
            spec_decode(old(self).bytes()) matches Some(commands) ==> {
                let k = old(self).yielded().len() as int;
                &&& k <= commands.len()
                &&& old(self).yielded() == commands.take(k)
                &&& match r {
                    Some(command) => k < commands.len() && command@ == commands[k],
                    None => old(self).yielded() == commands,
                }
            },
    {
        let ghost bytes = self.data@;
        let ghost seen = self.seen@;
        if self.data.len() < HEADER_LEN {
            proof {
                assert forall|command: DrawCommand|
                    !decodable_prefix(bytes, #[trigger] seen.push(command)) by {}
                if spec_decode(bytes) is Some {
                    lemma_decodes_to_by_prefix(bytes, spec_decode(bytes)->0);
                }
            }
            return None;
        }
        assert(bytes.skip(0) =~= bytes);
        let count: u64 = read_u64(self.data, 0);
        proof {
            lemma_encode_commands_len(seen);
            if spec_decode(bytes) is Some {
                let commands = spec_decode(bytes)->0;
                lemma_decodes_to_by_prefix(bytes, commands);
                lemma_decodable_prefix_of_decoded(bytes, commands, seen);
            }
        }
        if self.current_pos as u64 >= count {
            return None;
        }
        match read_command(self.data, self.offset) {
            Some((command, next)) => {
                proof {
                    lemma_decodable_prefix_extend(bytes, seen);
                    lemma_encode_commands_len(seen.push(command@));
                    self.seen@ = seen.push(command@);
                }
                self.current_pos = self.current_pos + 1;
                self.offset = next;
                Some(command)
            },
            None => {
                proof {
                    assert forall|command: DrawCommand|
                        !decodable_prefix(bytes, #[trigger] seen.push(command)) by {
                        if decodable_prefix(bytes, seen.push(command)) {
                            lemma_decodable_prefix_push(bytes, seen, command);
                        }
                    }
                }
                None
            },
        }
    }
}

} // verus!
