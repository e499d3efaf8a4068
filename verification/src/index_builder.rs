//! The index of a column: one entry per block of the column's data file,
//! and the builder that turns the entries into the bytes of an index file.
//!
//! An index file starts with a header of ten bytes: the format version, the
//! identifier of the checksum algorithm, and the number of entries as a
//! 64-bit little-endian number. The entries follow, 24 bytes each: offset
//! (64 bits), length (32 bits), row count (32 bits) and checksum (64 bits),
//! all little-endian.

use crate::checksum::ChecksumType;
use crate::codec::{le_bytes, le_value, lemma_le_bytes_len, lemma_le_roundtrip,
    lemma_radix_limits, push_le};
use vstd::prelude::*;

verus! {

/// Where a block lies in the data file, how many rows it holds, and the
/// checksum of its bytes.
#[derive(Clone, Copy, Debug, PartialEq, Eq, Structural)]
pub struct BlockIndex {
    pub offset: u64,
    pub length: u32,
    pub row_count: u32,
    pub checksum: u64,
}

/// Version of the entry format that this library writes.
pub const INDEX_FORMAT_VERSION: u8 = 1;

/// Number of bytes of the header of an index file.
pub const INDEX_HEADER_LEN: usize = 10;

/// Number of bytes of one entry of an index file.
pub const INDEX_ENTRY_LEN: usize = 24;

/// The bytes of one entry.
pub open spec fn entry_bytes(entry: BlockIndex) -> Seq<u8> {
    le_bytes(entry.offset as nat, 8) + le_bytes(entry.length as nat, 4) + le_bytes(
        entry.row_count as nat,
        4,
    ) + le_bytes(entry.checksum as nat, 8)
}

/// The bytes of a run of entries, in order.
pub open spec fn entries_bytes(entries: Seq<BlockIndex>) -> Seq<u8>
    decreases entries.len(),
{
    if entries.len() == 0 {
        Seq::empty()
    } else {
        entries_bytes(entries.drop_last()) + entry_bytes(entries.last())
    }
}

/// The header of an index file with `count` entries.
pub open spec fn index_header(checksum: ChecksumType, count: nat) -> Seq<u8> {
    seq![INDEX_FORMAT_VERSION, checksum.spec_id()] + le_bytes(count, 8)
}

/// The bytes of the index file with the given entries.
pub open spec fn index_file(checksum: ChecksumType, entries: Seq<BlockIndex>) -> Seq<u8> {
    index_header(checksum, entries.len()) + entries_bytes(entries)
}

/// Whether the entries come in strictly increasing order of their offsets.
pub open spec fn offsets_increase(entries: Seq<BlockIndex>) -> bool {
    forall|i: int, j: int|
        0 <= i < j < entries.len() ==> (#[trigger] entries[i]).offset < (
        #[trigger] entries[j]).offset
}

/// The entry that stands at `bytes[at..at + 24]`.
pub open spec fn entry_at(bytes: Seq<u8>, at: int) -> BlockIndex {
    BlockIndex {
        offset: le_value(bytes.subrange(at, at + 8)) as u64,
        length: le_value(bytes.subrange(at + 8, at + 12)) as u32,
        row_count: le_value(bytes.subrange(at + 12, at + 16)) as u32,
        checksum: le_value(bytes.subrange(at + 16, at + 24)) as u64,
    }
}

/// The checksum algorithm and the entries that the bytes of an index file
/// hold; `None` where the bytes are not an index file of this format.
pub open spec fn parse_index_file(bytes: Seq<u8>) -> Option<(ChecksumType, Seq<BlockIndex>)> {
    if bytes.len() < INDEX_HEADER_LEN || bytes[0] != INDEX_FORMAT_VERSION || bytes[1] > 2 {
        None
    } else {
        let count = le_value(bytes.subrange(2, 10));
        if bytes.len() != INDEX_HEADER_LEN + INDEX_ENTRY_LEN * count {
            None
        } else {
            let checksum = if bytes[1] == 0 {
                ChecksumType::Disabled
            } else if bytes[1] == 1 {
                ChecksumType::Crc32
            } else {
                ChecksumType::Crc64
            };
            Some(
                (
                    checksum,
                    Seq::new(
                        count,
                        |i: int| entry_at(bytes, INDEX_HEADER_LEN + INDEX_ENTRY_LEN * i),
                    ),
                ),
            )
        }
    }
}

/// An entry takes 24 bytes and is read back from them.
pub proof fn lemma_entry_roundtrip(entry: BlockIndex)
    ensures
        entry_bytes(entry).len() == INDEX_ENTRY_LEN,
        entry_at(entry_bytes(entry), 0) == entry,
{
    let bytes = entry_bytes(entry);
    let a = le_bytes(entry.offset as nat, 8);
    let b = le_bytes(entry.length as nat, 4);
    let c = le_bytes(entry.row_count as nat, 4);
    let d = le_bytes(entry.checksum as nat, 8);
    lemma_radix_limits();
    lemma_le_bytes_len(entry.offset as nat, 8);
    lemma_le_bytes_len(entry.length as nat, 4);
    lemma_le_bytes_len(entry.row_count as nat, 4);
    lemma_le_bytes_len(entry.checksum as nat, 8);
    lemma_le_roundtrip(entry.offset as nat, 8);
    lemma_le_roundtrip(entry.length as nat, 4);
    lemma_le_roundtrip(entry.row_count as nat, 4);
    lemma_le_roundtrip(entry.checksum as nat, 8);
    assert(bytes.subrange(0, 8) =~= a);
    assert(bytes.subrange(8, 12) =~= b);
    assert(bytes.subrange(12, 16) =~= c);
    assert(bytes.subrange(16, 24) =~= d);
}

/// A run of entries takes 24 bytes per entry, and entry `i` stands at
/// byte `24 * i`.
pub proof fn lemma_entries_bytes(entries: Seq<BlockIndex>, i: int)
    requires
        0 <= i < entries.len(),
    ensures
        entries_bytes(entries).len() == INDEX_ENTRY_LEN * entries.len(),
        entries_bytes(entries).subrange(INDEX_ENTRY_LEN * i, INDEX_ENTRY_LEN * i + INDEX_ENTRY_LEN)
            == entry_bytes(entries[i]),
    decreases entries.len(),
{
    let front = entries.drop_last();
    lemma_entries_len(front);
    lemma_entry_roundtrip(entries.last());
    if i == entries.len() - 1 {
        assert(entries_bytes(entries).subrange(
            INDEX_ENTRY_LEN * i,
            INDEX_ENTRY_LEN * i + INDEX_ENTRY_LEN,
        ) =~= entry_bytes(entries[i]));
    } else {
        lemma_entries_bytes(front, i);
        assert(entries_bytes(entries).subrange(
            INDEX_ENTRY_LEN * i,
            INDEX_ENTRY_LEN * i + INDEX_ENTRY_LEN,
        ) =~= entries_bytes(front).subrange(
            INDEX_ENTRY_LEN * i,
            INDEX_ENTRY_LEN * i + INDEX_ENTRY_LEN,
        ));
    }
}

/// A run of entries takes 24 bytes per entry.
pub proof fn lemma_entries_len(entries: Seq<BlockIndex>)
    ensures
        entries_bytes(entries).len() == INDEX_ENTRY_LEN * entries.len(),
    decreases entries.len(),
{
    if entries.len() > 0 {
        lemma_entries_len(entries.drop_last());
        lemma_entry_roundtrip(entries.last());
    }
}

/// An index file is read back as the algorithm and the entries that it was
/// written from.
pub proof fn lemma_index_file_roundtrip(checksum: ChecksumType, entries: Seq<BlockIndex>)
    requires
        entries.len() <= u64::MAX,
    ensures
        index_file(checksum, entries).len() == INDEX_HEADER_LEN + INDEX_ENTRY_LEN * entries.len(),
        parse_index_file(index_file(checksum, entries)) == Some((checksum, entries)),
{
    let bytes = index_file(checksum, entries);
    let count = entries.len();
    lemma_radix_limits();
    lemma_le_bytes_len(count, 8);
    lemma_le_roundtrip(count, 8);
    lemma_entries_len(entries);
    assert(bytes.subrange(2, 10) =~= le_bytes(count, 8));
    let parsed = Seq::new(
        count,
        |i: int| entry_at(bytes, INDEX_HEADER_LEN + INDEX_ENTRY_LEN * i),
    );
    assert forall|i: int| 0 <= i < count implies parsed[i] == entries[i] by {
        let at = INDEX_HEADER_LEN + INDEX_ENTRY_LEN * i;
        lemma_entries_bytes(entries, i);
        lemma_entry_roundtrip(entries[i]);
        let e = entry_bytes(entries[i]);
        assert(bytes.subrange(at, at + 24) =~= e);
        assert(bytes.subrange(at, at + 8) =~= e.subrange(0, 8));
        assert(bytes.subrange(at + 8, at + 12) =~= e.subrange(8, 12));
        assert(bytes.subrange(at + 12, at + 16) =~= e.subrange(12, 16));
        assert(bytes.subrange(at + 16, at + 24) =~= e.subrange(16, 24));
    }
    assert(parsed =~= entries);
}

/// Turns the index entries of one column into the bytes of its index file.
pub struct IndexBuilder {
    checksum_type: ChecksumType,
    /// The entries appended so far, encoded.
    data: Vec<u8>,
    /// The entries appended so far.
    entries: Ghost<Seq<BlockIndex>>,
}

impl IndexBuilder {
    /// The checksum algorithm that the header will name.
    pub closed spec fn checksum_type(&self) -> ChecksumType {
        self.checksum_type
    }

    /// The entries appended so far, in order.
    pub closed spec fn entries(&self) -> Seq<BlockIndex> {
        self.entries@
    }

    /// The builder's invariant: the buffer holds the entries in encoded form.
    pub closed spec fn wf(&self) -> bool {
        self.data@ == entries_bytes(self.entries@)
    }

    /// A builder without entries. `capacity` is the number of entries that
    /// the caller expects to append; more or fewer may come.
    pub fn new(checksum_type: ChecksumType, capacity: usize) -> (builder: IndexBuilder)
        ensures
            builder.wf(),
            builder.checksum_type() == checksum_type,
            builder.entries() == Seq::<BlockIndex>::empty(),
    {
        let room: usize = if capacity <= usize::MAX / INDEX_ENTRY_LEN {
            capacity * INDEX_ENTRY_LEN
        } else {
            0
        };
        IndexBuilder { checksum_type, data: Vec::with_capacity(room), entries: Ghost(Seq::empty()) }
    }

    /// Appends the entry of the next block. Entries come in the order of
    /// the blocks in the data file, so each offset lies beyond the last.
    pub fn append(&mut self, index: BlockIndex)
        requires
            old(self).wf(),
            old(self).entries().len() > 0 ==> old(self).entries().last().offset < index.offset,
        ensures
            final(self).wf(),
            final(self).checksum_type() == old(self).checksum_type(),
            final(self).entries() == old(self).entries().push(index),
    {
        let ghost before = self.data@;
        push_le(&mut self.data, index.offset, 8);
        push_le(&mut self.data, index.length as u64, 4);
        push_le(&mut self.data, index.row_count as u64, 4);
        push_le(&mut self.data, index.checksum, 8);
        proof {
            assert(self.data@ =~= before + entry_bytes(index));
            assert(self.entries@.push(index).drop_last() =~= self.entries@);
        }
        self.entries = Ghost(self.entries@.push(index));
    }

    /// The bytes of the index file: the header, then the entries.
    pub fn finish(self) -> (bytes: Vec<u8>)
        requires
            self.wf(),
        ensures
            bytes@ == index_file(self.checksum_type(), self.entries()),
    {
        proof {
            lemma_entries_len(self.entries@);
        }
        let count: usize = self.data.len() / INDEX_ENTRY_LEN;
        let mut bytes: Vec<u8> = Vec::with_capacity(INDEX_HEADER_LEN);
        bytes.push(INDEX_FORMAT_VERSION);
        bytes.push(self.checksum_type.id());
        push_le(&mut bytes, count as u64, 8);
        let mut data = self.data;
        bytes.append(&mut data);
        assert(bytes@ =~= index_file(self.checksum_type, self.entries@));
        bytes
    }
}

} // verus!
