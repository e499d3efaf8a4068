//! Reading a column back: the index file is parsed, every block is checked
//! against its checksum and decoded, and the values come out in row order.

use crate::array::{blob_datum, bool_datum, float64_datum, int32_datum, int64_datum, ArrayImpl,
    Datum};
use crate::block::{bits_i32, bits_i64, block_cells, block_well_formed, cell_datum, cell_start,
    cells_of, cells_ok, decode_block, end_offset, header_len, null_section_len, Cell};
use crate::checksum::ChecksumType;
use crate::codec::{bitmap_bytes, bitmap_get, le_value, lemma_le_value_bound, lemma_radix_limits,
    read_bit, read_le, test_bit};
use crate::column_builder::{blocks_data, column_data, column_index, final_blocks,
    ColumnBuilderOptions};
use crate::column_file::{block_in_bounds, block_intact, block_slice, blocks_shaped,
    column_intact, decode_column, decode_entry, decode_values, lemma_block_len,
    lemma_blocks_data_block, lemma_column_roundtrip, lemma_column_row_count, lemma_entry,
    lemma_final_blocks, lemma_values_roundtrip, total_rows};
use crate::error::StorageError;
use crate::index_builder::{entry_at, index_file, lemma_index_file_roundtrip, parse_index_file,
    BlockIndex, INDEX_ENTRY_LEN, INDEX_FORMAT_VERSION, INDEX_HEADER_LEN};
use crate::types::{DataType, DataTypeKind};
use vstd::prelude::*;

verus! {

/// The value of a fixed-width type that a row holds, given the number that
/// the bytes of its slot spell; a null for `None`.
pub open spec fn word_datum(kind: DataTypeKind, word: Option<u64>) -> Option<Datum> {
    match word {
        None => Some(Datum::Null),
        Some(x) => match kind {
            DataTypeKind::Boolean => if x <= 1 {
                Some(Datum::Bool(x == 1))
            } else {
                None
            },
            DataTypeKind::Int => Some(Datum::Int32(bits_i32(x as nat))),
            DataTypeKind::BigInt => Some(Datum::Int64(bits_i64(x as nat))),
            DataTypeKind::Double => Some(Datum::Float64(x)),
            DataTypeKind::Blob => None,
        },
    }
}

/// The values of a block of `rows` rows; `None` where `bytes` is not such
/// a block or a row does not hold a value of the column's type.
pub open spec fn block_values(datatype: DataType, rows: nat, bytes: Seq<u8>) -> Option<Seq<Datum>> {
    match decode_block(datatype.kind, datatype.nullable, rows, bytes) {
        Some(cells) => decode_values(datatype, cells),
        None => None,
    }
}

/// The values of the block of an entry.
pub open spec fn entry_values(datatype: DataType, entry: BlockIndex, data: Seq<u8>) -> Option<
    Seq<Datum>,
> {
    match decode_entry(datatype, entry, data) {
        Some(cells) => decode_values(datatype, cells),
        None => None,
    }
}

/// The values of a column, block after block in the order of the index.
pub open spec fn column_values(datatype: DataType, index: Seq<BlockIndex>, data: Seq<u8>) -> Option<
    Seq<Datum>,
> {
    match decode_column(datatype, index, data) {
        Some(cells) => decode_values(datatype, cells),
        None => None,
    }
}

/// What reading a column gives: the values of the column in row order, if
/// the index file is an index file, names the checksum algorithm that the
/// reader expects, every block passes its check, and every block decodes
/// to values of the column's type.
pub open spec fn read_column_spec(
    datatype: DataType,
    expected: ChecksumType,
    index_bytes: Seq<u8>,
    data: Seq<u8>,
) -> Result<Seq<Datum>, StorageError> {
    match parse_index_file(index_bytes) {
        None => Err(StorageError::Corrupted),
        Some((checksum, index)) => if checksum != expected {
            Err(StorageError::ChecksumAlgorithmMismatch)
        } else if !column_intact(checksum, index, data) {
            Err(StorageError::Corrupted)
        } else {
            match column_values(datatype, index, data) {
                Some(values) => Ok(values),
                None => Err(StorageError::Corrupted),
            }
        },
    }
}

/// The values of two runs of cells, one after the other, are the values of
/// the cells of both.
pub proof fn lemma_decode_values_concat(datatype: DataType, a: Seq<Cell>, b: Seq<Cell>)
    ensures
        decode_values(datatype, a + b) == match (
            decode_values(datatype, a),
            decode_values(datatype, b),
        ) {
            (Some(x), Some(y)) => Some(x + y),
            _ => None,
        },
{
    let both = a + b;
    if decode_values(datatype, a) is None {
        let i = choose|i: int| 0 <= i < a.len() && !(cell_datum(datatype.kind, #[trigger] a[i]) is Some);
        assert(both[i] == a[i]);
    } else if decode_values(datatype, b) is None {
        let i = choose|i: int| 0 <= i < b.len() && !(cell_datum(datatype.kind, #[trigger] b[i]) is Some);
        assert(both[a.len() + i] == b[i]);
    } else {
        assert forall|i: int| 0 <= i < both.len() implies cell_datum(
            datatype.kind,
            #[trigger] both[i],
        ) is Some by {
            if i < a.len() {
                assert(both[i] == a[i]);
            } else {
                assert(both[i] == b[i - a.len()]);
            }
        }
        assert(decode_values(datatype, both)->0 =~= decode_values(datatype, a)->0 + decode_values(
            datatype,
            b,
        )->0);
    }
}

/// Reading one block more adds the values of that block.
pub proof fn lemma_column_values_step(
    datatype: DataType,
    index: Seq<BlockIndex>,
    data: Seq<u8>,
    k: int,
)
    requires
        0 <= k < index.len(),
    ensures
        column_values(datatype, index.take(k + 1), data) == match (
            column_values(datatype, index.take(k), data),
            entry_values(datatype, index[k], data),
        ) {
            (Some(a), Some(b)) => Some(a + b),
            _ => None,
        },
{
    let upto = index.take(k + 1);
    assert(upto.drop_last() =~= index.take(k));
    assert(upto.last() == index[k]);
    match (decode_column(datatype, index.take(k), data), decode_entry(datatype, index[k], data)) {
        (Some(front), Some(block)) => {
            lemma_decode_values_concat(datatype, front, block);
        },
        _ => {},
    }
}

/// Where the first blocks of a column cannot be read, the column cannot.
pub proof fn lemma_column_values_take(
    datatype: DataType,
    index: Seq<BlockIndex>,
    data: Seq<u8>,
    k: int,
)
    requires
        0 <= k <= index.len(),
        column_values(datatype, index.take(k), data) is None,
    ensures
        column_values(datatype, index, data) is None,
    decreases index.len() - k,
{
    if k == index.len() {
        assert(index.take(k) =~= index);
    } else {
        lemma_column_values_step(datatype, index, data, k);
        lemma_column_values_take(datatype, index, data, k + 1);
    }
}

/// Round trip: reading the two files that the encoder writes for the
/// values of a column gives back the values, nulls included, in row order.
pub proof fn lemma_read_roundtrip(
    datatype: DataType,
    options: ColumnBuilderOptions,
    values: Seq<Datum>,
)
    requires
        forall|i: int| 0 <= i < values.len() ==> (#[trigger] values[i]).fits(datatype.kind),
        cells_ok(datatype.kind, datatype.nullable, cells_of(values)),
        column_data(datatype, options, cells_of(values)).len() <= u64::MAX,
    ensures
        read_column_spec(
            datatype,
            options.checksum_type,
            index_file(options.checksum_type, column_index(datatype, options, cells_of(values))),
            column_data(datatype, options, cells_of(values)),
        ) == Ok::<Seq<Datum>, StorageError>(values),
{
    let cells = cells_of(values);
    let index = column_index(datatype, options, cells);
    lemma_column_roundtrip(datatype, options, cells);
    lemma_values_roundtrip(datatype, values);
    lemma_index_len(datatype, options, cells);
    lemma_index_file_roundtrip(options.checksum_type, index);
}

/// Whether the two files that the encoder writes for `cells` are sound:
/// the index file is read back as the index with its checksum algorithm,
/// every block passes its check, the blocks decode to the cells, in order,
/// and the index accounts for every row.
pub open spec fn column_files_sound(
    datatype: DataType,
    options: ColumnBuilderOptions,
    cells: Seq<Cell>,
) -> bool {
    let index = column_index(datatype, options, cells);
    let data = column_data(datatype, options, cells);
    &&& parse_index_file(index_file(options.checksum_type, index)) == Some(
        (options.checksum_type, index),
    )
    &&& column_intact(options.checksum_type, index, data)
    &&& decode_column(datatype, index, data) == Some(cells)
    &&& total_rows(index) == cells.len()
}

/// The files of a column of admissible cells are sound, as long as the
/// data file has no more bytes than 64 bits count.
pub proof fn lemma_column_files_sound(
    datatype: DataType,
    options: ColumnBuilderOptions,
    cells: Seq<Cell>,
)
    requires
        cells_ok(datatype.kind, datatype.nullable, cells),
        column_data(datatype, options, cells).len() <= u64::MAX,
    ensures
        column_files_sound(datatype, options, cells),
{
    lemma_column_roundtrip(datatype, options, cells);
    lemma_column_row_count(datatype, options, cells);
    lemma_index_len(datatype, options, cells);
    lemma_index_file_roundtrip(options.checksum_type, column_index(datatype, options, cells));
}

/// The index of a column has no more entries than the data file has bytes.
proof fn lemma_index_len(datatype: DataType, options: ColumnBuilderOptions, cells: Seq<Cell>)
    requires
        cells_ok(datatype.kind, datatype.nullable, cells),
        column_data(datatype, options, cells).len() <= u64::MAX,
    ensures
        column_index(datatype, options, cells).len() <= u64::MAX,
{
    let index = column_index(datatype, options, cells);
    let data = column_data(datatype, options, cells);
    let size = options.spec_block_size();
    let blocks = final_blocks(datatype, size, cells);
    lemma_final_blocks(datatype, size, cells);
    if index.len() > 0 {
        let last = index.len() - 1;
        lemma_entry(datatype, options.checksum_type, blocks, last);
        lemma_blocks_count(datatype, blocks, last);
    }
}

/// Before block `k` lie at least `k` bytes.
proof fn lemma_blocks_count(datatype: DataType, blocks: Seq<Seq<Cell>>, k: int)
    requires
        blocks_shaped(datatype, blocks),
        0 <= k < blocks.len(),
    ensures
        k <= blocks_data(datatype, blocks.take(k)).len(),
    decreases k,
{
    if k > 0 {
        lemma_blocks_count(datatype, blocks, k - 1);
        lemma_blocks_data_block(datatype, blocks, k - 1);
        lemma_block_len(datatype, blocks[k - 1]);
    }
}

/// The algorithm and the entries of an index file; `None` for bytes that
/// are not an index file.
pub fn parse_index(bytes: &[u8]) -> (result: Option<(ChecksumType, Vec<BlockIndex>)>)
    ensures
        match result {
            Some((checksum, index)) => parse_index_file(bytes@) == Some((checksum, index@)),
            None => parse_index_file(bytes@) is None,
        },
{
    let len: usize = bytes.len();
    if len < INDEX_HEADER_LEN || bytes[0] != INDEX_FORMAT_VERSION {
        return None;
    }
    let checksum = match ChecksumType::from_id(bytes[1]) {
        Some(checksum) => checksum,
        None => {
            return None;
        },
    };
    let count: u64 = read_le(bytes, 2, 8);
    let body: usize = len - INDEX_HEADER_LEN;
    if body % INDEX_ENTRY_LEN != 0 || (body / INDEX_ENTRY_LEN) as u64 != count {
        return None;
    }
    let n: usize = body / INDEX_ENTRY_LEN;
    let mut index: Vec<BlockIndex> = Vec::with_capacity(n);
    let mut i: usize = 0;
    while i < n
        invariant
            i <= n,
            len == bytes@.len(),
            len == INDEX_HEADER_LEN + INDEX_ENTRY_LEN * n,
            index@ == Seq::new(
                i as nat,
                |j: int| entry_at(bytes@, INDEX_HEADER_LEN + INDEX_ENTRY_LEN * j),
            ),
        decreases n - i,
    {
        let at: usize = INDEX_HEADER_LEN + INDEX_ENTRY_LEN * i;
        proof {
            lemma_radix_limits();
            lemma_le_value_bound(bytes@.subrange(at as int, at + 8));
            lemma_le_value_bound(bytes@.subrange(at + 8, at + 12));
            lemma_le_value_bound(bytes@.subrange(at + 12, at + 16));
            lemma_le_value_bound(bytes@.subrange(at + 16, at + 24));
        }
        let entry = BlockIndex {
            offset: read_le(bytes, at, 8),
            length: read_le(bytes, at + 8, 4) as u32,
            row_count: read_le(bytes, at + 12, 4) as u32,
            checksum: read_le(bytes, at + 16, 8),
        };
        index.push(entry);
        assert(index@ =~= Seq::new(
            (i + 1) as nat,
            |j: int| entry_at(bytes@, INDEX_HEADER_LEN + INDEX_ENTRY_LEN * j),
        ));
        i += 1;
    }
    Some((checksum, index))
}

/// Whether the block of an entry lies inside the data file and has the
/// checksum that the entry records.
pub fn verify_block(checksum: ChecksumType, entry: &BlockIndex, data: &[u8]) -> (intact: bool)
    ensures
        intact == block_intact(checksum, *entry, data@),
{
    let len: usize = data.len();
    if entry.offset > len as u64 || entry.length as u64 > len as u64 - entry.offset {
        return false;
    }
    let start: usize = entry.offset as usize;
    let end: usize = start + entry.length as usize;
    checksum.checksum_range(data, start, end) == entry.checksum
}

fn word_i32(word: u64) -> (v: i32)
    requires
        word < 0x1_0000_0000,
    ensures
        v == bits_i32(word as nat),
{
    if word < 0x8000_0000 {
        word as i32
    } else {
        (word as i64 - 0x1_0000_0000) as i32
    }
}

fn word_i64(word: u64) -> (v: i64)
    ensures
        v == bits_i64(word as nat),
{
    if word < 0x8000_0000_0000_0000 {
        word as i64
    } else {
        (word as i128 - 0x1_0000_0000_0000_0000) as i64
    }
}

/// Appends the value that a slot holds to an array of a fixed-width type.
fn push_word(out: &mut ArrayImpl, word: Option<u64>) -> (ok: bool)
    requires
        old(out).spec_kind() == DataTypeKind::Int ==> (word matches Some(x) ==> x < 0x1_0000_0000),
    ensures
        final(out).spec_kind() == old(out).spec_kind(),
        match word_datum(old(out).spec_kind(), word) {
            Some(d) => ok && final(out)@ == old(out)@.push(d),
            None => !ok,
        },
{
    match out {
        ArrayImpl::Bool(values) => {
            let value: Option<bool> = match word {
                None => None,
                Some(x) => {
                    if x > 1 {
                        return false;
                    }
                    Some(x == 1)
                },
            };
            let ghost before = values@;
            values.push(value);
            assert(Seq::new(values@.len(), |i: int| bool_datum(values@[i])) =~= Seq::new(
                before.len(),
                |i: int| bool_datum(before[i]),
            ).push(bool_datum(value)));
            true
        },
        ArrayImpl::Int32(values) => {
            let value: Option<i32> = match word {
                None => None,
                Some(x) => Some(word_i32(x)),
            };
            let ghost before = values@;
            values.push(value);
            assert(Seq::new(values@.len(), |i: int| int32_datum(values@[i])) =~= Seq::new(
                before.len(),
                |i: int| int32_datum(before[i]),
            ).push(int32_datum(value)));
            true
        },
        ArrayImpl::Int64(values) => {
            let value: Option<i64> = match word {
                None => None,
                Some(x) => Some(word_i64(x)),
            };
            let ghost before = values@;
            values.push(value);
            assert(Seq::new(values@.len(), |i: int| int64_datum(values@[i])) =~= Seq::new(
                before.len(),
                |i: int| int64_datum(before[i]),
            ).push(int64_datum(value)));
            true
        },
        ArrayImpl::Float64(values) => {
            let ghost before = values@;
            values.push(word);
            assert(Seq::new(values@.len(), |i: int| float64_datum(values@[i])) =~= Seq::new(
                before.len(),
                |i: int| float64_datum(before[i]),
            ).push(float64_datum(word)));
            true
        },
        ArrayImpl::Blob(values) => {
            match word {
                None => {
                    let ghost before = values@;
                    values.push(None);
                    assert(Seq::new(values@.len(), |i: int| blob_datum(values@[i])) =~= Seq::new(
                        before.len(),
                        |i: int| blob_datum(before[i]),
                    ).push(Datum::Null));
                    true
                },
                Some(_) => false,
            }
        },
    }
}

/// Appends a byte string to an array of byte strings.
fn push_bytes_value(out: &mut ArrayImpl, value: Vec<u8>) -> (ok: bool)
    requires
        old(out).spec_kind() == DataTypeKind::Blob,
    ensures
        final(out).spec_kind() == old(out).spec_kind(),
        ok,
        final(out)@ == old(out)@.push(Datum::Blob(value@)),
{
    match out {
        ArrayImpl::Blob(values) => {
            let ghost before = values@;
            let ghost bytes = value@;
            values.push(Some(value));
            assert(Seq::new(values@.len(), |i: int| blob_datum(values@[i])) =~= Seq::new(
                before.len(),
                |i: int| blob_datum(before[i]),
            ).push(Datum::Blob(bytes)));
            true
        },
        _ => true,
    }
}

fn copy_range(data: &[u8], start: usize, end: usize) -> (bytes: Vec<u8>)
    requires
        start <= end <= data@.len(),
    ensures
        bytes@ == data@.subrange(start as int, end as int),
{
    let len: usize = data.len();
    let mut bytes: Vec<u8> = Vec::with_capacity(end - start);
    let mut i: usize = start;
    while i < end
        invariant
            start <= i <= end <= data@.len() == len,
            bytes@ == data@.subrange(start as int, i as int),
        decreases end - i,
    {
        bytes.push(data[i]);
        assert(bytes@ =~= data@.subrange(start as int, i + 1));
        i += 1;
    }
    bytes
}

proof fn lemma_slot(i: int, rows: int, w: int)
    requires
        0 <= i < rows,
        w > 0,
    ensures
        i * w >= 0,
        (i + 1) * w == i * w + w,
        (i + 1) * w <= rows * w,
{
    assert(i * w >= 0) by (nonlinear_arith)
        requires
            i >= 0,
            w > 0,
    ;
    assert((i + 1) * w == i * w + w) by (nonlinear_arith);
    assert((i + 1) * w <= rows * w) by (nonlinear_arith)
        requires
            i + 1 <= rows,
            w > 0,
    ;
}

/// A slot of the width of a type holds the value that its number stands for.
proof fn lemma_word_datum(kind: DataTypeKind, bytes: Seq<u8>)
    requires
        kind.spec_fixed_width() == Some(bytes.len()),
    ensures
        le_value(bytes) <= u64::MAX,
        kind == DataTypeKind::Int ==> le_value(bytes) < 0x1_0000_0000,
        cell_datum(kind, Some(bytes)) == word_datum(kind, Some(le_value(bytes) as u64)),
{
    lemma_radix_limits();
    lemma_le_value_bound(bytes);
    if kind == DataTypeKind::Boolean {
        reveal_with_fuel(le_value, 2);
        assert(le_value(bytes) == bytes[0]);
    }
}

/// Where slot `i` of a block of a fixed-width column starts: behind the
/// bitmap of `nulls` bytes and `i` slots of `w` bytes.
#[verifier::opaque]
spec fn slot_start(nulls: int, i: int, w: int) -> int {
    nulls + i * w
}

/// The layout of a block of a fixed-width column is sound exactly when the
/// block has the bytes of its bitmap and of one slot per row.
proof fn lemma_fixed_layout(
    kind: DataTypeKind,
    nullable: bool,
    rows: nat,
    bytes: Seq<u8>,
    w: nat,
)
    requires
        kind.spec_fixed_width() == Some(w),
        w > 0,
    ensures
        slot_start(null_section_len(nullable, rows) as int, rows as int, w as int)
            == null_section_len(nullable, rows) + rows * w,
        slot_start(null_section_len(nullable, rows) as int, 0, w as int) == null_section_len(
            nullable,
            rows,
        ),
        block_well_formed(kind, nullable, rows, bytes) <==> bytes.len() == slot_start(
            null_section_len(nullable, rows) as int,
            rows as int,
            w as int,
        ),
{
    reveal(slot_start);
    let table = null_section_len(nullable, rows) as int;
    assert forall|i: int| 0 <= i < rows implies #[trigger] cell_start(kind, bytes, table, i)
        <= cell_start(kind, bytes, table, i + 1) by {
        lemma_slot(i, rows as int, w as int);
    }
    assert(rows * w >= 0) by (nonlinear_arith)
        requires
            rows >= 0,
            w > 0,
    ;
    assert(cell_start(kind, bytes, table, rows as int) == rows * w);
}

/// Row `i` of a block of a fixed-width column: a null where the bitmap
/// says so, else the bytes of slot `i`.
proof fn lemma_fixed_cell(
    kind: DataTypeKind,
    nullable: bool,
    rows: nat,
    bytes: Seq<u8>,
    w: nat,
    i: int,
)
    requires
        kind.spec_fixed_width() == Some(w),
        w > 0,
        bytes.len() == slot_start(null_section_len(nullable, rows) as int, rows as int, w as int),
        0 <= i < rows,
    ensures
        ({
            let nulls = null_section_len(nullable, rows) as int;
            let at = slot_start(nulls, i, w as int);
            &&& nulls <= at
            &&& slot_start(nulls, i + 1, w as int) == at + w
            &&& at + w <= bytes.len()
            &&& nullable ==> i / 8 < nulls
            &&& block_cells(kind, nullable, rows, bytes)[i] == (if nullable && !bitmap_get(
                bytes,
                i,
            ) {
                None::<Seq<u8>>
            } else {
                Some(bytes.subrange(at, at + w))
            })
        }),
{
    reveal(slot_start);
    lemma_slot(i, rows as int, w as int);
    let table = null_section_len(nullable, rows) as int;
    assert(cell_start(kind, bytes, table, i) == i * w);
    assert(cell_start(kind, bytes, table, i + 1) == (i + 1) * w);
}

/// What a row of a block of a fixed-width column decodes to, in terms of
/// the data file that the block lies in.
proof fn lemma_fixed_row(
    kind: DataTypeKind,
    nullable: bool,
    rows: nat,
    data: Seq<u8>,
    start: int,
    end: int,
    w: nat,
    i: int,
    valid: bool,
    word: Option<u64>,
)
    requires
        kind.spec_fixed_width() == Some(w),
        w > 0,
        0 <= start <= end <= data.len(),
        end - start == slot_start(null_section_len(nullable, rows) as int, rows as int, w as int),
        0 <= i < rows,
        valid == (!nullable || test_bit(data[start + i / 8], i % 8)),
        word == (if valid {
            Some(
                le_value(
                    data.subrange(
                        start + slot_start(null_section_len(nullable, rows) as int, i, w as int),
                        start + slot_start(null_section_len(nullable, rows) as int, i, w as int)
                            + w,
                    ),
                ) as u64,
            )
        } else {
            None::<u64>
        }),
    ensures
        cell_datum(kind, block_cells(kind, nullable, rows, data.subrange(start, end))[i])
            == word_datum(kind, word),
        kind == DataTypeKind::Int ==> (word matches Some(x) ==> x < 0x1_0000_0000),
{
    let bytes = data.subrange(start, end);
    let nulls = null_section_len(nullable, rows) as int;
    let at = slot_start(nulls, i, w as int);
    lemma_fixed_cell(kind, nullable, rows, bytes, w, i);
    if nullable {
        assert(bytes[i / 8] == data[start + i / 8]);
    }
    if valid {
        let slot = data.subrange(start + at, start + at + w);
        assert(bytes.subrange(at, at + w) =~= slot);
        lemma_word_datum(kind, slot);
    }
}

/// The values of a block whose rows all decode.
proof fn lemma_block_values(datatype: DataType, rows: nat, bytes: Seq<u8>, values: Seq<Datum>)
    requires
        block_well_formed(datatype.kind, datatype.nullable, rows, bytes),
        values.len() == rows,
        forall|j: int|
            0 <= j < rows ==> cell_datum(
                datatype.kind,
                #[trigger] block_cells(datatype.kind, datatype.nullable, rows, bytes)[j],
            ) == Some(values[j]),
    ensures
        block_values(datatype, rows, bytes) == Some(values),
{
    let cells = block_cells(datatype.kind, datatype.nullable, rows, bytes);
    assert forall|j: int| 0 <= j < cells.len() implies cell_datum(
        datatype.kind,
        #[trigger] cells[j],
    ) is Some by {}
    assert(decode_values(datatype, cells)->0 =~= values);
}

/// A block with a row that does not decode has no values.
proof fn lemma_block_values_none(datatype: DataType, rows: nat, bytes: Seq<u8>, i: int)
    requires
        0 <= i < rows,
        cell_datum(
            datatype.kind,
            block_cells(datatype.kind, datatype.nullable, rows, bytes)[i],
        ) is None,
    ensures
        block_values(datatype, rows, bytes) is None,
{
    let cells = block_cells(datatype.kind, datatype.nullable, rows, bytes);
    assert(!(cell_datum(datatype.kind, cells[i]) is Some));
}

/// Decodes a block of a fixed-width column and appends its values.
fn decode_fixed(
    datatype: &DataType,
    width: usize,
    rows: usize,
    data: &[u8],
    start: usize,
    end: usize,
    out: &mut ArrayImpl,
) -> (ok: bool)
    requires
        start <= end <= data@.len(),
        rows <= u32::MAX,
        0 < width <= 8,
        datatype.kind.spec_fixed_width() == Some(width as nat),
        old(out).spec_kind() == datatype.kind,
    ensures
        final(out).spec_kind() == datatype.kind,
        match block_values(*datatype, rows as nat, data@.subrange(start as int, end as int)) {
            Some(values) => ok && final(out)@ == old(out)@ + values,
            None => !ok,
        },
{
    let ghost bytes = data@.subrange(start as int, end as int);
    let total: usize = data.len();
    let len: usize = end - start;
    let nulls: usize = if datatype.nullable {
        bitmap_bytes(rows)
    } else {
        0
    };
    assert(rows * width <= 0x8_0000_0000) by (nonlinear_arith)
        requires
            rows <= 0xFFFF_FFFF,
            0 < width <= 8,
    ;
    let body: u64 = (rows as u64) * (width as u64);
    proof {
        lemma_fixed_layout(datatype.kind, datatype.nullable, rows as nat, bytes, width as nat);
    }
    if len as u64 != nulls as u64 + body {
        return false;
    }
    let ghost acc: Seq<Datum> = Seq::empty();
    let mut pos: usize = nulls;
    let mut i: usize = 0;
    while i < rows
        invariant
            i <= rows,
            0 < width <= 8,
            start <= end <= data@.len() == total,
            bytes == data@.subrange(start as int, end as int),
            datatype.kind.spec_fixed_width() == Some(width as nat),
            nulls == null_section_len(datatype.nullable, rows as nat),
            end - start == slot_start(nulls as int, rows as int, width as int),
            pos == slot_start(nulls as int, i as int, width as int),
            out.spec_kind() == datatype.kind,
            acc.len() == i,
            out@ == old(out)@ + acc,
            forall|j: int|
                0 <= j < i ==> cell_datum(
                    datatype.kind,
                    #[trigger] block_cells(
                        datatype.kind,
                        datatype.nullable,
                        rows as nat,
                        bytes,
                    )[j],
                ) == Some(acc[j]),
        decreases rows - i,
    {
        proof {
            lemma_fixed_cell(
                datatype.kind,
                datatype.nullable,
                rows as nat,
                bytes,
                width as nat,
                i as int,
            );
        }
        let valid: bool = !datatype.nullable || read_bit(data, start, i);
        let word: Option<u64> = if valid {
            Some(read_le(data, start + pos, width))
        } else {
            None
        };
        proof {
            lemma_fixed_row(
                datatype.kind,
                datatype.nullable,
                rows as nat,
                data@,
                start as int,
                end as int,
                width as nat,
                i as int,
                valid,
                word,
            );
        }
        if !push_word(out, word) {
            proof {
                lemma_block_values_none(*datatype, rows as nat, bytes, i as int);
            }
            return false;
        }
        proof {
            let d = word_datum(datatype.kind, word)->0;
            assert(out@ =~= old(out)@ + acc.push(d));
            acc = acc.push(d);
        }
        pos = pos + width;
        i += 1;
    }
    proof {
        lemma_fixed_layout(datatype.kind, datatype.nullable, rows as nat, bytes, width as nat);
        lemma_block_values(*datatype, rows as nat, bytes, acc);
    }
    true
}

/// In a block with a sound layout no value ends beyond the value area.
proof fn lemma_starts_bounded(
    kind: DataTypeKind,
    nullable: bool,
    rows: nat,
    bytes: Seq<u8>,
    i: int,
)
    requires
        block_well_formed(kind, nullable, rows, bytes),
        0 <= i <= rows,
    ensures
        cell_start(kind, bytes, null_section_len(nullable, rows) as int, i) <= bytes.len()
            - header_len(kind, nullable, rows),
    decreases rows - i,
{
    if i < rows {
        lemma_starts_bounded(kind, nullable, rows, bytes, i + 1);
    }
}

/// Whether the first `upto` values of a block lie one after the other.
spec fn starts_sorted(kind: DataTypeKind, bytes: Seq<u8>, table: int, upto: int) -> bool {
    forall|j: int|
        0 <= j < upto ==> #[trigger] cell_start(kind, bytes, table, j) <= cell_start(
            kind,
            bytes,
            table,
            j + 1,
        )
}

/// What the offset of row `i` of a block of a variable-length column says
/// of the block, in terms of the data file that the block lies in.
proof fn lemma_variable_row(
    nullable: bool,
    rows: nat,
    data: Seq<u8>,
    start: int,
    end: int,
    i: int,
    prev: int,
    stop: int,
    valid: bool,
)
    requires
        0 <= start <= end <= data.len(),
        end - start >= header_len(DataTypeKind::Blob, nullable, rows),
        0 <= i < rows,
        starts_sorted(
            DataTypeKind::Blob,
            data.subrange(start, end),
            null_section_len(nullable, rows) as int,
            i,
        ),
        prev == cell_start(
            DataTypeKind::Blob,
            data.subrange(start, end),
            null_section_len(nullable, rows) as int,
            i,
        ),
        stop == le_value(
            data.subrange(
                start + null_section_len(nullable, rows) + 4 * i,
                start + null_section_len(nullable, rows) + 4 * i + 4,
            ),
        ),
        valid == (!nullable || test_bit(data[start + i / 8], i % 8)),
    ensures
        ({
            let kind = DataTypeKind::Blob;
            let bytes = data.subrange(start, end);
            let table = null_section_len(nullable, rows) as int;
            let base = header_len(kind, nullable, rows) as int;
            let room = bytes.len() - base;
            &&& stop == cell_start(kind, bytes, table, i + 1)
            &&& (stop < prev || stop > room) ==> !block_well_formed(kind, nullable, rows, bytes)
            &&& prev <= stop <= room ==> {
                &&& starts_sorted(kind, bytes, table, i + 1)
                &&& block_cells(kind, nullable, rows, bytes)[i] == (if valid {
                    Some(data.subrange(start + base + prev, start + base + stop))
                } else {
                    None::<Seq<u8>>
                })
            }
        }),
{
    let kind = DataTypeKind::Blob;
    let bytes = data.subrange(start, end);
    let table = null_section_len(nullable, rows) as int;
    let base = header_len(kind, nullable, rows) as int;
    let room = bytes.len() - base;
    assert(bytes.subrange(table + 4 * i, table + 4 * i + 4) =~= data.subrange(
        start + table + 4 * i,
        start + table + 4 * i + 4,
    ));
    assert(stop == end_offset(bytes, table, i));
    if stop < prev || stop > room {
        if block_well_formed(kind, nullable, rows, bytes) {
            lemma_starts_bounded(kind, nullable, rows, bytes, i + 1);
            assert(cell_start(kind, bytes, table, i) <= cell_start(kind, bytes, table, i + 1));
        }
    } else {
        if nullable {
            assert(bytes[i / 8] == data[start + i / 8]);
        }
        assert(bytes.subrange(base + prev, base + stop) =~= data.subrange(
            start + base + prev,
            start + base + stop,
        ));
    }
}

/// Decodes a block of a variable-length column and appends its values.
fn decode_variable(
    datatype: &DataType,
    rows: usize,
    data: &[u8],
    start: usize,
    end: usize,
    out: &mut ArrayImpl,
) -> (ok: bool)
    requires
        start <= end <= data@.len(),
        rows <= u32::MAX,
        datatype.kind == DataTypeKind::Blob,
        old(out).spec_kind() == datatype.kind,
    ensures
        final(out).spec_kind() == datatype.kind,
        match block_values(*datatype, rows as nat, data@.subrange(start as int, end as int)) {
            Some(values) => ok && final(out)@ == old(out)@ + values,
            None => !ok,
        },
{
    let ghost bytes = data@.subrange(start as int, end as int);
    let total: usize = data.len();
    let len: usize = end - start;
    let nulls: usize = if datatype.nullable {
        bitmap_bytes(rows)
    } else {
        0
    };
    let base: u64 = nulls as u64 + 4 * (rows as u64);
    if (len as u64) < base {
        return false;
    }
    let base: usize = base as usize;
    let room: usize = len - base;
    let ghost acc: Seq<Datum> = Seq::empty();
    let mut prev: usize = 0;
    let mut i: usize = 0;
    while i < rows
        invariant
            i <= rows,
            start <= end <= data@.len() == total,
            bytes == data@.subrange(start as int, end as int),
            datatype.kind == DataTypeKind::Blob,
            nulls == null_section_len(datatype.nullable, rows as nat),
            base == header_len(DataTypeKind::Blob, datatype.nullable, rows as nat),
            base == nulls + 4 * rows,
            base + room == end - start,
            prev <= room,
            prev == cell_start(DataTypeKind::Blob, bytes, nulls as int, i as int),
            starts_sorted(DataTypeKind::Blob, bytes, nulls as int, i as int),
            out.spec_kind() == datatype.kind,
            acc.len() == i,
            out@ == old(out)@ + acc,
            forall|j: int|
                0 <= j < i ==> cell_datum(
                    datatype.kind,
                    #[trigger] block_cells(
                        datatype.kind,
                        datatype.nullable,
                        rows as nat,
                        bytes,
                    )[j],
                ) == Some(acc[j]),
        decreases rows - i,
    {
        let stop: u64 = read_le(data, start + nulls + 4 * i, 4);
        let valid: bool = !datatype.nullable || read_bit(data, start, i);
        proof {
            lemma_variable_row(
                datatype.nullable,
                rows as nat,
                data@,
                start as int,
                end as int,
                i as int,
                prev as int,
                stop as int,
                valid,
            );
        }
        if stop < prev as u64 || stop > room as u64 {
            return false;
        }
        let stop: usize = stop as usize;
        if valid {
            let value = copy_range(data, start + base + prev, start + base + stop);
            proof {
                assert(out@ =~= old(out)@ + acc);
                acc = acc.push(Datum::Blob(value@));
            }
            push_bytes_value(out, value);
        } else {
            proof {
                acc = acc.push(Datum::Null);
            }
            push_word(out, None);
        }
        assert(out@ =~= old(out)@ + acc);
        prev = stop;
        i += 1;
    }
    if prev != room {
        return false;
    }
    proof {
        assert(block_well_formed(DataTypeKind::Blob, datatype.nullable, rows as nat, bytes));
        lemma_block_values(*datatype, rows as nat, bytes, acc);
    }
    true
}

/// Reading the block of entry `k` after the blocks before it: the values
/// of the block follow the values read so far, and where the block has no
/// values, the column has none.
proof fn lemma_read_step(
    datatype: DataType,
    index: Seq<BlockIndex>,
    data: Seq<u8>,
    k: int,
    before: Seq<Datum>,
)
    requires
        0 <= k < index.len(),
        block_in_bounds(index[k], data),
        column_values(datatype, index.take(k), data) == Some(before),
    ensures
        match block_values(datatype, index[k].row_count as nat, block_slice(index[k], data)) {
            Some(values) => column_values(datatype, index.take(k + 1), data) == Some(
                before + values,
            ),
            None => column_values(datatype, index, data) is None,
        },
{
    lemma_column_values_step(datatype, index, data, k);
    if block_values(datatype, index[k].row_count as nat, block_slice(index[k], data)) is None {
        lemma_column_values_take(datatype, index, data, k + 1);
    }
}

/// Checks and decodes the blocks of a column in the order of the index.
/// Values come out where every block passes its check and decodes.
pub fn read_blocks(
    datatype: &DataType,
    checksum: ChecksumType,
    index: &Vec<BlockIndex>,
    data: &[u8],
) -> (result: Option<ArrayImpl>)
    ensures
        match result {
            Some(array) => {
                &&& array.spec_kind() == datatype.kind
                &&& column_intact(checksum, index@, data@)
                &&& column_values(*datatype, index@, data@) == Some(array@)
            },
            None => !column_intact(checksum, index@, data@) || column_values(
                *datatype,
                index@,
                data@,
            ) is None,
        },
{
    let total: usize = data.len();
    let mut out = ArrayImpl::new_empty(datatype.kind());
    let mut k: usize = 0;
    assert(index@.take(0) =~= Seq::<BlockIndex>::empty());
    assert(decode_values(*datatype, Seq::<Cell>::empty())->0 =~= Seq::<Datum>::empty());
    while k < index.len()
        invariant
            k <= index@.len(),
            total == data@.len(),
            out.spec_kind() == datatype.kind,
            forall|j: int| 0 <= j < k ==> block_intact(checksum, #[trigger] index@[j], data@),
            column_values(*datatype, index@.take(k as int), data@) == Some(out@),
        decreases index@.len() - k,
    {
        let entry = index[k];
        if !verify_block(checksum, &entry, data) {
            return None;
        }
        assert(block_in_bounds(entry, data@));
        let start: usize = entry.offset as usize;
        let end: usize = start + entry.length as usize;
        proof {
            lemma_read_step(*datatype, index@, data@, k as int, out@);
        }
        let decoded = match datatype.kind.fixed_width() {
            Some(width) => decode_fixed(
                datatype,
                width,
                entry.row_count as usize,
                data,
                start,
                end,
                &mut out,
            ),
            None => decode_variable(datatype, entry.row_count as usize, data, start, end, &mut out),
        };
        if !decoded {
            return None;
        }
        k += 1;
    }
    assert(index@.take(index@.len() as int) =~= index@);
    Some(out)
}

/// Reads a column from the bytes of its index file and of its data file.
/// See [`read_column_spec`] for what comes out.
pub fn read_column(
    datatype: &DataType,
    expected: ChecksumType,
    index_bytes: &[u8],
    data: &[u8],
) -> (result: Result<ArrayImpl, StorageError>)
    ensures
        match result {
            Ok(array) => array.spec_kind() == datatype.kind && read_column_spec(
                *datatype,
                expected,
                index_bytes@,
                data@,
            ) == Ok::<Seq<Datum>, StorageError>(array@),
            Err(e) => read_column_spec(*datatype, expected, index_bytes@, data@) == Err::<
                Seq<Datum>,
                StorageError,
            >(e),
        },
{
    let (checksum, index) = match parse_index(index_bytes) {
        Some(parsed) => parsed,
        None => {
            return Err(StorageError::Corrupted);
        },
    };
    if checksum.id() != expected.id() {
        return Err(StorageError::ChecksumAlgorithmMismatch);
    }
    match read_blocks(datatype, checksum, &index, data) {
        Some(array) => Ok(array),
        None => Err(StorageError::Corrupted),
    }
}

} // verus!
