//! What the two files of a column mean to a reader, and what holds of the
//! files that the column encoder produces.

use crate::array::Datum;
use crate::block::{cell_datum, cell_ok, cells_of, cells_ok, decode_block,
    encode_block, lemma_block_roundtrip, lemma_datum_roundtrip, lemma_encode_block_sections,
    lemma_payload_len_fixed, payload, Cell};
use crate::checksum::{checksum_of, lemma_checksum_detects_byte_change, ChecksumType};
use crate::column_builder::{block_full, block_shape, blocking, blocks_data, blocks_index,
    column_data, column_index, final_blocks, lemma_blocking_step, pending_ok, with_room,
    ColumnBuilderOptions};
use crate::index_builder::{offsets_increase, BlockIndex};
use crate::types::DataType;
use vstd::prelude::*;

verus! {

/// Whether the block of an entry lies inside the data file.
pub open spec fn block_in_bounds(entry: BlockIndex, data: Seq<u8>) -> bool {
    entry.offset + entry.length <= data.len()
}

/// The bytes of the block of an entry.
pub open spec fn block_slice(entry: BlockIndex, data: Seq<u8>) -> Seq<u8> {
    data.subrange(entry.offset as int, entry.offset + entry.length)
}

/// Whether the block of an entry lies inside the data file and has the
/// checksum that the entry records.
pub open spec fn block_intact(checksum: ChecksumType, entry: BlockIndex, data: Seq<u8>) -> bool {
    block_in_bounds(entry, data) && checksum_of(checksum, block_slice(entry, data))
        == entry.checksum
}

/// Whether every block of the index passes its check.
pub open spec fn column_intact(checksum: ChecksumType, index: Seq<BlockIndex>, data: Seq<u8>) -> bool {
    forall|k: int| 0 <= k < index.len() ==> block_intact(checksum, #[trigger] index[k], data)
}

/// The cells of the block of an entry; `None` where the block does not lie
/// inside the data file or has not the layout of a block.
pub open spec fn decode_entry(datatype: DataType, entry: BlockIndex, data: Seq<u8>) -> Option<
    Seq<Cell>,
> {
    if block_in_bounds(entry, data) {
        decode_block(
            datatype.kind,
            datatype.nullable,
            entry.row_count as nat,
            block_slice(entry, data),
        )
    } else {
        None
    }
}

/// The cells of a column, block after block in the order of the index;
/// `None` where a block cannot be decoded.
pub open spec fn decode_column(datatype: DataType, index: Seq<BlockIndex>, data: Seq<u8>) -> Option<
    Seq<Cell>,
>
    decreases index.len(),
{
    if index.len() == 0 {
        Some(Seq::empty())
    } else {
        match (
            decode_column(datatype, index.drop_last(), data),
            decode_entry(datatype, index.last(), data),
        ) {
            (Some(front), Some(block)) => Some(front + block),
            _ => None,
        }
    }
}

/// The values that a run of cells encodes; `None` where a cell is not the
/// encoded form of a value of the column's type.
pub open spec fn decode_values(datatype: DataType, cells: Seq<Cell>) -> Option<Seq<Datum>> {
    if forall|i: int| 0 <= i < cells.len() ==> cell_datum(datatype.kind, #[trigger] cells[i]) is Some {
        Some(Seq::new(cells.len(), |i: int| cell_datum(datatype.kind, cells[i])->0))
    } else {
        None
    }
}

/// The number of rows that the index accounts for.
pub open spec fn total_rows(index: Seq<BlockIndex>) -> nat
    decreases index.len(),
{
    if index.len() == 0 {
        0
    } else {
        total_rows(index.drop_last()) + index.last().row_count as nat
    }
}

/// The cells of a run of blocks, in order.
pub open spec fn concat_blocks(blocks: Seq<Seq<Cell>>) -> Seq<Cell>
    decreases blocks.len(),
{
    if blocks.len() == 0 {
        Seq::empty()
    } else {
        concat_blocks(blocks.drop_last()) + blocks.last()
    }
}

/// Whether every block of a run has the shape of a closed block.
pub open spec fn blocks_shaped(datatype: DataType, blocks: Seq<Seq<Cell>>) -> bool {
    forall|k: int| 0 <= k < blocks.len() ==> block_shape(datatype, #[trigger] blocks[k])
}

/// The cut of admissible cells: the closed blocks have the shape of a
/// block, the waiting cells are as waiting cells have to be, and together
/// they are the cells, in order.
pub proof fn lemma_blocking(datatype: DataType, size: nat, cells: Seq<Cell>)
    requires
        cells_ok(datatype.kind, datatype.nullable, cells),
    ensures
        blocks_shaped(datatype, blocking(datatype, size, cells).blocks),
        pending_ok(datatype, blocking(datatype, size, cells).pending),
        concat_blocks(blocking(datatype, size, cells).blocks) + blocking(
            datatype,
            size,
            cells,
        ).pending == cells,
    decreases cells.len(),
{
    let cut = blocking(datatype, size, cells);
    if cells.len() == 0 {
        assert(payload(datatype.kind, cut.pending).len() == 0);
        assert(concat_blocks(cut.blocks) + cut.pending =~= cells);
    } else {
        let front = cells.drop_last();
        let cell = cells.last();
        lemma_blocking(datatype, size, front);
        let before = blocking(datatype, size, front);
        assert(cell_ok(datatype.kind, datatype.nullable, cell)) by {
            assert(cells[cells.len() - 1] == cell);
        }
        lemma_blocking_step(datatype, size, before, cell);
        let made = with_room(datatype, before, cell);
        let blocks = made.blocks;
        let kept = made.pending;
        let grown = kept.push(cell);
        assert(blocks_shaped(datatype, blocks)) by {
            assert forall|k: int| 0 <= k < blocks.len() implies block_shape(
                datatype,
                #[trigger] blocks[k],
            ) by {
                if k < before.blocks.len() {
                    assert(blocks[k] == before.blocks[k]);
                }
            }
        }
        assert(concat_blocks(blocks) + kept =~= front) by {
            if made != before {
                assert(blocks.drop_last() =~= before.blocks);
            }
        }
        assert(front.push(cell) =~= cells);
        if block_full(datatype.kind, size, grown) {
            assert(cut.blocks.drop_last() =~= blocks);
            assert(concat_blocks(cut.blocks) + cut.pending =~= cells);
            assert forall|k: int| 0 <= k < cut.blocks.len() implies block_shape(
                datatype,
                #[trigger] cut.blocks[k],
            ) by {
                if k < blocks.len() {
                    assert(cut.blocks[k] == blocks[k]);
                }
            }
        } else {
            assert(concat_blocks(cut.blocks) + cut.pending =~= cells);
        }
    }
}

/// The blocks of a finished column have the shape of a block, and
/// together they are the cells of the column, in order.
pub proof fn lemma_final_blocks(datatype: DataType, size: nat, cells: Seq<Cell>)
    requires
        cells_ok(datatype.kind, datatype.nullable, cells),
    ensures
        blocks_shaped(datatype, final_blocks(datatype, size, cells)),
        concat_blocks(final_blocks(datatype, size, cells)) == cells,
{
    lemma_blocking(datatype, size, cells);
    let cut = blocking(datatype, size, cells);
    let blocks = final_blocks(datatype, size, cells);
    if cut.pending.len() > 0 {
        assert(blocks.drop_last() =~= cut.blocks);
        assert forall|k: int| 0 <= k < blocks.len() implies block_shape(
            datatype,
            #[trigger] blocks[k],
        ) by {
            if k < cut.blocks.len() {
                assert(blocks[k] == cut.blocks[k]);
            }
        }
    } else {
        assert(concat_blocks(cut.blocks) + cut.pending =~= concat_blocks(cut.blocks));
    }
}

/// An encoded block of the shape of a block has at least one byte and
/// fewer than fit in 32 bits.
pub proof fn lemma_block_len(datatype: DataType, block: Seq<Cell>)
    requires
        block_shape(datatype, block),
    ensures
        0 < encode_block(datatype.kind, datatype.nullable, block).len() < 0x1_0000_0000,
{
    lemma_encode_block_sections(datatype.kind, datatype.nullable, block);
    if datatype.kind.spec_fixed_width() is Some {
        lemma_payload_len_fixed(datatype.kind, datatype.nullable, block, block.len() as int);
        assert(block.take(block.len() as int) =~= block);
        let w = datatype.kind.spec_fixed_width()->0;
        assert(block.len() * w >= 1) by (nonlinear_arith)
            requires
                block.len() >= 1,
                w >= 1,
        ;
    }
}

/// The data of the first `k` blocks is the start of the data of all of
/// them, and block `k` follows it.
pub proof fn lemma_blocks_data_take(datatype: DataType, blocks: Seq<Seq<Cell>>, k: int)
    requires
        0 <= k <= blocks.len(),
    ensures
        blocks_data(datatype, blocks.take(k)).len() <= blocks_data(datatype, blocks).len(),
        blocks_data(datatype, blocks.take(k)) == blocks_data(datatype, blocks).subrange(
            0,
            blocks_data(datatype, blocks.take(k)).len() as int,
        ),
    decreases blocks.len(),
{
    let data = blocks_data(datatype, blocks);
    if k == blocks.len() {
        assert(blocks.take(k) =~= blocks);
        assert(data =~= data.subrange(0, data.len() as int));
    } else {
        let front = blocks.drop_last();
        assert(blocks.take(k) =~= front.take(k));
        lemma_blocks_data_take(datatype, front, k);
        let n = blocks_data(datatype, front.take(k)).len() as int;
        assert(data.subrange(0, n) =~= blocks_data(datatype, front).subrange(0, n));
    }
}

/// Block `k` stands in the data right behind the blocks before it.
pub proof fn lemma_blocks_data_block(datatype: DataType, blocks: Seq<Seq<Cell>>, k: int)
    requires
        0 <= k < blocks.len(),
    ensures
        blocks_data(datatype, blocks.take(k + 1)).len() == blocks_data(
            datatype,
            blocks.take(k),
        ).len() + encode_block(datatype.kind, datatype.nullable, blocks[k]).len(),
        blocks_data(datatype, blocks.take(k + 1)).len() <= blocks_data(datatype, blocks).len(),
        blocks_data(datatype, blocks).subrange(
            blocks_data(datatype, blocks.take(k)).len() as int,
            blocks_data(datatype, blocks.take(k + 1)).len() as int,
        ) == encode_block(datatype.kind, datatype.nullable, blocks[k]),
{
    let upto = blocks.take(k + 1);
    assert(upto.drop_last() =~= blocks.take(k));
    assert(upto.last() == blocks[k]);
    lemma_blocks_data_take(datatype, blocks, k + 1);
    let data = blocks_data(datatype, blocks);
    let a = blocks_data(datatype, blocks.take(k)).len() as int;
    let b = blocks_data(datatype, upto).len() as int;
    assert(data.subrange(a, b) =~= data.subrange(0, b).subrange(a, b));
    assert(blocks_data(datatype, upto).subrange(a, b) =~= encode_block(
        datatype.kind,
        datatype.nullable,
        blocks[k],
    ));
}

/// The data before a block is no longer than the data before a later block.
pub proof fn lemma_blocks_data_monotone(
    datatype: DataType,
    blocks: Seq<Seq<Cell>>,
    i: int,
    j: int,
)
    requires
        blocks_shaped(datatype, blocks),
        0 <= i < j <= blocks.len(),
    ensures
        blocks_data(datatype, blocks.take(i)).len() + encode_block(
            datatype.kind,
            datatype.nullable,
            blocks[i],
        ).len() <= blocks_data(datatype, blocks.take(j)).len(),
    decreases j - i,
{
    lemma_blocks_data_block(datatype, blocks, i);
    if i + 1 < j {
        lemma_blocks_data_monotone(datatype, blocks, i + 1, j);
    }
}

/// Entry `k` of the index of shaped blocks says what block `k` is: where
/// it lies, how long it is, how many rows it has, and its checksum.
pub proof fn lemma_entry(
    datatype: DataType,
    checksum: ChecksumType,
    blocks: Seq<Seq<Cell>>,
    k: int,
)
    requires
        blocks_shaped(datatype, blocks),
        blocks_data(datatype, blocks).len() <= u64::MAX,
        0 <= k < blocks.len(),
    ensures
        ({
            let entry = blocks_index(datatype, checksum, blocks)[k];
            let data = blocks_data(datatype, blocks);
            let bytes = encode_block(datatype.kind, datatype.nullable, blocks[k]);
            &&& entry.offset == blocks_data(datatype, blocks.take(k)).len()
            &&& entry.length == bytes.len()
            &&& entry.length > 0
            &&& entry.row_count == blocks[k].len()
            &&& entry.checksum == checksum_of(checksum, bytes)
            &&& block_in_bounds(entry, data)
            &&& block_slice(entry, data) == bytes
            &&& block_intact(checksum, entry, data)
            &&& decode_entry(datatype, entry, data) == Some(blocks[k])
        }),
{
    assert(block_shape(datatype, blocks[k]));
    lemma_block_len(datatype, blocks[k]);
    lemma_blocks_data_block(datatype, blocks, k);
    lemma_blocks_data_take(datatype, blocks, k);
    lemma_block_roundtrip(datatype.kind, datatype.nullable, blocks[k]);
}

/// The entries of the index of shaped blocks lie one behind the other.
pub proof fn lemma_index_offsets_increase(
    datatype: DataType,
    checksum: ChecksumType,
    blocks: Seq<Seq<Cell>>,
)
    requires
        blocks_shaped(datatype, blocks),
        blocks_data(datatype, blocks).len() <= u64::MAX,
    ensures
        offsets_increase(blocks_index(datatype, checksum, blocks)),
{
    let index = blocks_index(datatype, checksum, blocks);
    assert forall|i: int, j: int| 0 <= i < j < index.len() implies (#[trigger] index[i]).offset < (
    #[trigger] index[j]).offset by {
        lemma_entry(datatype, checksum, blocks, i);
        lemma_entry(datatype, checksum, blocks, j);
        lemma_blocks_data_monotone(datatype, blocks, i, j);
    }
}

/// Reading the first `k` blocks through the index gives their cells, and
/// the index accounts for each of their rows.
pub proof fn lemma_decode_blocks(
    datatype: DataType,
    checksum: ChecksumType,
    blocks: Seq<Seq<Cell>>,
    k: int,
)
    requires
        blocks_shaped(datatype, blocks),
        blocks_data(datatype, blocks).len() <= u64::MAX,
        0 <= k <= blocks.len(),
    ensures
        decode_column(
            datatype,
            blocks_index(datatype, checksum, blocks).take(k),
            blocks_data(datatype, blocks),
        ) == Some(concat_blocks(blocks.take(k))),
        total_rows(blocks_index(datatype, checksum, blocks).take(k)) == concat_blocks(
            blocks.take(k),
        ).len(),
    decreases k,
{
    let index = blocks_index(datatype, checksum, blocks);
    if k == 0 {
        assert(blocks.take(0) =~= Seq::<Seq<Cell>>::empty());
        assert(index.take(0) =~= Seq::<BlockIndex>::empty());
    } else {
        lemma_decode_blocks(datatype, checksum, blocks, k - 1);
        lemma_entry(datatype, checksum, blocks, k - 1);
        assert(index.take(k).drop_last() =~= index.take(k - 1));
        assert(index.take(k).last() == index[k - 1]);
        assert(blocks.take(k).drop_last() =~= blocks.take(k - 1));
        assert(blocks.take(k).last() == blocks[k - 1]);
    }
}

/// Round trip of a column at the level of cells: reading the files that
/// the encoder writes for a run of admissible cells gives back the cells,
/// in order, and every block passes its check.
pub proof fn lemma_column_roundtrip(
    datatype: DataType,
    options: ColumnBuilderOptions,
    cells: Seq<Cell>,
)
    requires
        cells_ok(datatype.kind, datatype.nullable, cells),
        column_data(datatype, options, cells).len() <= u64::MAX,
    ensures
        decode_column(
            datatype,
            column_index(datatype, options, cells),
            column_data(datatype, options, cells),
        ) == Some(cells),
        column_intact(
            options.checksum_type,
            column_index(datatype, options, cells),
            column_data(datatype, options, cells),
        ),
        offsets_increase(column_index(datatype, options, cells)),
{
    let size = options.spec_block_size();
    let blocks = final_blocks(datatype, size, cells);
    let index = column_index(datatype, options, cells);
    lemma_final_blocks(datatype, size, cells);
    lemma_decode_blocks(datatype, options.checksum_type, blocks, blocks.len() as int);
    assert(index.take(blocks.len() as int) =~= index);
    assert(blocks.take(blocks.len() as int) =~= blocks);
    assert forall|k: int| 0 <= k < index.len() implies block_intact(
        options.checksum_type,
        #[trigger] index[k],
        column_data(datatype, options, cells),
    ) by {
        lemma_entry(datatype, options.checksum_type, blocks, k);
    }
    lemma_index_offsets_increase(datatype, options.checksum_type, blocks);
}

/// Row-count consistency of a column: the row counts of the index entries
/// add up to the number of cells that were appended.
pub proof fn lemma_column_row_count(
    datatype: DataType,
    options: ColumnBuilderOptions,
    cells: Seq<Cell>,
)
    requires
        cells_ok(datatype.kind, datatype.nullable, cells),
        column_data(datatype, options, cells).len() <= u64::MAX,
    ensures
        total_rows(column_index(datatype, options, cells)) == cells.len(),
{
    let size = options.spec_block_size();
    let blocks = final_blocks(datatype, size, cells);
    let index = column_index(datatype, options, cells);
    lemma_final_blocks(datatype, size, cells);
    lemma_decode_blocks(datatype, options.checksum_type, blocks, blocks.len() as int);
    assert(index.take(blocks.len() as int) =~= index);
    assert(blocks.take(blocks.len() as int) =~= blocks);
}

/// A column without rows has no blocks: both its data and its index are
/// empty.
pub proof fn lemma_empty_column(datatype: DataType, options: ColumnBuilderOptions)
    ensures
        column_data(datatype, options, Seq::<Cell>::empty()) == Seq::<u8>::empty(),
        column_index(datatype, options, Seq::<Cell>::empty()) == Seq::<BlockIndex>::empty(),
{
    assert(column_index(datatype, options, Seq::<Cell>::empty()) =~= Seq::<BlockIndex>::empty());
}

/// Round trip of the values: the encoded forms of values of the column's
/// type are read back as the values.
pub proof fn lemma_values_roundtrip(datatype: DataType, values: Seq<Datum>)
    requires
        forall|i: int| 0 <= i < values.len() ==> (#[trigger] values[i]).fits(datatype.kind),
    ensures
        decode_values(datatype, cells_of(values)) == Some(values),
{
    let cells = cells_of(values);
    assert forall|i: int| 0 <= i < cells.len() implies cell_datum(
        datatype.kind,
        #[trigger] cells[i],
    ) == Some(values[i]) by {
        lemma_datum_roundtrip(datatype.kind, values[i]);
    }
    assert(Seq::new(cells.len(), |i: int| cell_datum(datatype.kind, cells[i])->0) =~= values);
}

/// The block of an entry after one byte of the data has changed: the
/// block with that byte changed where the block covers it, the block as it
/// was where not.
proof fn lemma_slice_after_change(entry: BlockIndex, data: Seq<u8>, p: int, x: u8)
    requires
        block_in_bounds(entry, data),
        0 <= p < data.len(),
    ensures
        block_in_bounds(entry, data.update(p, x)),
        block_slice(entry, data.update(p, x)) == (if entry.offset <= p < entry.offset
            + entry.length {
            block_slice(entry, data).update(p - entry.offset, x)
        } else {
            block_slice(entry, data)
        }),
{
    let changed = data.update(p, x);
    if entry.offset <= p < entry.offset + entry.length {
        assert(block_slice(entry, changed) =~= block_slice(entry, data).update(
            p - entry.offset,
            x,
        ));
    } else {
        assert(block_slice(entry, changed) =~= block_slice(entry, data));
    }
}

/// An intact block stays intact when a byte outside it changes, and fails
/// its check when a byte inside it changes, if the checksum is enabled.
proof fn lemma_block_detects_byte_change(
    checksum: ChecksumType,
    entry: BlockIndex,
    data: Seq<u8>,
    p: int,
    x: u8,
)
    requires
        checksum != ChecksumType::Disabled,
        block_intact(checksum, entry, data),
        0 <= p < data.len(),
        x != data[p],
    ensures
        block_intact(checksum, entry, data.update(p, x)) == !(entry.offset <= p < entry.offset
            + entry.length),
{
    lemma_slice_after_change(entry, data, p, x);
    if entry.offset <= p < entry.offset + entry.length {
        let bytes = block_slice(entry, data);
        assert(bytes[p - entry.offset] == data[p]);
        lemma_checksum_detects_byte_change(checksum, bytes, p - entry.offset, x);
    }
}

/// Checksum sensitivity: when one byte of the data file of a column with
/// an enabled checksum is changed, the block that covers the byte fails
/// its check, and every other block passes as before.
pub proof fn lemma_column_detects_byte_change(
    datatype: DataType,
    options: ColumnBuilderOptions,
    cells: Seq<Cell>,
    p: int,
    x: u8,
    k: int,
)
    requires
        options.checksum_type != ChecksumType::Disabled,
        cells_ok(datatype.kind, datatype.nullable, cells),
        column_data(datatype, options, cells).len() <= u64::MAX,
        0 <= p < column_data(datatype, options, cells).len(),
        x != column_data(datatype, options, cells)[p],
        0 <= k < column_index(datatype, options, cells).len(),
    ensures
        ({
            let index = column_index(datatype, options, cells);
            let data = column_data(datatype, options, cells);
            let covers = index[k].offset <= p < index[k].offset + index[k].length;
            block_intact(options.checksum_type, index[k], data.update(p, x)) == !covers
        }),
{
    let index = column_index(datatype, options, cells);
    let data = column_data(datatype, options, cells);
    lemma_column_roundtrip(datatype, options, cells);
    assert(block_intact(options.checksum_type, index[k], data));
    lemma_block_detects_byte_change(options.checksum_type, index[k], data, p, x);
}

/// Every byte of the data file of a column lies in exactly one block.
pub proof fn lemma_byte_in_one_block(
    datatype: DataType,
    options: ColumnBuilderOptions,
    cells: Seq<Cell>,
    p: int,
) -> (k: int)
    requires
        cells_ok(datatype.kind, datatype.nullable, cells),
        column_data(datatype, options, cells).len() <= u64::MAX,
        0 <= p < column_data(datatype, options, cells).len(),
    ensures
        ({
            let index = column_index(datatype, options, cells);
            &&& 0 <= k < index.len()
            &&& index[k].offset <= p < index[k].offset + index[k].length
            &&& forall|j: int|
                0 <= j < index.len() && j != k ==> !((#[trigger] index[j]).offset <= p < index[j].offset
                    + index[j].length)
        }),
{
    let size = options.spec_block_size();
    let blocks = final_blocks(datatype, size, cells);
    let index = column_index(datatype, options, cells);
    lemma_final_blocks(datatype, size, cells);
    assert(blocks.take(blocks.len() as int) =~= blocks);
    let k = lemma_covering_block(datatype, blocks, p, blocks.len() as int);
    lemma_entry(datatype, options.checksum_type, blocks, k);
    assert forall|j: int| 0 <= j < index.len() && j != k implies !((#[trigger] index[j]).offset
        <= p < index[j].offset + index[j].length) by {
        lemma_entry(datatype, options.checksum_type, blocks, j);
        if j < k {
            lemma_blocks_data_monotone(datatype, blocks, j, k);
        } else {
            lemma_blocks_data_monotone(datatype, blocks, k, j);
        }
    }
    k
}

proof fn lemma_covering_block(datatype: DataType, blocks: Seq<Seq<Cell>>, p: int, n: int) -> (k:
    int)
    requires
        0 <= n <= blocks.len(),
        0 <= p < blocks_data(datatype, blocks.take(n)).len(),
    ensures
        0 <= k < n,
        blocks_data(datatype, blocks.take(k)).len() <= p < blocks_data(
            datatype,
            blocks.take(k),
        ).len() + encode_block(datatype.kind, datatype.nullable, blocks[k]).len(),
    decreases n,
{
    if n == 0 {
        assert(blocks.take(0) =~= Seq::<Seq<Cell>>::empty());
        0
    } else {
        lemma_blocks_data_block(datatype, blocks, n - 1);
        if p >= blocks_data(datatype, blocks.take(n - 1)).len() {
            n - 1
        } else {
            lemma_covering_block(datatype, blocks, p, n - 1)
        }
    }
}

} // verus!
