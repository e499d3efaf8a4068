//! The column encoder: gathers the values of one column over many batches
//! and cuts them into encoded blocks.

use crate::array::{blob_datum, bool_datum, float64_datum, int32_datum, int64_datum, ArrayImpl,
    Datum};
use crate::block::{block_fits, cell_bytes, cell_ok, cells_of, cells_ok, datum_cell, encode_block,
    i32_bits, i64_bits, lemma_encode_block_sections, lemma_payload_len_fixed, offset_section,
    payload, validity, value_fits, Cell, MAX_BLOCK_LEN, MAX_BLOCK_ROWS};
use crate::checksum::{checksum_of, ChecksumType};
use crate::codec::{bitmap_bytes, le_bytes, lemma_le_bytes_len, lemma_le_bytes_zero, push_bitmap,
    push_le};
use crate::error::StorageError;
use crate::index_builder::BlockIndex;
use crate::types::{DataType, DataTypeKind};
use vstd::prelude::*;

verus! {

/// How a column is cut into blocks and protected.
#[derive(Clone, Copy, Debug, PartialEq, Eq, Structural)]
pub struct ColumnBuilderOptions {
    /// A block is closed as soon as its values take this many bytes.
    pub target_block_size: usize,
    /// The checksum that each block gets.
    pub checksum_type: ChecksumType,
}

impl ColumnBuilderOptions {
    /// Small blocks with CRC-32, so that short inputs already span blocks.
    pub fn default_for_test() -> (options: ColumnBuilderOptions)
        ensures
            options == (ColumnBuilderOptions {
                target_block_size: 4096,
                checksum_type: ChecksumType::Crc32,
            }),
    {
        ColumnBuilderOptions { target_block_size: 4096, checksum_type: ChecksumType::Crc32 }
    }

    /// The configured block size, as a number.
    pub open spec fn spec_block_size(self) -> nat {
        self.target_block_size as nat
    }
}

/// How far a run of cells has been cut into blocks: the blocks that are
/// closed, and the cells that wait for their block to fill up.
pub struct Blocking {
    pub blocks: Seq<Seq<Cell>>,
    pub pending: Seq<Cell>,
}

/// Whether a block that holds `pending` is closed: it has reached the
/// block size in bytes of values, or the limit of rows.
pub open spec fn block_full(kind: DataTypeKind, size: nat, pending: Seq<Cell>) -> bool {
    pending.len() >= MAX_BLOCK_ROWS || payload(kind, pending).len() >= size
}

/// The cut with room for one more cell: where the cell would make the
/// waiting block longer than a block can be, the waiting block is closed.
pub open spec fn with_room(datatype: DataType, before: Blocking, cell: Cell) -> Blocking {
    if before.pending.len() == 0 || block_fits(
        datatype.kind,
        datatype.nullable,
        before.pending.push(cell),
    ) {
        before
    } else {
        Blocking { blocks: before.blocks.push(before.pending), pending: Seq::empty() }
    }
}

/// The cut after one more cell. Room is made for the cell, the cell joins
/// the waiting block, and the block is closed the moment it is full.
pub open spec fn blocking_step(
    datatype: DataType,
    size: nat,
    before: Blocking,
    cell: Cell,
) -> Blocking {
    let kept = with_room(datatype, before, cell);
    let grown = kept.pending.push(cell);
    if block_full(datatype.kind, size, grown) {
        Blocking { blocks: kept.blocks.push(grown), pending: Seq::empty() }
    } else {
        Blocking { blocks: kept.blocks, pending: grown }
    }
}

/// The cut of `cells` into blocks: cells join the waiting block one by one,
/// in order, as [`blocking_step`] says.
pub open spec fn blocking(datatype: DataType, size: nat, cells: Seq<Cell>) -> Blocking
    decreases cells.len(),
{
    if cells.len() == 0 {
        Blocking { blocks: Seq::empty(), pending: Seq::empty() }
    } else {
        blocking_step(datatype, size, blocking(datatype, size, cells.drop_last()), cells.last())
    }
}

/// The blocks of a finished column: the closed ones, and behind them the
/// waiting cells as a last, shorter block if there are any.
pub open spec fn final_blocks(datatype: DataType, size: nat, cells: Seq<Cell>) -> Seq<Seq<Cell>> {
    let cut = blocking(datatype, size, cells);
    if cut.pending.len() > 0 {
        cut.blocks.push(cut.pending)
    } else {
        cut.blocks
    }
}

/// What holds of every block that the encoder closes: it has a row, not
/// more rows than a block may have, only admissible cells, and a length
/// that an index entry can record.
pub open spec fn block_shape(datatype: DataType, block: Seq<Cell>) -> bool {
    &&& 0 < block.len() <= MAX_BLOCK_ROWS
    &&& cells_ok(datatype.kind, datatype.nullable, block)
    &&& block_fits(datatype.kind, datatype.nullable, block)
}

/// What holds of the cells that wait: they are admissible, fewer than fill
/// a block, and together not longer than a block can be.
pub open spec fn pending_ok(datatype: DataType, pending: Seq<Cell>) -> bool {
    &&& pending.len() < MAX_BLOCK_ROWS
    &&& cells_ok(datatype.kind, datatype.nullable, pending)
    &&& block_fits(datatype.kind, datatype.nullable, pending)
}

/// The data file of a column with the given blocks: the encoded blocks one
/// after the other.
pub open spec fn blocks_data(datatype: DataType, blocks: Seq<Seq<Cell>>) -> Seq<u8>
    decreases blocks.len(),
{
    if blocks.len() == 0 {
        Seq::empty()
    } else {
        blocks_data(datatype, blocks.drop_last()) + encode_block(
            datatype.kind,
            datatype.nullable,
            blocks.last(),
        )
    }
}

/// The index entry of block `k`.
pub open spec fn block_entry(
    datatype: DataType,
    checksum: ChecksumType,
    blocks: Seq<Seq<Cell>>,
    k: int,
) -> BlockIndex {
    let bytes = encode_block(datatype.kind, datatype.nullable, blocks[k]);
    BlockIndex {
        offset: blocks_data(datatype, blocks.take(k)).len() as u64,
        length: bytes.len() as u32,
        row_count: blocks[k].len() as u32,
        checksum: checksum_of(checksum, bytes),
    }
}

/// The index of a column with the given blocks.
pub open spec fn blocks_index(
    datatype: DataType,
    checksum: ChecksumType,
    blocks: Seq<Seq<Cell>>,
) -> Seq<BlockIndex> {
    Seq::new(blocks.len(), |k: int| block_entry(datatype, checksum, blocks, k))
}

/// The data file of the column that holds `cells`.
pub open spec fn column_data(
    datatype: DataType,
    options: ColumnBuilderOptions,
    cells: Seq<Cell>,
) -> Seq<u8> {
    blocks_data(datatype, final_blocks(datatype, options.spec_block_size(), cells))
}

/// The index of the column that holds `cells`.
pub open spec fn column_index(
    datatype: DataType,
    options: ColumnBuilderOptions,
    cells: Seq<Cell>,
) -> Seq<BlockIndex> {
    blocks_index(
        datatype,
        options.checksum_type,
        final_blocks(datatype, options.spec_block_size(), cells),
    )
}

/// Whether some row of `values` is null.
pub open spec fn has_null(values: Seq<Datum>) -> bool {
    exists|i: int| 0 <= i < values.len() && #[trigger] values[i] is Null
}

/// Whether a value is too long to be stored: see [`value_fits`].
pub open spec fn oversized(nullable: bool, d: Datum) -> bool {
    d matches Datum::Blob(bytes) && !value_fits(nullable, bytes.len())
}

/// Whether some row of `values` is too long to be stored.
pub open spec fn has_oversized(nullable: bool, values: Seq<Datum>) -> bool {
    exists|i: int| 0 <= i < values.len() && oversized(nullable, #[trigger] values[i])
}

/// What a column of type `datatype` answers to an array: a shape mismatch
/// for an array of another type or a null where none is admitted; else a
/// refusal for a variable-length value that no block can hold, because an
/// index entry records the length of a block in 32 bits; else acceptance.
pub open spec fn array_check(datatype: DataType, array: ArrayImpl) -> Result<(), StorageError> {
    if array.spec_kind() != datatype.kind || (!datatype.nullable && has_null(array@)) {
        Err(StorageError::ShapeMismatch)
    } else if has_oversized(datatype.nullable, array@) {
        Err(StorageError::ValueTooLarge)
    } else {
        Ok(())
    }
}

/// A further cell changes the cut as [`blocking_step`] says.
pub proof fn lemma_blocking_push(datatype: DataType, size: nat, cells: Seq<Cell>, cell: Cell)
    ensures
        blocking(datatype, size, cells.push(cell)) == blocking_step(
            datatype,
            size,
            blocking(datatype, size, cells),
            cell,
        ),
{
    assert(cells.push(cell).drop_last() =~= cells);
}

/// A block of one admissible cell is no longer than a block can be.
pub proof fn lemma_single_cell_fits(datatype: DataType, cell: Cell)
    requires
        cell_ok(datatype.kind, datatype.nullable, cell),
    ensures
        payload(datatype.kind, seq![cell]) == cell_bytes(datatype.kind, cell),
        block_fits(datatype.kind, datatype.nullable, seq![cell]),
{
    let one = seq![cell];
    assert(one.drop_last() =~= Seq::<Cell>::empty());
    assert(one.last() == cell);
    assert(payload(datatype.kind, Seq::<Cell>::empty()) =~= Seq::<u8>::empty());
    assert(payload(datatype.kind, one) == payload(datatype.kind, one.drop_last()) + cell_bytes(
        datatype.kind,
        cell,
    ));
    assert(payload(datatype.kind, one) =~= cell_bytes(datatype.kind, cell));
}

/// A block of a fixed-width column with no more rows than a block may have
/// is no longer than a block can be.
pub proof fn lemma_fixed_block_fits(datatype: DataType, block: Seq<Cell>)
    requires
        datatype.kind.spec_fixed_width() is Some,
        cells_ok(datatype.kind, datatype.nullable, block),
        block.len() <= MAX_BLOCK_ROWS,
    ensures
        block_fits(datatype.kind, datatype.nullable, block),
{
    let w = datatype.kind.spec_fixed_width()->0;
    lemma_payload_len_fixed(datatype.kind, datatype.nullable, block, block.len() as int);
    assert(block.take(block.len() as int) =~= block);
    assert(block.len() * w <= 0x80_0000) by (nonlinear_arith)
        requires
            block.len() <= 0x10_0000,
            w <= 8,
    ;
}

/// One more admissible cell keeps the cut in order: a block that is closed
/// to make room has the shape of a block, and so has the block that the
/// cell joins; the cells that wait after the step are as waiting cells
/// have to be. In a fixed-width column there is always room.
pub proof fn lemma_blocking_step(datatype: DataType, size: nat, before: Blocking, cell: Cell)
    requires
        pending_ok(datatype, before.pending),
        cell_ok(datatype.kind, datatype.nullable, cell),
    ensures
        ({
            let kept = with_room(datatype, before, cell);
            &&& kept != before ==> block_shape(datatype, before.pending)
            &&& pending_ok(datatype, kept.pending)
            &&& block_shape(datatype, kept.pending.push(cell))
            &&& pending_ok(datatype, blocking_step(datatype, size, before, cell).pending)
            &&& datatype.kind.spec_fixed_width() is Some ==> kept == before
        }),
{
    let kept = with_room(datatype, before, cell);
    let grown = kept.pending.push(cell);
    assert(payload(datatype.kind, Seq::<Cell>::empty()).len() == 0);
    assert forall|i: int| 0 <= i < grown.len() implies cell_ok(
        datatype.kind,
        datatype.nullable,
        #[trigger] grown[i],
    ) by {
        if i < kept.pending.len() {
            assert(grown[i] == kept.pending[i]);
        }
    }
    let joined = before.pending.push(cell);
    assert forall|i: int| 0 <= i < joined.len() implies cell_ok(
        datatype.kind,
        datatype.nullable,
        #[trigger] joined[i],
    ) by {
        if i < before.pending.len() {
            assert(joined[i] == before.pending[i]);
        }
    }
    if datatype.kind.spec_fixed_width() is Some {
        lemma_fixed_block_fits(datatype, joined);
    }
    if kept.pending.len() == 0 {
        lemma_single_cell_fits(datatype, cell);
        assert(grown =~= seq![cell]);
    }
}

/// A further block leaves the entries of the blocks before it as they are
/// and adds its own.
pub proof fn lemma_blocks_push(
    datatype: DataType,
    checksum: ChecksumType,
    blocks: Seq<Seq<Cell>>,
    block: Seq<Cell>,
)
    ensures
        blocks_data(datatype, blocks.push(block)) == blocks_data(datatype, blocks) + encode_block(
            datatype.kind,
            datatype.nullable,
            block,
        ),
        blocks_index(datatype, checksum, blocks.push(block)) == blocks_index(
            datatype,
            checksum,
            blocks,
        ).push(
            BlockIndex {
                offset: blocks_data(datatype, blocks).len() as u64,
                length: encode_block(datatype.kind, datatype.nullable, block).len() as u32,
                row_count: block.len() as u32,
                checksum: checksum_of(
                    checksum,
                    encode_block(datatype.kind, datatype.nullable, block),
                ),
            },
        ),
{
    let more = blocks.push(block);
    assert(more.drop_last() =~= blocks);
    assert(more.take(blocks.len() as int) =~= blocks);
    assert forall|k: int| 0 <= k < blocks.len() implies block_entry(datatype, checksum, more, k)
        == block_entry(datatype, checksum, blocks, k) by {
        assert(more.take(k) =~= blocks.take(k));
    }
    assert(blocks_index(datatype, checksum, more) =~= blocks_index(datatype, checksum, blocks).push(
        block_entry(datatype, checksum, more, blocks.len() as int),
    ));
}

/// The encoder of one column.
pub struct ColumnBuilderImpl {
    datatype: DataType,
    options: ColumnBuilderOptions,
    /// The closed blocks, encoded.
    data: Vec<u8>,
    /// One entry per closed block.
    index: Vec<BlockIndex>,
    /// Which rows of the waiting block hold a value.
    valid: Vec<bool>,
    /// The offset table of the waiting block.
    ends: Vec<u8>,
    /// The value area of the waiting block.
    payload: Vec<u8>,
    /// Every cell that was appended, in order.
    cells: Ghost<Seq<Cell>>,
}

fn i32_word(v: i32) -> (word: u64)
    ensures
        word as nat == i32_bits(v),
        word < 0x1_0000_0000,
{
    if v >= 0 {
        v as u64
    } else {
        (v as i64 + 0x1_0000_0000) as u64
    }
}

fn i64_word(v: i64) -> (word: u64)
    ensures
        word as nat == i64_bits(v),
{
    if v >= 0 {
        v as u64
    } else {
        (v as i128 + 0x1_0000_0000_0000_0000) as u64
    }
}

fn push_bytes(out: &mut Vec<u8>, bytes: &Vec<u8>)
    ensures
        final(out)@ == old(out)@ + bytes@,
{
    let mut i: usize = 0;
    while i < bytes.len()
        invariant
            i <= bytes@.len(),
            out@ == old(out)@ + bytes@.take(i as int),
        decreases bytes@.len() - i,
    {
        out.push(bytes[i]);
        assert(out@ =~= old(out)@ + bytes@.take(i + 1));
        i += 1;
    }
    assert(bytes@.take(bytes@.len() as int) =~= bytes@);
}

impl ColumnBuilderImpl {
    /// The type of the column.
    pub closed spec fn datatype(&self) -> DataType {
        self.datatype
    }

    /// The options that the encoder was made with.
    pub closed spec fn options(&self) -> ColumnBuilderOptions {
        self.options
    }

    /// Every cell that was appended, in order.
    pub closed spec fn cells(&self) -> Seq<Cell> {
        self.cells@
    }

    /// Whether the buffers hold the encoded form of the cut `cut`.
    spec fn synced(&self, cut: Blocking) -> bool {
        &&& self.data@ == blocks_data(self.datatype, cut.blocks)
        &&& self.index@ == blocks_index(self.datatype, self.options.checksum_type, cut.blocks)
        &&& self.valid@ == validity(cut.pending)
        &&& self.ends@ == offset_section(self.datatype.kind, cut.pending)
        &&& self.payload@ == payload(self.datatype.kind, cut.pending)
    }

    /// The encoder's invariant: the buffers hold the encoded form of the
    /// cells appended so far, cut into blocks.
    pub closed spec fn wf(&self) -> bool {
        let cut = blocking(self.datatype, self.options.spec_block_size(), self.cells@);
        &&& cells_ok(self.datatype.kind, self.datatype.nullable, self.cells@)
        &&& pending_ok(self.datatype, cut.pending)
        &&& self.synced(cut)
    }

    /// Every cell that an encoder holds can stand in its column.
    pub proof fn lemma_cells_ok(&self)
        requires
            self.wf(),
        ensures
            cells_ok(self.datatype().kind, self.datatype().nullable, self.cells()),
    {
    }

    /// An encoder for a column of the given type, with no rows yet.
    pub fn new_from_datatype(datatype: &DataType, options: ColumnBuilderOptions) -> (builder:
        ColumnBuilderImpl)
        ensures
            builder.wf(),
            builder.datatype() == *datatype,
            builder.options() == options,
            builder.cells() == Seq::<Cell>::empty(),
    {
        let builder = ColumnBuilderImpl {
            datatype: *datatype,
            options,
            data: Vec::new(),
            index: Vec::new(),
            valid: Vec::new(),
            ends: Vec::new(),
            payload: Vec::new(),
            cells: Ghost(Seq::empty()),
        };
        proof {
            let cut = blocking(*datatype, options.spec_block_size(), Seq::<Cell>::empty());
            assert(payload(datatype.kind, cut.pending).len() == 0);
            assert(validity(cut.pending) =~= Seq::<bool>::empty());
            assert(blocks_index(*datatype, options.checksum_type, cut.blocks) =~= Seq::<
                BlockIndex,
            >::empty());
        }
        builder
    }

    /// Whether the column takes the array: see [`array_check`].
    pub fn check(&self, array: &ArrayImpl) -> (result: Result<(), StorageError>)
        ensures
            result == array_check(self.datatype(), *array),
    {
        if array.kind() != self.datatype.kind {
            return Err(StorageError::ShapeMismatch);
        }
        if !self.datatype.nullable {
            let mut i: usize = 0;
            while i < array.len()
                invariant
                    i <= array@.len(),
                    array.spec_kind() == self.datatype.kind,
                    !self.datatype.nullable,
                    forall|j: int| 0 <= j < i ==> !(#[trigger] array@[j] is Null),
                decreases array@.len() - i,
            {
                if array.is_null(i) {
                    assert(has_null(array@));
                    return Err(StorageError::ShapeMismatch);
                }
                i += 1;
            }
            assert(!has_null(array@));
        }
        match array {
            ArrayImpl::Blob(values) => {
                let mut i: usize = 0;
                while i < values.len()
                    invariant
                        i <= values@.len(),
                        array@.len() == values@.len(),
                        array.spec_kind() == self.datatype.kind,
                        self.datatype.nullable || !has_null(array@),
                        forall|j: int| 0 <= j < values@.len() ==> array@[j] == blob_datum(values@[j]),
                        forall|j: int|
                            0 <= j < i ==> !oversized(self.datatype.nullable, #[trigger] array@[j]),
                    decreases values@.len() - i,
                {
                    let header: u64 = if self.datatype.nullable {
                        5
                    } else {
                        4
                    };
                    let long = match &values[i] {
                        Some(bytes) => bytes.len() as u64 > MAX_BLOCK_LEN - header,
                        None => false,
                    };
                    if long {
                        assert(oversized(self.datatype.nullable, array@[i as int]));
                        return Err(StorageError::ValueTooLarge);
                    }
                    i += 1;
                }
                assert(!has_oversized(self.datatype.nullable, array@));
            },
            _ => {
                assert(!has_oversized(self.datatype.nullable, array@)) by {
                    array.lemma_values_fit();
                }
            },
        }
        Ok(())
    }

    /// Closes the waiting block: its encoded form goes to the data, its
    /// entry to the index.
    fn seal(&mut self, Ghost(cut): Ghost<Blocking>)
        requires
            old(self).synced(cut),
            block_shape(old(self).datatype, cut.pending),
        ensures
            final(self).synced(
                Blocking { blocks: cut.blocks.push(cut.pending), pending: Seq::empty() },
            ),
            final(self).datatype == old(self).datatype,
            final(self).options == old(self).options,
            final(self).cells == old(self).cells,
    {
        let ghost block = encode_block(self.datatype.kind, self.datatype.nullable, cut.pending);
        let ghost before = self.data@;
        proof {
            lemma_encode_block_sections(self.datatype.kind, self.datatype.nullable, cut.pending);
            lemma_blocks_push(self.datatype, self.options.checksum_type, cut.blocks, cut.pending);
        }
        let start: usize = self.data.len();
        let rows: usize = self.valid.len();
        if self.datatype.nullable {
            push_bitmap(&mut self.data, &self.valid);
        }
        self.data.append(&mut self.ends);
        self.data.append(&mut self.payload);
        let end: usize = self.data.len();
        assert(self.data@ =~= before + block);
        assert(self.data@.subrange(start as int, end as int) =~= block);
        let checksum = self.options.checksum_type.checksum_range(self.data.as_slice(), start, end);
        self.index.push(
            BlockIndex {
                offset: start as u64,
                length: (end - start) as u32,
                row_count: rows as u32,
                checksum,
            },
        );
        self.valid.clear();
        proof {
            assert(validity(Seq::<Cell>::empty()) =~= Seq::<bool>::empty());
        }
    }

    /// Closes the waiting block if it is full.
    fn seal_if_full(&mut self, Ghost(cut): Ghost<Blocking>)
        requires
            old(self).synced(cut),
            block_shape(old(self).datatype, cut.pending),
        ensures
            final(self).synced(
                if block_full(
                    old(self).datatype.kind,
                    old(self).options.spec_block_size(),
                    cut.pending,
                ) {
                    Blocking { blocks: cut.blocks.push(cut.pending), pending: Seq::empty() }
                } else {
                    cut
                },
            ),
            final(self).datatype == old(self).datatype,
            final(self).options == old(self).options,
            final(self).cells == old(self).cells,
    {
        if self.valid.len() >= MAX_BLOCK_ROWS || self.payload.len()
            >= self.options.target_block_size {
            self.seal(Ghost(cut));
        }
    }

    /// Appends one cell of a fixed-width column.
    fn push_fixed(&mut self, value: Option<u64>, width: usize)
        requires
            old(self).wf(),
            0 < width <= 8,
            old(self).datatype.kind.spec_fixed_width() == Some(width as nat),
            value is None ==> old(self).datatype.nullable,
        ensures
            final(self).wf(),
            final(self).datatype == old(self).datatype,
            final(self).options == old(self).options,
            final(self).cells@ == old(self).cells@.push(
                match value {
                    Some(word) => Some(le_bytes(word as nat, width as nat)),
                    None => None,
                },
            ),
    {
        let ghost kind = self.datatype.kind;
        let ghost size = self.options.spec_block_size();
        let ghost cut = blocking(self.datatype, size, self.cells@);
        let ghost cell: Cell = match value {
            Some(word) => Some(le_bytes(word as nat, width as nat)),
            None => None,
        };
        proof {
            lemma_le_bytes_zero(width as nat);
            lemma_le_bytes_len(0, width as nat);
            if value is Some {
                lemma_le_bytes_len(value->0 as nat, width as nat);
            }
            lemma_blocking_push(self.datatype, size, self.cells@, cell);
            lemma_blocking_step(self.datatype, size, cut, cell);
        }
        match value {
            Some(word) => {
                self.valid.push(true);
                push_le(&mut self.payload, word, width);
            },
            None => {
                self.valid.push(false);
                push_le(&mut self.payload, 0, width);
            },
        }
        let ghost grown = cut.pending.push(cell);
        proof {
            assert(grown.drop_last() =~= cut.pending);
            assert(validity(grown) =~= validity(cut.pending).push(cell is Some));
            assert(payload(kind, grown) == payload(kind, cut.pending) + cell_bytes(kind, cell));
            let more = self.cells@.push(cell);
            assert forall|i: int| 0 <= i < more.len() implies cell_ok(
                self.datatype.kind,
                self.datatype.nullable,
                #[trigger] more[i],
            ) by {
                if i < self.cells@.len() {
                    assert(more[i] == self.cells@[i]);
                }
            }
        }
        self.cells = Ghost(self.cells@.push(cell));
        self.seal_if_full(Ghost(Blocking { blocks: cut.blocks, pending: grown }));
    }

    /// Makes room for a value of `len` bytes: closes the waiting block if
    /// the value would make it longer than a block can be.
    fn make_room(&mut self, len: usize, Ghost(cut): Ghost<Blocking>, Ghost(cell): Ghost<Cell>)
        requires
            old(self).synced(cut),
            pending_ok(old(self).datatype, cut.pending),
            old(self).datatype.kind.spec_fixed_width() is None,
            cell_ok(old(self).datatype.kind, old(self).datatype.nullable, cell),
            cell_bytes(old(self).datatype.kind, cell).len() == len,
        ensures
            final(self).synced(with_room(old(self).datatype, cut, cell)),
            final(self).datatype == old(self).datatype,
            final(self).options == old(self).options,
            final(self).cells == old(self).cells,
    {
        let rows: usize = self.valid.len();
        if rows > 0 {
            proof {
                let joined = cut.pending.push(cell);
                assert(joined.drop_last() =~= cut.pending);
                assert(payload(self.datatype.kind, joined) == payload(
                    self.datatype.kind,
                    cut.pending,
                ) + cell_bytes(self.datatype.kind, cell));
            }
            let bitmap: usize = if self.datatype.nullable {
                bitmap_bytes(rows + 1)
            } else {
                0
            };
            let joined: u64 = bitmap as u64 + 4 * (rows as u64 + 1) + self.payload.len() as u64
                + len as u64;
            if joined > MAX_BLOCK_LEN {
                self.seal(Ghost(cut));
            }
        }
    }

    /// Appends one cell of a variable-length column.
    fn push_blob(&mut self, value: &Option<Vec<u8>>)
        requires
            old(self).wf(),
            old(self).datatype.kind.spec_fixed_width() is None,
            !oversized(old(self).datatype.nullable, blob_datum(*value)),
            value is None ==> old(self).datatype.nullable,
        ensures
            final(self).wf(),
            final(self).datatype == old(self).datatype,
            final(self).options == old(self).options,
            final(self).cells@ == old(self).cells@.push(datum_cell(blob_datum(*value))),
    {
        let ghost kind = self.datatype.kind;
        let ghost size = self.options.spec_block_size();
        let ghost cut = blocking(self.datatype, size, self.cells@);
        let ghost cell: Cell = datum_cell(blob_datum(*value));
        let ghost kept = with_room(self.datatype, cut, cell);
        proof {
            lemma_blocking_push(self.datatype, size, self.cells@, cell);
            lemma_blocking_step(self.datatype, size, cut, cell);
        }
        let len: usize = match value {
            Some(bytes) => bytes.len(),
            None => 0,
        };
        self.make_room(len, Ghost(cut), Ghost(cell));
        match value {
            Some(bytes) => {
                self.valid.push(true);
                push_bytes(&mut self.payload, bytes);
            },
            None => {
                self.valid.push(false);
            },
        }
        let ghost grown = kept.pending.push(cell);
        proof {
            assert(grown.drop_last() =~= kept.pending);
            assert(validity(grown) =~= validity(kept.pending).push(cell is Some));
            assert(payload(kind, grown) == payload(kind, kept.pending) + cell_bytes(kind, cell));
            assert(self.payload@ =~= payload(kind, grown));
        }
        let end: usize = self.payload.len();
        push_le(&mut self.ends, end as u64, 4);
        proof {
            let more = self.cells@.push(cell);
            assert forall|i: int| 0 <= i < more.len() implies cell_ok(
                self.datatype.kind,
                self.datatype.nullable,
                #[trigger] more[i],
            ) by {
                if i < self.cells@.len() {
                    assert(more[i] == self.cells@[i]);
                }
            }
        }
        self.cells = Ghost(self.cells@.push(cell));
        self.seal_if_full(Ghost(Blocking { blocks: kept.blocks, pending: grown }));
    }

    fn append_bool(&mut self, values: &Vec<Option<bool>>)
        requires
            old(self).wf(),
            old(self).datatype.kind == DataTypeKind::Boolean,
            old(self).datatype.nullable || forall|j: int|
                0 <= j < values@.len() ==> (#[trigger] values@[j]) is Some,
        ensures
            final(self).wf(),
            final(self).datatype == old(self).datatype,
            final(self).options == old(self).options,
            final(self).cells@ == old(self).cells@ + Seq::new(
                values@.len(),
                |j: int| datum_cell(bool_datum(values@[j])),
            ),
    {
        let mut i: usize = 0;
        while i < values.len()
            invariant
                i <= values@.len(),
                self.wf(),
                self.datatype == old(self).datatype,
                self.datatype.kind == DataTypeKind::Boolean,
                self.datatype.nullable || forall|j: int|
                    0 <= j < values@.len() ==> (#[trigger] values@[j]) is Some,
                self.options == old(self).options,
                self.cells@ == old(self).cells@ + Seq::new(
                    i as nat,
                    |j: int| datum_cell(bool_datum(values@[j])),
                ),
            decreases values@.len() - i,
        {
            let word: Option<u64> = match values[i] {
                Some(true) => Some(1),
                Some(false) => Some(0),
                None => None,
            };
            self.push_fixed(word, 1);
            proof {
                reveal_with_fuel(le_bytes, 2);
                let cell = datum_cell(bool_datum(values@[i as int]));
                match values@[i as int] {
                    Some(b) => {
                        assert(le_bytes(if b { 1nat } else { 0nat }, 1) =~= seq![if b {
                            1u8
                        } else {
                            0u8
                        }]);
                    },
                    None => {},
                }
                assert(self.cells@ =~= old(self).cells@ + Seq::new(
                    (i + 1) as nat,
                    |j: int| datum_cell(bool_datum(values@[j])),
                ));
            }
            i += 1;
        }
    }

    fn append_int32(&mut self, values: &Vec<Option<i32>>)
        requires
            old(self).wf(),
            old(self).datatype.kind == DataTypeKind::Int,
            old(self).datatype.nullable || forall|j: int|
                0 <= j < values@.len() ==> (#[trigger] values@[j]) is Some,
        ensures
            final(self).wf(),
            final(self).datatype == old(self).datatype,
            final(self).options == old(self).options,
            final(self).cells@ == old(self).cells@ + Seq::new(
                values@.len(),
                |j: int| datum_cell(int32_datum(values@[j])),
            ),
    {
        let mut i: usize = 0;
        while i < values.len()
            invariant
                i <= values@.len(),
                self.wf(),
                self.datatype == old(self).datatype,
                self.datatype.kind == DataTypeKind::Int,
                self.datatype.nullable || forall|j: int|
                    0 <= j < values@.len() ==> (#[trigger] values@[j]) is Some,
                self.options == old(self).options,
                self.cells@ == old(self).cells@ + Seq::new(
                    i as nat,
                    |j: int| datum_cell(int32_datum(values@[j])),
                ),
            decreases values@.len() - i,
        {
            let word: Option<u64> = match values[i] {
                Some(v) => Some(i32_word(v)),
                None => None,
            };
            self.push_fixed(word, 4);
            assert(self.cells@ =~= old(self).cells@ + Seq::new(
                (i + 1) as nat,
                |j: int| datum_cell(int32_datum(values@[j])),
            ));
            i += 1;
        }
    }

    fn append_int64(&mut self, values: &Vec<Option<i64>>)
        requires
            old(self).wf(),
            old(self).datatype.kind == DataTypeKind::BigInt,
            old(self).datatype.nullable || forall|j: int|
                0 <= j < values@.len() ==> (#[trigger] values@[j]) is Some,
        ensures
            final(self).wf(),
            final(self).datatype == old(self).datatype,
            final(self).options == old(self).options,
            final(self).cells@ == old(self).cells@ + Seq::new(
                values@.len(),
                |j: int| datum_cell(int64_datum(values@[j])),
            ),
    {
        let mut i: usize = 0;
        while i < values.len()
            invariant
                i <= values@.len(),
                self.wf(),
                self.datatype == old(self).datatype,
                self.datatype.kind == DataTypeKind::BigInt,
                self.datatype.nullable || forall|j: int|
                    0 <= j < values@.len() ==> (#[trigger] values@[j]) is Some,
                self.options == old(self).options,
                self.cells@ == old(self).cells@ + Seq::new(
                    i as nat,
                    |j: int| datum_cell(int64_datum(values@[j])),
                ),
            decreases values@.len() - i,
        {
            let word: Option<u64> = match values[i] {
                Some(v) => Some(i64_word(v)),
                None => None,
            };
            self.push_fixed(word, 8);
            assert(self.cells@ =~= old(self).cells@ + Seq::new(
                (i + 1) as nat,
                |j: int| datum_cell(int64_datum(values@[j])),
            ));
            i += 1;
        }
    }

    fn append_float64(&mut self, values: &Vec<Option<u64>>)
        requires
            old(self).wf(),
            old(self).datatype.kind == DataTypeKind::Double,
            old(self).datatype.nullable || forall|j: int|
                0 <= j < values@.len() ==> (#[trigger] values@[j]) is Some,
        ensures
            final(self).wf(),
            final(self).datatype == old(self).datatype,
            final(self).options == old(self).options,
            final(self).cells@ == old(self).cells@ + Seq::new(
                values@.len(),
                |j: int| datum_cell(float64_datum(values@[j])),
            ),
    {
        let mut i: usize = 0;
        while i < values.len()
            invariant
                i <= values@.len(),
                self.wf(),
                self.datatype == old(self).datatype,
                self.datatype.kind == DataTypeKind::Double,
                self.datatype.nullable || forall|j: int|
                    0 <= j < values@.len() ==> (#[trigger] values@[j]) is Some,
                self.options == old(self).options,
                self.cells@ == old(self).cells@ + Seq::new(
                    i as nat,
                    |j: int| datum_cell(float64_datum(values@[j])),
                ),
            decreases values@.len() - i,
        {
            self.push_fixed(values[i], 8);
            assert(self.cells@ =~= old(self).cells@ + Seq::new(
                (i + 1) as nat,
                |j: int| datum_cell(float64_datum(values@[j])),
            ));
            i += 1;
        }
    }

    fn append_blob(&mut self, values: &Vec<Option<Vec<u8>>>)
        requires
            old(self).wf(),
            old(self).datatype.kind == DataTypeKind::Blob,
            forall|j: int|
                0 <= j < values@.len() ==> !oversized(
                    old(self).datatype.nullable,
                    blob_datum(#[trigger] values@[j]),
                ),
            old(self).datatype.nullable || forall|j: int|
                0 <= j < values@.len() ==> (#[trigger] values@[j]) is Some,
        ensures
            final(self).wf(),
            final(self).datatype == old(self).datatype,
            final(self).options == old(self).options,
            final(self).cells@ == old(self).cells@ + Seq::new(
                values@.len(),
                |j: int| datum_cell(blob_datum(values@[j])),
            ),
    {
        let mut i: usize = 0;
        while i < values.len()
            invariant
                i <= values@.len(),
                self.wf(),
                self.datatype == old(self).datatype,
                self.datatype.kind == DataTypeKind::Blob,
                self.datatype.nullable || forall|j: int|
                    0 <= j < values@.len() ==> (#[trigger] values@[j]) is Some,
                self.options == old(self).options,
                forall|j: int|
                    0 <= j < values@.len() ==> !oversized(
                        self.datatype.nullable,
                        blob_datum(#[trigger] values@[j]),
                    ),
                self.cells@ == old(self).cells@ + Seq::new(
                    i as nat,
                    |j: int| datum_cell(blob_datum(values@[j])),
                ),
            decreases values@.len() - i,
        {
            assert(!oversized(self.datatype.nullable, blob_datum(values@[i as int])));
            self.push_blob(&values[i]);
            assert(self.cells@ =~= old(self).cells@ + Seq::new(
                (i + 1) as nat,
                |j: int| datum_cell(blob_datum(values@[j])),
            ));
            i += 1;
        }
    }

    /// Appends the values of one array, in row order. An array that the
    /// column does not take leaves the encoder as it was.
    pub fn append(&mut self, array: &ArrayImpl) -> (result: Result<(), StorageError>)
        requires
            old(self).wf(),
        ensures
            final(self).wf(),
            final(self).datatype() == old(self).datatype(),
            final(self).options() == old(self).options(),
            result == array_check(old(self).datatype(), *array),
            final(self).cells() == if result is Ok {
                old(self).cells() + cells_of(array@)
            } else {
                old(self).cells()
            },
    {
        match self.check(array) {
            Err(e) => {
                return Err(e);
            },
            Ok(()) => {},
        }
        proof {
            if !self.datatype.nullable {
                assert forall|j: int| 0 <= j < array@.len() implies !(#[trigger] array@[j] is Null) by {
                    if array@[j] is Null {
                        assert(has_null(array@));
                    }
                }
            }
        }
        match array {
            ArrayImpl::Bool(values) => {
                assert(self.datatype.nullable || forall|j: int|
                    0 <= j < values@.len() ==> (#[trigger] values@[j]) is Some) by {
                    if !self.datatype.nullable {
                        assert forall|j: int| 0 <= j < values@.len() implies (
                        #[trigger] values@[j]) is Some by {
                            assert(!(array@[j] is Null));
                        }
                    }
                }
                self.append_bool(values);
            },
            ArrayImpl::Int32(values) => {
                assert(self.datatype.nullable || forall|j: int|
                    0 <= j < values@.len() ==> (#[trigger] values@[j]) is Some) by {
                    if !self.datatype.nullable {
                        assert forall|j: int| 0 <= j < values@.len() implies (
                        #[trigger] values@[j]) is Some by {
                            assert(!(array@[j] is Null));
                        }
                    }
                }
                self.append_int32(values);
            },
            ArrayImpl::Int64(values) => {
                assert(self.datatype.nullable || forall|j: int|
                    0 <= j < values@.len() ==> (#[trigger] values@[j]) is Some) by {
                    if !self.datatype.nullable {
                        assert forall|j: int| 0 <= j < values@.len() implies (
                        #[trigger] values@[j]) is Some by {
                            assert(!(array@[j] is Null));
                        }
                    }
                }
                self.append_int64(values);
            },
            ArrayImpl::Float64(values) => {
                assert(self.datatype.nullable || forall|j: int|
                    0 <= j < values@.len() ==> (#[trigger] values@[j]) is Some) by {
                    if !self.datatype.nullable {
                        assert forall|j: int| 0 <= j < values@.len() implies (
                        #[trigger] values@[j]) is Some by {
                            assert(!(array@[j] is Null));
                        }
                    }
                }
                self.append_float64(values);
            },
            ArrayImpl::Blob(values) => {
                assert forall|j: int| 0 <= j < values@.len() implies !oversized(
                    self.datatype.nullable,
                    blob_datum(#[trigger] values@[j]),
                ) by {
                    assert(array@[j] == blob_datum(values@[j]));
                }
                assert(self.datatype.nullable || forall|j: int|
                    0 <= j < values@.len() ==> (#[trigger] values@[j]) is Some) by {
                    if !self.datatype.nullable {
                        assert forall|j: int| 0 <= j < values@.len() implies (
                        #[trigger] values@[j]) is Some by {
                            assert(!(array@[j] is Null));
                        }
                    }
                }
                self.append_blob(values);
            },
        }
        assert(self.cells@ =~= old(self).cells@ + cells_of(array@));
        Ok(())
    }

    /// Closes the last block and hands out the index and the data file of
    /// the column.
    pub fn finish(self) -> (result: (Vec<BlockIndex>, Vec<u8>))
        requires
            self.wf(),
        ensures
            result.0@ == column_index(self.datatype(), self.options(), self.cells()),
            result.1@ == column_data(self.datatype(), self.options(), self.cells()),
    {
        let mut builder = self;
        let ghost cut = blocking(
            builder.datatype,
            builder.options.spec_block_size(),
            builder.cells@,
        );
        if builder.valid.len() > 0 {
            builder.seal(Ghost(cut));
        }
        (builder.index, builder.data)
    }
}

} // verus!
