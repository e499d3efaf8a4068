//! The layout of a block: the encoded form of a run of values of one column.
//!
//! A block of a nullable column starts with a validity bitmap. A block of a
//! variable-length column then holds one 32-bit end offset per row. The
//! values follow, densely: a fixed-width column gives every row a slot,
//! filled with zeros where the row is null; a variable-length column stores
//! nothing for a null.

use crate::array::Datum;
use crate::codec::{bitmap, bitmap_get, bitmap_len, le_bytes, le_value, lemma_bitmap_get,
    lemma_le_bytes_len, lemma_le_roundtrip, lemma_radix_limits};
use crate::types::DataTypeKind;
use vstd::prelude::*;

verus! {

/// A value in its encoded form: `None` for a null, else the value's bytes.
pub type Cell = Option<Seq<u8>>;

/// Most rows that a block holds.
pub const MAX_BLOCK_ROWS: usize = 0x10_0000;

/// Most bytes that a block can have: an index entry records the length of
/// its block in 32 bits.
pub const MAX_BLOCK_LEN: u64 = 0xFFFF_FFFF;

/// A 32-bit signed integer as the unsigned number with the same bits.
pub open spec fn i32_bits(v: i32) -> nat {
    if v >= 0 {
        v as nat
    } else {
        (v + 0x1_0000_0000) as nat
    }
}

/// The 32-bit signed integer with the bits of `x`.
pub open spec fn bits_i32(x: nat) -> i32 {
    if x < 0x8000_0000 {
        x as i32
    } else {
        (x - 0x1_0000_0000) as i32
    }
}

/// A 64-bit signed integer as the unsigned number with the same bits.
pub open spec fn i64_bits(v: i64) -> nat {
    if v >= 0 {
        v as nat
    } else {
        (v + 0x1_0000_0000_0000_0000) as nat
    }
}

/// The 64-bit signed integer with the bits of `x`.
pub open spec fn bits_i64(x: nat) -> i64 {
    if x < 0x8000_0000_0000_0000 {
        x as i64
    } else {
        (x - 0x1_0000_0000_0000_0000) as i64
    }
}

/// The encoded form of a value.
pub open spec fn datum_cell(d: Datum) -> Cell {
    match d {
        Datum::Null => None,
        Datum::Bool(b) => Some(
            seq![if b {
                1u8
            } else {
                0u8
            }],
        ),
        Datum::Int32(v) => Some(le_bytes(i32_bits(v), 4)),
        Datum::Int64(v) => Some(le_bytes(i64_bits(v), 8)),
        Datum::Float64(bits) => Some(le_bytes(bits as nat, 8)),
        Datum::Blob(bytes) => Some(bytes),
    }
}

/// The value of logical type `kind` that a cell encodes, if it encodes one.
pub open spec fn cell_datum(kind: DataTypeKind, cell: Cell) -> Option<Datum> {
    match cell {
        None => Some(Datum::Null),
        Some(bytes) => match kind {
            DataTypeKind::Boolean => if bytes.len() == 1 && bytes[0] <= 1 {
                Some(Datum::Bool(bytes[0] == 1))
            } else {
                None
            },
            DataTypeKind::Int => if bytes.len() == 4 {
                Some(Datum::Int32(bits_i32(le_value(bytes))))
            } else {
                None
            },
            DataTypeKind::BigInt => if bytes.len() == 8 {
                Some(Datum::Int64(bits_i64(le_value(bytes))))
            } else {
                None
            },
            DataTypeKind::Double => if bytes.len() == 8 {
                Some(Datum::Float64(le_value(bytes) as u64))
            } else {
                None
            },
            DataTypeKind::Blob => Some(Datum::Blob(bytes)),
        },
    }
}

/// The encoded forms of a run of values.
pub open spec fn cells_of(values: Seq<Datum>) -> Seq<Cell> {
    Seq::new(values.len(), |i: int| datum_cell(values[i]))
}

/// Whether a variable-length value of `len` bytes can be stored at all: a
/// block that holds nothing but the value, with its bitmap and its
/// offset, must not be longer than a block can be.
pub open spec fn value_fits(nullable: bool, len: nat) -> bool {
    null_section_len(nullable, 1) + 4 + len <= MAX_BLOCK_LEN
}

/// Whether a cell can stand in a column of the given type: a null only
/// where nulls are admitted, a fixed-width value with exactly its width, a
/// variable-length value that fits into a block of its own.
pub open spec fn cell_ok(kind: DataTypeKind, nullable: bool, cell: Cell) -> bool {
    match cell {
        None => nullable,
        Some(bytes) => match kind.spec_fixed_width() {
            Some(w) => bytes.len() == w,
            None => value_fits(nullable, bytes.len()),
        },
    }
}

/// Whether every cell of a run can stand in a column of the given type.
pub open spec fn cells_ok(kind: DataTypeKind, nullable: bool, cells: Seq<Cell>) -> bool {
    forall|i: int| 0 <= i < cells.len() ==> cell_ok(kind, nullable, #[trigger] cells[i])
}

/// What stands in the value area for a null.
pub open spec fn filler(kind: DataTypeKind) -> Seq<u8> {
    match kind.spec_fixed_width() {
        Some(w) => Seq::new(w, |i: int| 0u8),
        None => Seq::empty(),
    }
}

/// What stands in the value area for a cell.
pub open spec fn cell_bytes(kind: DataTypeKind, cell: Cell) -> Seq<u8> {
    match cell {
        Some(bytes) => bytes,
        None => filler(kind),
    }
}

/// The value area of a block: the bytes of its cells, in row order.
pub open spec fn payload(kind: DataTypeKind, cells: Seq<Cell>) -> Seq<u8>
    decreases cells.len(),
{
    if cells.len() == 0 {
        Seq::empty()
    } else {
        payload(kind, cells.drop_last()) + cell_bytes(kind, cells.last())
    }
}

/// The offset table of a block: for each row, where its value ends in the
/// value area, as a 32-bit little-endian number.
pub open spec fn offsets(kind: DataTypeKind, cells: Seq<Cell>) -> Seq<u8>
    decreases cells.len(),
{
    if cells.len() == 0 {
        Seq::empty()
    } else {
        offsets(kind, cells.drop_last()) + le_bytes(payload(kind, cells).len(), 4)
    }
}

/// Which rows of a run hold a value.
pub open spec fn validity(cells: Seq<Cell>) -> Seq<bool> {
    Seq::new(cells.len(), |i: int| cells[i] is Some)
}

/// The validity bitmap of a block, present in nullable columns only.
pub open spec fn null_section(nullable: bool, cells: Seq<Cell>) -> Seq<u8> {
    if nullable {
        bitmap(validity(cells))
    } else {
        Seq::empty()
    }
}

/// The offset table of a block, present in variable-length columns only.
pub open spec fn offset_section(kind: DataTypeKind, cells: Seq<Cell>) -> Seq<u8> {
    if kind.spec_fixed_width() is None {
        offsets(kind, cells)
    } else {
        Seq::empty()
    }
}

/// The bytes of the block that holds `cells`.
pub open spec fn encode_block(kind: DataTypeKind, nullable: bool, cells: Seq<Cell>) -> Seq<u8> {
    null_section(nullable, cells) + offset_section(kind, cells) + payload(kind, cells)
}

/// Number of bytes of the validity bitmap in a block of `rows` rows.
pub open spec fn null_section_len(nullable: bool, rows: nat) -> nat {
    if nullable {
        bitmap_len(rows)
    } else {
        0
    }
}

/// Number of bytes that come before the value area in a block of `rows` rows.
pub open spec fn header_len(kind: DataTypeKind, nullable: bool, rows: nat) -> nat {
    null_section_len(nullable, rows) + (if kind.spec_fixed_width() is None {
        4 * rows
    } else {
        0
    })
}

/// Number of bytes of the block that holds `cells`.
pub open spec fn block_len(kind: DataTypeKind, nullable: bool, cells: Seq<Cell>) -> nat {
    header_len(kind, nullable, cells.len()) + payload(kind, cells).len()
}

/// Whether the block that holds `cells` is no longer than a block can be.
pub open spec fn block_fits(kind: DataTypeKind, nullable: bool, cells: Seq<Cell>) -> bool {
    block_len(kind, nullable, cells) <= MAX_BLOCK_LEN
}

/// Entry `i` of the offset table that starts at `bytes[table]`.
pub open spec fn end_offset(bytes: Seq<u8>, table: int, i: int) -> nat {
    le_value(bytes.subrange(table + 4 * i, table + 4 * i + 4))
}

/// Where the value of row `i` starts in the value area of a block. For
/// `i` equal to the number of rows this is where the last value ends.
pub open spec fn cell_start(kind: DataTypeKind, bytes: Seq<u8>, table: int, i: int) -> nat {
    match kind.spec_fixed_width() {
        Some(w) => (i * w) as nat,
        None => if i <= 0 {
            0
        } else {
            end_offset(bytes, table, i - 1)
        },
    }
}

/// Whether `bytes` has the layout of a block of `rows` rows: the sections
/// are all there, the values lie one after the other, and they fill the
/// value area exactly.
pub open spec fn block_well_formed(
    kind: DataTypeKind,
    nullable: bool,
    rows: nat,
    bytes: Seq<u8>,
) -> bool {
    let table = null_section_len(nullable, rows) as int;
    let base = header_len(kind, nullable, rows);
    &&& bytes.len() >= base
    &&& forall|i: int|
        0 <= i < rows ==> #[trigger] cell_start(kind, bytes, table, i) <= cell_start(
            kind,
            bytes,
            table,
            i + 1,
        )
    &&& cell_start(kind, bytes, table, rows as int) == bytes.len() - base
}

/// Row `i` of a block of `rows` rows with a sound layout.
pub open spec fn block_cell(
    kind: DataTypeKind,
    nullable: bool,
    rows: nat,
    bytes: Seq<u8>,
    i: int,
) -> Cell {
    let table = null_section_len(nullable, rows) as int;
    let base = header_len(kind, nullable, rows) as int;
    if nullable && !bitmap_get(bytes, i) {
        None
    } else {
        Some(
            bytes.subrange(
                base + cell_start(kind, bytes, table, i),
                base + cell_start(kind, bytes, table, i + 1),
            ),
        )
    }
}

/// The rows of a block of `rows` rows with a sound layout.
pub open spec fn block_cells(kind: DataTypeKind, nullable: bool, rows: nat, bytes: Seq<u8>) -> Seq<
    Cell,
> {
    Seq::new(rows, |i: int| block_cell(kind, nullable, rows, bytes, i))
}

/// The cells that a block of `rows` rows holds; `None` where `bytes` does
/// not have the layout of such a block.
pub open spec fn decode_block(
    kind: DataTypeKind,
    nullable: bool,
    rows: nat,
    bytes: Seq<u8>,
) -> Option<Seq<Cell>> {
    if block_well_formed(kind, nullable, rows, bytes) {
        Some(block_cells(kind, nullable, rows, bytes))
    } else {
        None
    }
}

/// A value of a logical type is read back from its encoded form.
pub proof fn lemma_datum_roundtrip(kind: DataTypeKind, d: Datum)
    requires
        d.fits(kind),
    ensures
        cell_datum(kind, datum_cell(d)) == Some(d),
{
    lemma_radix_limits();
    match d {
        Datum::Null => {},
        Datum::Bool(b) => {},
        Datum::Int32(v) => {
            lemma_le_bytes_len(i32_bits(v), 4);
            lemma_le_roundtrip(i32_bits(v), 4);
        },
        Datum::Int64(v) => {
            lemma_le_bytes_len(i64_bits(v), 8);
            lemma_le_roundtrip(i64_bits(v), 8);
        },
        Datum::Float64(bits) => {
            lemma_le_bytes_len(bits as nat, 8);
            lemma_le_roundtrip(bits as nat, 8);
        },
        Datum::Blob(bytes) => {},
    }
}

/// The value area of the first `i` cells is the start of the value area of
/// all of them.
pub proof fn lemma_payload_take(kind: DataTypeKind, cells: Seq<Cell>, i: int)
    requires
        0 <= i <= cells.len(),
    ensures
        payload(kind, cells.take(i)).len() <= payload(kind, cells).len(),
        payload(kind, cells.take(i)) == payload(kind, cells).subrange(
            0,
            payload(kind, cells.take(i)).len() as int,
        ),
    decreases cells.len(),
{
    if i == cells.len() {
        assert(cells.take(i) =~= cells);
        assert(payload(kind, cells) =~= payload(kind, cells).subrange(
            0,
            payload(kind, cells).len() as int,
        ));
    } else {
        let front = cells.drop_last();
        assert(cells.take(i) =~= front.take(i));
        lemma_payload_take(kind, front, i);
        let n = payload(kind, front.take(i)).len() as int;
        assert(payload(kind, cells).subrange(0, n) =~= payload(kind, front).subrange(0, n));
    }
}

/// Cell `i` stands in the value area right behind the cells before it.
pub proof fn lemma_payload_cell(kind: DataTypeKind, cells: Seq<Cell>, i: int)
    requires
        0 <= i < cells.len(),
    ensures
        payload(kind, cells.take(i + 1)).len() == payload(kind, cells.take(i)).len() + cell_bytes(
            kind,
            cells[i],
        ).len(),
        payload(kind, cells.take(i + 1)).len() <= payload(kind, cells).len(),
        payload(kind, cells).subrange(
            payload(kind, cells.take(i)).len() as int,
            payload(kind, cells.take(i + 1)).len() as int,
        ) == cell_bytes(kind, cells[i]),
{
    let upto = cells.take(i + 1);
    assert(upto.drop_last() =~= cells.take(i));
    assert(upto.last() == cells[i]);
    lemma_payload_take(kind, cells, i + 1);
    let a = payload(kind, cells.take(i)).len() as int;
    let b = payload(kind, upto).len() as int;
    assert(payload(kind, cells).subrange(a, b) =~= payload(kind, cells).subrange(0, b).subrange(
        a,
        b,
    ));
    assert(payload(kind, upto).subrange(a, b) =~= cell_bytes(kind, cells[i]));
}

/// In a fixed-width column every cell takes the width of the type.
pub proof fn lemma_payload_len_fixed(
    kind: DataTypeKind,
    nullable: bool,
    cells: Seq<Cell>,
    i: int,
)
    requires
        kind.spec_fixed_width() is Some,
        cells_ok(kind, nullable, cells),
        0 <= i <= cells.len(),
    ensures
        payload(kind, cells.take(i)).len() == i * kind.spec_fixed_width()->0,
    decreases i,
{
    let w = kind.spec_fixed_width()->0;
    if i == 0 {
        assert(cells.take(0) =~= Seq::<Cell>::empty());
        assert(0 * w == 0);
    } else {
        lemma_payload_len_fixed(kind, nullable, cells, i - 1);
        lemma_payload_cell(kind, cells, i - 1);
        assert(cell_ok(kind, nullable, cells[i - 1]));
        assert(cell_bytes(kind, cells[i - 1]).len() == w);
        assert(i * w == (i - 1) * w + w) by (nonlinear_arith);
    }
}

/// The offset table has four bytes per row, and entry `i` is the length of
/// the value area of the first `i + 1` cells.
pub proof fn lemma_offsets(kind: DataTypeKind, cells: Seq<Cell>, i: int)
    requires
        0 <= i < cells.len(),
    ensures
        offsets(kind, cells).len() == 4 * cells.len(),
        offsets(kind, cells).subrange(4 * i, 4 * i + 4) == le_bytes(
            payload(kind, cells.take(i + 1)).len(),
            4,
        ),
    decreases cells.len(),
{
    let front = cells.drop_last();
    lemma_offsets_len(kind, front);
    lemma_le_bytes_len(payload(kind, cells).len(), 4);
    if i == cells.len() - 1 {
        assert(cells.take(i + 1) =~= cells);
        assert(offsets(kind, cells).subrange(4 * i, 4 * i + 4) =~= le_bytes(
            payload(kind, cells).len(),
            4,
        ));
    } else {
        lemma_offsets(kind, front, i);
        assert(cells.take(i + 1) =~= front.take(i + 1));
        assert(offsets(kind, cells).subrange(4 * i, 4 * i + 4) =~= offsets(kind, front).subrange(
            4 * i,
            4 * i + 4,
        ));
    }
}

/// The offset table has four bytes per row.
pub proof fn lemma_offsets_len(kind: DataTypeKind, cells: Seq<Cell>)
    ensures
        offsets(kind, cells).len() == 4 * cells.len(),
    decreases cells.len(),
{
    if cells.len() > 0 {
        lemma_offsets_len(kind, cells.drop_last());
        lemma_le_bytes_len(payload(kind, cells).len(), 4);
    }
}

/// The sections of an encoded block have the lengths that a reader expects.
pub proof fn lemma_encode_block_sections(kind: DataTypeKind, nullable: bool, cells: Seq<Cell>)
    ensures
        null_section(nullable, cells).len() == null_section_len(nullable, cells.len()),
        null_section(nullable, cells).len() + offset_section(kind, cells).len() == header_len(
            kind,
            nullable,
            cells.len(),
        ),
        encode_block(kind, nullable, cells).len() == block_len(kind, nullable, cells),
{
    lemma_offsets_len(kind, cells);
}

/// In an encoded block, the value of row `i` starts where the value area
/// of the rows before it ends.
pub proof fn lemma_encoded_cell_start(
    kind: DataTypeKind,
    nullable: bool,
    cells: Seq<Cell>,
    i: int,
)
    requires
        cells_ok(kind, nullable, cells),
        payload(kind, cells).len() < 0x1_0000_0000,
        0 <= i <= cells.len(),
    ensures
        cell_start(
            kind,
            encode_block(kind, nullable, cells),
            null_section_len(nullable, cells.len()) as int,
            i,
        ) == payload(kind, cells.take(i)).len(),
{
    let bytes = encode_block(kind, nullable, cells);
    let table = null_section_len(nullable, cells.len()) as int;
    lemma_encode_block_sections(kind, nullable, cells);
    if kind.spec_fixed_width() is Some {
        lemma_payload_len_fixed(kind, nullable, cells, i);
    } else if i == 0 {
        assert(cells.take(0) =~= Seq::<Cell>::empty());
    } else {
        lemma_offsets(kind, cells, i - 1);
        let len = payload(kind, cells.take(i)).len();
        lemma_payload_take(kind, cells, i);
        lemma_radix_limits();
        lemma_le_roundtrip(len, 4);
        assert(bytes.subrange(table + 4 * (i - 1), table + 4 * (i - 1) + 4) =~= offsets(
            kind,
            cells,
        ).subrange(4 * (i - 1), 4 * (i - 1) + 4));
    }
}

/// An encoded block has the layout that a reader expects.
pub proof fn lemma_encoded_block_well_formed(kind: DataTypeKind, nullable: bool, cells: Seq<Cell>)
    requires
        cells_ok(kind, nullable, cells),
        payload(kind, cells).len() < 0x1_0000_0000,
    ensures
        block_well_formed(kind, nullable, cells.len(), encode_block(kind, nullable, cells)),
{
    let rows = cells.len();
    let bytes = encode_block(kind, nullable, cells);
    let table = null_section_len(nullable, rows) as int;
    lemma_encode_block_sections(kind, nullable, cells);
    assert forall|i: int| 0 <= i < rows implies #[trigger] cell_start(kind, bytes, table, i)
        <= cell_start(kind, bytes, table, i + 1) by {
        lemma_encoded_cell_start(kind, nullable, cells, i);
        lemma_encoded_cell_start(kind, nullable, cells, i + 1);
        lemma_payload_cell(kind, cells, i);
    }
    lemma_encoded_cell_start(kind, nullable, cells, rows as int);
    assert(cells.take(rows as int) =~= cells);
}

/// Row `i` of an encoded block is the cell that was encoded there.
pub proof fn lemma_encoded_block_cell(
    kind: DataTypeKind,
    nullable: bool,
    cells: Seq<Cell>,
    i: int,
)
    requires
        cells_ok(kind, nullable, cells),
        payload(kind, cells).len() < 0x1_0000_0000,
        0 <= i < cells.len(),
    ensures
        block_cell(kind, nullable, cells.len(), encode_block(kind, nullable, cells), i) == cells[i],
{
    let rows = cells.len();
    let bytes = encode_block(kind, nullable, cells);
    let table = null_section_len(nullable, rows) as int;
    let base = header_len(kind, nullable, rows) as int;
    lemma_encode_block_sections(kind, nullable, cells);
    lemma_encoded_cell_start(kind, nullable, cells, i);
    lemma_encoded_cell_start(kind, nullable, cells, i + 1);
    lemma_payload_cell(kind, cells, i);
    let a = payload(kind, cells.take(i)).len() as int;
    let b = payload(kind, cells.take(i + 1)).len() as int;
    assert(cell_start(kind, bytes, table, i) == a);
    assert(cell_start(kind, bytes, table, i + 1) == b);
    assert(bytes.subrange(base + a, base + b) =~= payload(kind, cells).subrange(a, b));
    assert(cell_ok(kind, nullable, cells[i]));
    if nullable {
        lemma_bitmap_get(validity(cells), i);
        assert(bytes[i / 8] == bitmap(validity(cells))[i / 8]);
        assert(bitmap_get(bytes, i) == (cells[i] is Some));
    }
}

/// Decoding an encoded block gives back the cells it was made of.
pub proof fn lemma_block_roundtrip(kind: DataTypeKind, nullable: bool, cells: Seq<Cell>)
    requires
        cells_ok(kind, nullable, cells),
        payload(kind, cells).len() < 0x1_0000_0000,
    ensures
        decode_block(kind, nullable, cells.len(), encode_block(kind, nullable, cells)) == Some(
            cells,
        ),
{
    let rows = cells.len();
    let bytes = encode_block(kind, nullable, cells);
    lemma_encoded_block_well_formed(kind, nullable, cells);
    let decoded = Seq::new(rows, |i: int| block_cell(kind, nullable, rows, bytes, i));
    assert forall|i: int| 0 <= i < rows implies decoded[i] == cells[i] by {
        lemma_encoded_block_cell(kind, nullable, cells, i);
    }
    assert(decoded =~= cells);
}

} // verus!
