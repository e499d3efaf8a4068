//! The rowset builder: one column encoder per column, fed batch by batch,
//! and at the end the files of the rowset in the order in which they have
//! to reach the disk.

use crate::array::{ArrayImpl, DataChunk, Datum};
use crate::block::{cells_of, cells_ok, Cell};
use crate::column_builder::{array_check, column_data, column_index, ColumnBuilderImpl,
    ColumnBuilderOptions};
use crate::column_file::{block_intact, lemma_column_detects_byte_change, lemma_column_roundtrip,
    lemma_column_row_count, lemma_empty_column, total_rows};
use crate::checksum::ChecksumType;
use crate::error::StorageError;
use crate::flush::{FileView, RowsetFile, RowsetFlush};
use crate::index_builder::{index_file, index_header, offsets_increase, BlockIndex,
    IndexBuilder};
use crate::reader::{column_files_sound, lemma_column_files_sound, lemma_read_roundtrip,
    read_column_spec};
use crate::types::{ColumnCatalog, DataType};
use itertools::Itertools;
use vstd::prelude::*;
use vstd::string::*;

verus! {

/// The character of a decimal digit.
pub open spec fn digit_char(d: nat) -> char {
    if d == 0 {
        '0'
    } else if d == 1 {
        '1'
    } else if d == 2 {
        '2'
    } else if d == 3 {
        '3'
    } else if d == 4 {
        '4'
    } else if d == 5 {
        '5'
    } else if d == 6 {
        '6'
    } else if d == 7 {
        '7'
    } else if d == 8 {
        '8'
    } else {
        '9'
    }
}

/// A number in decimal, without leading zeros.
pub open spec fn decimal(n: nat) -> Seq<char>
    decreases n,
{
    if n < 10 {
        seq![digit_char(n)]
    } else {
        decimal(n / 10).push(digit_char(n % 10))
    }
}

/// The name `name` inside the directory `base`: the two are joined by a
/// slash unless the directory is empty or ends in one.
pub open spec fn join_path(base: Seq<char>, name: Seq<char>) -> Seq<char> {
    if base.len() == 0 || base.last() == '/' {
        base + name
    } else {
        base + seq!['/'] + name
    }
}

/// The path of a file of column `id` in the rowset directory `base`: the
/// file is named by the identifier in decimal, followed by the suffix.
pub open spec fn column_path(base: Seq<char>, id: nat, suffix: Seq<char>) -> Seq<char> {
    join_path(base, decimal(id) + suffix)
}

/// The suffix of data files: `.col`.
pub open spec fn data_suffix() -> Seq<char> {
    seq!['.', 'c', 'o', 'l']
}

/// The suffix of index files: `.idx`.
pub open spec fn index_suffix() -> Seq<char> {
    seq!['.', 'i', 'd', 'x']
}

fn digit_str(d: u32) -> (s: &'static str)
    requires
        d < 10,
    ensures
        s@ == seq![digit_char(d as nat)],
{
    proof {
        reveal_strlit("0");
        reveal_strlit("1");
        reveal_strlit("2");
        reveal_strlit("3");
        reveal_strlit("4");
        reveal_strlit("5");
        reveal_strlit("6");
        reveal_strlit("7");
        reveal_strlit("8");
        reveal_strlit("9");
    }
    if d == 0 {
        "0"
    } else if d == 1 {
        "1"
    } else if d == 2 {
        "2"
    } else if d == 3 {
        "3"
    } else if d == 4 {
        "4"
    } else if d == 5 {
        "5"
    } else if d == 6 {
        "6"
    } else if d == 7 {
        "7"
    } else if d == 8 {
        "8"
    } else {
        "9"
    }
}

fn push_decimal(out: &mut String, n: u32)
    ensures
        final(out)@ == old(out)@ + decimal(n as nat),
    decreases n,
{
    if n >= 10 {
        push_decimal(out, n / 10);
    }
    out.append(digit_str(n % 10));
    assert(out@ =~= old(out)@ + decimal(n as nat));
}

/// The path of the file of a column with the given suffix.
pub fn path_of_column(base: &str, column_info: &ColumnCatalog, suffix: &str) -> (path: String)
    ensures
        path@ == column_path(base@, column_info.id as nat, suffix@),
{
    let mut path = String::from_str(base);
    let len = base.unicode_len();
    if len > 0 && base.get_char(len - 1) != '/' {
        proof {
            reveal_strlit("/");
        }
        path.append("/");
        assert(path@ =~= base@ + seq!['/']);
    }
    push_decimal(&mut path, column_info.id());
    path.append(suffix);
    assert(path@ =~= column_path(base@, column_info.id as nat, suffix@));
    path
}

/// The path of the data file of a column: `<id>.col` in the directory.
pub fn path_of_data_column(base: &str, column_info: &ColumnCatalog) -> (path: String)
    ensures
        path@ == column_path(base@, column_info.id as nat, data_suffix()),
{
    proof {
        reveal_strlit(".col");
    }
    assert(".col"@ =~= data_suffix());
    path_of_column(base, column_info, ".col")
}

/// The path of the index file of a column: `<id>.idx` in the directory.
pub fn path_of_index_column(base: &str, column_info: &ColumnCatalog) -> (path: String)
    ensures
        path@ == column_path(base@, column_info.id as nat, index_suffix()),
{
    proof {
        reveal_strlit(".idx");
    }
    assert(".idx"@ =~= index_suffix());
    path_of_column(base, column_info, ".idx")
}

/// What a rowset builder stands for: its columns, its directory, and the
/// cells that each column has taken so far.
pub struct RowsetView {
    pub columns: Seq<ColumnCatalog>,
    pub directory: Seq<char>,
    pub options: ColumnBuilderOptions,
    /// One run of cells per column, in row order.
    pub cells: Seq<Seq<Cell>>,
    pub row_count: nat,
}

impl RowsetView {
    /// The type of column `i`.
    pub open spec fn datatype(self, i: int) -> DataType {
        self.columns[i].desc.datatype
    }

    /// Every column holds as many cells as the rowset has rows, and only
    /// cells that can stand in it.
    pub open spec fn wf(self) -> bool {
        &&& self.cells.len() == self.columns.len()
        &&& self.row_count <= u32::MAX
        &&& forall|i: int|
            0 <= i < self.columns.len() ==> (#[trigger] self.cells[i]).len() == self.row_count
                && cells_ok(self.datatype(i).kind, self.datatype(i).nullable, self.cells[i])
    }

    /// The data file of column `i`.
    pub open spec fn data_file(self, i: int) -> FileView {
        FileView {
            path: column_path(self.directory, self.columns[i].id as nat, data_suffix()),
            data: column_data(self.datatype(i), self.options, self.cells[i]),
        }
    }

    /// The index of column `i`.
    pub open spec fn index(self, i: int) -> Seq<BlockIndex> {
        column_index(self.datatype(i), self.options, self.cells[i])
    }

    /// The index file of column `i`.
    pub open spec fn index_file(self, i: int) -> FileView {
        FileView {
            path: column_path(self.directory, self.columns[i].id as nat, index_suffix()),
            data: index_file(self.options.checksum_type, self.index(i)),
        }
    }

    /// Whether the two files of column `i` are sound: the index file is
    /// read back as the index, every block passes its check, the blocks
    /// decode to the cells of the column, in order, and the index accounts
    /// for every row of the rowset.
    pub open spec fn sound(self, i: int) -> bool {
        column_files_sound(self.datatype(i), self.options, self.cells[i]) && self.cells[i].len()
            == self.row_count
    }

    /// The files of the rowset in the order in which they are written:
    /// column by column, the data file before the index file.
    pub open spec fn files(self) -> Seq<FileView> {
        Seq::new(
            2 * self.columns.len(),
            |k: int|
                if k % 2 == 0 {
                    self.data_file(k / 2)
                } else {
                    self.index_file(k / 2)
                },
        )
    }
}

/// What the columns answer to the first `upto` arrays of a batch: the
/// refusal of the first column that refuses its array, if there is one.
pub open spec fn arrays_check(
    columns: Seq<ColumnCatalog>,
    arrays: Seq<ArrayImpl>,
    upto: nat,
) -> Result<(), StorageError>
    decreases upto,
{
    if upto == 0 {
        Ok(())
    } else {
        match arrays_check(columns, arrays, (upto - 1) as nat) {
            Err(e) => Err(e),
            Ok(()) => array_check(columns[upto - 1].desc.datatype, arrays[upto - 1]),
        }
    }
}

/// What a rowset answers to a batch of one array per column: the refusal
/// of the first column that refuses its array; else a refusal where the
/// rows would no longer be counted in 32 bits; else acceptance.
pub open spec fn batch_check(rowset: RowsetView, chunk: DataChunk) -> Result<(), StorageError> {
    if arrays_check(rowset.columns, chunk.arrays(), rowset.columns.len()) is Err {
        arrays_check(rowset.columns, chunk.arrays(), rowset.columns.len())
    } else if rowset.row_count + chunk.spec_cardinality() > u32::MAX {
        Err(StorageError::RowLimitExceeded)
    } else {
        Ok(())
    }
}

/// A refusal among the first arrays stays the answer when more arrays are
/// looked at.
pub proof fn lemma_arrays_check_refused(
    columns: Seq<ColumnCatalog>,
    arrays: Seq<ArrayImpl>,
    k: nat,
    m: nat,
)
    requires
        k <= m,
        arrays_check(columns, arrays, k) is Err,
    ensures
        arrays_check(columns, arrays, m) == arrays_check(columns, arrays, k),
    decreases m,
{
    if k < m {
        lemma_arrays_check_refused(columns, arrays, k, (m - 1) as nat);
    }
}

/// Where no column refuses, each column takes its array.
pub proof fn lemma_arrays_check_accepted(
    columns: Seq<ColumnCatalog>,
    arrays: Seq<ArrayImpl>,
    m: nat,
    i: int,
)
    requires
        arrays_check(columns, arrays, m) is Ok,
        0 <= i < m,
    ensures
        array_check(columns[i].desc.datatype, arrays[i]) is Ok,
    decreases m,
{
    if i < m - 1 {
        lemma_arrays_check_accepted(columns, arrays, (m - 1) as nat, i);
    }
}

/// Whether an encoder is the one of the given column, holding `rows` cells.
pub open spec fn encoder_ok(
    builder: ColumnBuilderImpl,
    column: ColumnCatalog,
    options: ColumnBuilderOptions,
    rows: nat,
) -> bool {
    &&& builder.wf()
    &&& builder.datatype() == column.desc.datatype
    &&& builder.options() == options
    &&& builder.cells().len() == rows
}

/// One new encoder per column, in the order of the columns, collected by
/// `Itertools::collect_vec` of the itertools crate. The contract claims
/// that the result holds, for each column in turn, what
/// [`ColumnBuilderImpl::new_from_datatype`] returns for the column's type
/// and the options: `collect_vec` collects every item of the iterator, in
/// the iterator's order.
#[verifier::external_body]
fn collect_builders(columns: &Vec<ColumnCatalog>, options: ColumnBuilderOptions) -> (builders:
    Vec<ColumnBuilderImpl>)
    ensures
        builders@.len() == columns@.len(),
        forall|i: int|
            0 <= i < columns@.len() ==> encoder_ok(#[trigger] builders@[i], columns@[i], options, 0),
{
    columns.iter().map(
        |column| ColumnBuilderImpl::new_from_datatype(&column.datatype(), options),
    ).collect_vec()
}

/// Builds a rowset from batches.
pub struct RowsetBuilder {
    /// Column information.
    columns: Vec<ColumnCatalog>,
    /// Column encoders, one per column.
    builders: Vec<ColumnBuilderImpl>,
    /// Output directory of the rowset.
    directory: String,
    /// Count of rows in this rowset.
    row_cnt: u32,
    /// Column builder options.
    column_options: ColumnBuilderOptions,
}

impl View for RowsetBuilder {
    type V = RowsetView;

    closed spec fn view(&self) -> RowsetView {
        RowsetView {
            columns: self.columns@,
            directory: self.directory@,
            options: self.column_options,
            cells: Seq::new(self.builders@.len(), |i: int| self.builders@[i].cells()),
            row_count: self.row_cnt as nat,
        }
    }
}

impl RowsetBuilder {
    /// The builder's invariant: each column has its encoder, and every
    /// encoder holds as many cells as the rowset has rows.
    pub closed spec fn wf(&self) -> bool {
        &&& self.builders@.len() == self.columns@.len()
        &&& forall|i: int|
            0 <= i < self.columns@.len() ==> encoder_ok(
                #[trigger] self.builders@[i],
                self.columns@[i],
                self.column_options,
                self.row_cnt as nat,
            )
    }

    /// A builder in its invariant stands for a rowset in which every
    /// column has the rowset's number of rows, all of them admissible.
    pub proof fn lemma_view_wf(&self)
        requires
            self.wf(),
        ensures
            self@.wf(),
    {
        let v = self@;
        assert forall|i: int| 0 <= i < v.columns.len() implies (#[trigger] v.cells[i]).len()
            == v.row_count && cells_ok(v.datatype(i).kind, v.datatype(i).nullable, v.cells[i]) by {
            assert(encoder_ok(
                self.builders@[i],
                self.columns@[i],
                self.column_options,
                self.row_cnt as nat,
            ));
            self.builders@[i].lemma_cells_ok();
        }
    }

    /// A builder for a rowset of the given columns in the given directory,
    /// with no rows yet.
    pub fn new(columns: Vec<ColumnCatalog>, directory: &str, column_options: ColumnBuilderOptions) -> (builder:
        RowsetBuilder)
        ensures
            builder.wf(),
            builder@.columns == columns@,
            builder@.directory == directory@,
            builder@.options == column_options,
            builder@.row_count == 0,
            builder@.cells == Seq::new(columns@.len(), |i: int| Seq::<Cell>::empty()),
    {
        let builders = collect_builders(&columns, column_options);
        let builder = RowsetBuilder {
            builders,
            directory: String::from_str(directory),
            columns,
            row_cnt: 0,
            column_options,
        };
        proof {
            assert forall|i: int| 0 <= i < columns@.len() implies (#[trigger] builder@.cells[i])
                == Seq::<Cell>::empty() by {
                assert(encoder_ok(builder.builders@[i], columns@[i], column_options, 0));
                assert(builder.builders@[i].cells() =~= Seq::<Cell>::empty());
            }
            assert(builder@.cells =~= Seq::new(columns@.len(), |i: int| Seq::<Cell>::empty()));
        }
        builder
    }

    /// Number of rows appended so far.
    pub fn row_count(&self) -> (rows: u32)
        ensures
            rows == self@.row_count,
    {
        self.row_cnt
    }

    /// Number of columns.
    pub fn column_count(&self) -> (count: usize)
        ensures
            count == self@.columns.len(),
    {
        self.columns.len()
    }

    /// Appends a batch: each column's encoder takes the array that stands
    /// at the column's position. The batch has to hold one array per
    /// column; a batch of another shape is an error of the caller. A batch
    /// that is refused leaves the builder as it was.
    pub fn append(&mut self, chunk: DataChunk) -> (result: Result<(), StorageError>)
        requires
            old(self).wf(),
            chunk.arrays().len() == old(self)@.columns.len(),
        ensures
            final(self).wf(),
            final(self)@.columns == old(self)@.columns,
            final(self)@.directory == old(self)@.directory,
            final(self)@.options == old(self)@.options,
            result == batch_check(old(self)@, chunk),
            result is Err ==> final(self)@ == old(self)@,
            result is Ok ==> {
                &&& final(self)@.row_count == old(self)@.row_count + chunk.spec_cardinality()
                &&& final(self)@.cells.len() == old(self)@.cells.len()
                &&& forall|i: int|
                    0 <= i < old(self)@.cells.len() ==> #[trigger] final(self)@.cells[i] == old(
                        self,
                    )@.cells[i] + cells_of(chunk.arrays()[i]@)
            },
    {
        let n: usize = self.columns.len();
        let mut idx: usize = 0;
        while idx < n
            invariant
                idx <= n,
                n == self.columns@.len(),
                n == chunk.arrays().len(),
                self.wf(),
                *self == *old(self),
                arrays_check(self.columns@, chunk.arrays(), idx as nat) is Ok,
            decreases n - idx,
        {
            assert(encoder_ok(
                self.builders@[idx as int],
                self.columns@[idx as int],
                self.column_options,
                self.row_cnt as nat,
            ));
            match self.builders[idx].check(chunk.array_at(idx)) {
                Err(e) => {
                    proof {
                        lemma_arrays_check_refused(
                            self.columns@,
                            chunk.arrays(),
                            (idx + 1) as nat,
                            n as nat,
                        );
                    }
                    return Err(e);
                },
                Ok(()) => {},
            }
            idx += 1;
        }
        let rows: usize = chunk.cardinality();
        if rows > (u32::MAX - self.row_cnt) as usize {
            return Err(StorageError::RowLimitExceeded);
        }
        let mut idx: usize = 0;
        while idx < n
            invariant
                idx <= n,
                n == self.columns@.len(),
                n == chunk.arrays().len(),
                n == self.builders@.len(),
                rows == chunk.spec_cardinality(),
                self.columns == old(self).columns,
                self.directory == old(self).directory,
                self.column_options == old(self).column_options,
                self.row_cnt == old(self).row_cnt,
                old(self).wf(),
                arrays_check(self.columns@, chunk.arrays(), n as nat) is Ok,
                forall|j: int|
                    0 <= j < idx ==> encoder_ok(
                        #[trigger] self.builders@[j],
                        self.columns@[j],
                        self.column_options,
                        self.row_cnt as nat + rows as nat,
                    ) && self.builders@[j].cells() == old(self).builders@[j].cells() + cells_of(
                        chunk.arrays()[j]@,
                    ),
                forall|j: int| idx <= j < n ==> #[trigger] self.builders@[j] == old(self).builders@[j],
            decreases n - idx,
        {
            let ghost before = self.builders@;
            assert(encoder_ok(
                old(self).builders@[idx as int],
                self.columns@[idx as int],
                self.column_options,
                self.row_cnt as nat,
            ));
            proof {
                lemma_arrays_check_accepted(self.columns@, chunk.arrays(), n as nat, idx as int);
            }
            let array = chunk.array_at(idx);
            let taken = self.builders[idx].append(array);
            assert(taken is Ok);
            assert forall|j: int| 0 <= j < n && j != idx implies #[trigger] self.builders@[j]
                == before[j] by {}
            idx += 1;
        }
        self.row_cnt = self.row_cnt + rows as u32;
        proof {
            assert(self@.cells.len() == old(self)@.cells.len());
            assert forall|i: int| 0 <= i < old(self)@.cells.len() implies #[trigger] self@.cells[i]
                == old(self)@.cells[i] + cells_of(chunk.arrays()[i]@) by {
                assert(self.builders@[i].cells() == old(self).builders@[i].cells() + cells_of(
                    chunk.arrays()[i]@,
                ));
            }
        }
        Ok(())
    }

    /// Closes every column and hands out the flush of the rowset: the
    /// files to write, in order, and the directory to make durable after
    /// the last of them.
    pub fn finish(self) -> (flush: RowsetFlush)
        requires
            self.wf(),
        ensures
            flush@.fresh(),
            flush@.directory == self@.directory,
            flush@.files == self@.files(),
            forall|i: int| 0 <= i < self@.columns.len() ==> #[trigger] self@.sound(i),
            forall|i: int|
                0 <= i < self@.columns.len() ==> (#[trigger] self@.data_file(i)).data.len()
                    <= u64::MAX,
    {
        let ghost view = self@;
        proof {
            self.lemma_view_wf();
        }
        let RowsetBuilder { columns, builders, directory, row_cnt, column_options } = self;
        let mut builders = builders;
        let n: usize = columns.len();
        let mut files: Vec<RowsetFile> = Vec::new();
        let mut i: usize = 0;
        while i < n
            invariant
                i <= n,
                n == columns@.len(),
                view.wf(),
                view.columns == columns@,
                view.directory == directory@,
                view.options == column_options,
                view.cells.len() == n,
                builders@.len() == n - i,
                forall|j: int|
                    i <= j < n ==> (#[trigger] builders@[j - i]).wf() && builders@[j - i].datatype()
                        == view.datatype(j) && builders@[j - i].options() == column_options
                        && builders@[j - i].cells() == view.cells[j],
                files@.len() == 2 * i,
                forall|c: int|
                    0 <= c < i ==> (#[trigger] files@[2 * c])@ == view.data_file(c) && files@[2 * c
                        + 1]@ == view.index_file(c),
                forall|c: int| 0 <= c < i ==> #[trigger] view.sound(c),
                forall|c: int| 0 <= c < i ==> (#[trigger] view.data_file(c)).data.len() <= u64::MAX,
            decreases n - i,
        {
            let ghost rest = builders@;
            assert(rest[0].wf() && rest[0].cells() == view.cells[i as int] && rest[0].datatype()
                == view.datatype(i as int) && rest[0].options() == column_options) by {
                assert(rest[i - i].wf());
            }
            let builder = builders.remove(0);
            assert forall|j: int| i + 1 <= j < n implies (#[trigger] builders@[j - (i + 1)]).wf()
                && builders@[j - (i + 1)].datatype() == view.datatype(j) && builders@[j - (i
                + 1)].options() == column_options && builders@[j - (i + 1)].cells()
                == view.cells[j] by {
                assert(builders@[j - (i + 1)] == rest[j - i]);
            }
            let ghost files_before = files@;
            let (data_file, index_file) = finish_column(
                builder,
                &columns[i],
                directory.as_str(),
                column_options,
            );
            files.push(data_file);
            files.push(index_file);
            assert(view.sound(i as int)) by {
                assert(view.cells[i as int].len() == view.row_count);
            }
            assert forall|c: int| 0 <= c < i + 1 implies (#[trigger] files@[2 * c])@
                == view.data_file(c) && files@[2 * c + 1]@ == view.index_file(c) by {
                if c < i {
                    assert(files@[2 * c] == files_before[2 * c]);
                    assert(files@[2 * c + 1] == files_before[2 * c + 1]);
                }
            }
            i += 1;
        }
        proof {
            let expected = view.files();
            assert forall|k: int| 0 <= k < 2 * n implies (#[trigger] files@[k])@ == expected[k] by {
                let c = k / 2;
                assert(files@[2 * c]@ == view.data_file(c));
                assert(files@[2 * c + 1]@ == view.index_file(c));
            }
            assert(Seq::new(files@.len(), |k: int| files@[k]@) =~= expected);
        }
        RowsetFlush::new(directory, files)
    }
}

/// The bytes of the index file with the given entries, made by an
/// [`IndexBuilder`].
fn index_file_of(checksum_type: ChecksumType, index: Vec<BlockIndex>) -> (bytes: Vec<u8>)
    requires
        offsets_increase(index@),
    ensures
        bytes@ == index_file(checksum_type, index@),
{
    let mut index_builder = IndexBuilder::new(checksum_type, index.len());
    let mut j: usize = 0;
    while j < index.len()
        invariant
            j <= index@.len(),
            index_builder.wf(),
            index_builder.checksum_type() == checksum_type,
            index_builder.entries() == index@.take(j as int),
            offsets_increase(index@),
        decreases index@.len() - j,
    {
        proof {
            if j > 0 {
                assert(index@.take(j as int).last() == index@[j - 1]);
            }
        }
        index_builder.append(index[j]);
        assert(index@.take(j + 1) =~= index@.take(j as int).push(index@[j as int]));
        j += 1;
    }
    assert(index@.take(index@.len() as int) =~= index@);
    index_builder.finish()
}

/// Closes the encoder of a column and makes the two files of the column.
fn finish_column(
    builder: ColumnBuilderImpl,
    column: &ColumnCatalog,
    directory: &str,
    options: ColumnBuilderOptions,
) -> (files: (RowsetFile, RowsetFile))
    requires
        builder.wf(),
        builder.options() == options,
    ensures
        files.0@ == (FileView {
            path: column_path(directory@, column.id as nat, data_suffix()),
            data: column_data(builder.datatype(), options, builder.cells()),
        }),
        files.1@ == (FileView {
            path: column_path(directory@, column.id as nat, index_suffix()),
            data: index_file(
                options.checksum_type,
                column_index(builder.datatype(), options, builder.cells()),
            ),
        }),
        column_files_sound(builder.datatype(), options, builder.cells()),
        column_data(builder.datatype(), options, builder.cells()).len() <= u64::MAX,
{
    let (index, data) = builder.finish();
    proof {
        assert(data@.len() == data.len());
        builder.lemma_cells_ok();
        lemma_column_roundtrip(builder.datatype(), options, builder.cells());
        lemma_column_files_sound(builder.datatype(), options, builder.cells());
    }
    let index_bytes = index_file_of(options.checksum_type, index);
    (
        RowsetFile { path: path_of_data_column(directory, column), data },
        RowsetFile { path: path_of_index_column(directory, column), data: index_bytes },
    )
}

/// Row-count consistency of a rowset: in every column the row counts of
/// the index entries add up to the number of rows that were appended to
/// the builder, so the sum is the same in all columns.
pub proof fn lemma_rowset_row_counts(rowset: RowsetView, i: int)
    requires
        rowset.wf(),
        0 <= i < rowset.columns.len(),
        rowset.data_file(i).data.len() <= u64::MAX,
    ensures
        total_rows(rowset.index(i)) == rowset.row_count,
{
    lemma_column_row_count(rowset.datatype(i), rowset.options, rowset.cells[i]);
}

/// The cells of two runs of values, one after the other, are the cells of
/// the values of both: appending batch after batch gathers the cells of all
/// their values, in order.
pub proof fn lemma_cells_of_concat(a: Seq<Datum>, b: Seq<Datum>)
    ensures
        cells_of(a + b) == cells_of(a) + cells_of(b),
{
    assert(cells_of(a + b) =~= cells_of(a) + cells_of(b));
}

/// Round trip of a rowset: when the cells of a column are those of the
/// values `values`, reading the two files of the column with the rowset's
/// checksum algorithm gives back exactly `values`: every value and every
/// null, in the order of the rows.
pub proof fn lemma_rowset_roundtrip(rowset: RowsetView, i: int, values: Seq<Datum>)
    requires
        rowset.wf(),
        0 <= i < rowset.columns.len(),
        rowset.cells[i] == cells_of(values),
        forall|j: int| 0 <= j < values.len() ==> (#[trigger] values[j]).fits(rowset.datatype(i).kind),
        rowset.data_file(i).data.len() <= u64::MAX,
    ensures
        read_column_spec(
            rowset.datatype(i),
            rowset.options.checksum_type,
            rowset.index_file(i).data,
            rowset.data_file(i).data,
        ) == Ok::<Seq<Datum>, StorageError>(values),
{
    lemma_read_roundtrip(rowset.datatype(i), rowset.options, values);
}

/// Checksum sensitivity of a rowset: when one byte of the data file of a
/// column is changed and the checksum is enabled, the block that covers
/// the byte fails its check, and every other block of the column passes.
pub proof fn lemma_rowset_detects_byte_change(rowset: RowsetView, i: int, p: int, x: u8, k: int)
    requires
        rowset.wf(),
        rowset.options.checksum_type != ChecksumType::Disabled,
        0 <= i < rowset.columns.len(),
        rowset.data_file(i).data.len() <= u64::MAX,
        0 <= p < rowset.data_file(i).data.len(),
        x != rowset.data_file(i).data[p],
        0 <= k < rowset.index(i).len(),
    ensures
        ({
            let entry = rowset.index(i)[k];
            let covers = entry.offset <= p < entry.offset + entry.length;
            block_intact(
                rowset.options.checksum_type,
                entry,
                rowset.data_file(i).data.update(p, x),
            ) == !covers
        }),
{
    lemma_column_detects_byte_change(
        rowset.datatype(i),
        rowset.options,
        rowset.cells[i],
        p,
        x,
        k,
    );
}

/// A rowset without rows: every data file is empty, and every index file
/// is a header that counts no entries.
pub proof fn lemma_empty_rowset(rowset: RowsetView, i: int)
    requires
        rowset.wf(),
        rowset.row_count == 0,
        0 <= i < rowset.columns.len(),
    ensures
        rowset.data_file(i).data == Seq::<u8>::empty(),
        rowset.index(i) == Seq::<BlockIndex>::empty(),
        rowset.index_file(i).data == index_header(rowset.options.checksum_type, 0),
{
    assert(rowset.cells[i] =~= Seq::<Cell>::empty());
    lemma_empty_column(rowset.datatype(i), rowset.options);
    assert(rowset.index_file(i).data =~= index_header(rowset.options.checksum_type, 0));
}

} // verus!
