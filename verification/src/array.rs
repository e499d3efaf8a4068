//! Column arrays and batches, the input of the write path.

use crate::error::StorageError;
use crate::types::DataTypeKind;
use vstd::prelude::*;

verus! {

/// One value of a column, as the contracts see it.
pub enum Datum {
    Null,
    Bool(bool),
    Int32(i32),
    Int64(i64),
    /// The bit pattern of a 64-bit IEEE 754 number.
    Float64(u64),
    Blob(Seq<u8>),
}

/// The values of one column in one batch.
#[derive(Clone, Debug, PartialEq, Eq)]
pub enum ArrayImpl {
    Bool(Vec<Option<bool>>),
    Int32(Vec<Option<i32>>),
    Int64(Vec<Option<i64>>),
    /// Bit patterns of 64-bit IEEE 754 numbers.
    Float64(Vec<Option<u64>>),
    Blob(Vec<Option<Vec<u8>>>),
}

pub open spec fn bool_datum(v: Option<bool>) -> Datum {
    match v {
        Some(b) => Datum::Bool(b),
        None => Datum::Null,
    }
}

pub open spec fn int32_datum(v: Option<i32>) -> Datum {
    match v {
        Some(x) => Datum::Int32(x),
        None => Datum::Null,
    }
}

pub open spec fn int64_datum(v: Option<i64>) -> Datum {
    match v {
        Some(x) => Datum::Int64(x),
        None => Datum::Null,
    }
}

pub open spec fn float64_datum(v: Option<u64>) -> Datum {
    match v {
        Some(x) => Datum::Float64(x),
        None => Datum::Null,
    }
}

pub open spec fn blob_datum(v: Option<Vec<u8>>) -> Datum {
    match v {
        Some(x) => Datum::Blob(x@),
        None => Datum::Null,
    }
}

impl View for ArrayImpl {
    type V = Seq<Datum>;

    /// The values of the array in row order.
    open spec fn view(&self) -> Seq<Datum> {
        match self {
            ArrayImpl::Bool(v) => Seq::new(v@.len(), |i: int| bool_datum(v@[i])),
            ArrayImpl::Int32(v) => Seq::new(v@.len(), |i: int| int32_datum(v@[i])),
            ArrayImpl::Int64(v) => Seq::new(v@.len(), |i: int| int64_datum(v@[i])),
            ArrayImpl::Float64(v) => Seq::new(v@.len(), |i: int| float64_datum(v@[i])),
            ArrayImpl::Blob(v) => Seq::new(v@.len(), |i: int| blob_datum(v@[i])),
        }
    }
}

impl Datum {
    /// Whether the value is a null or a value of logical type `kind`.
    pub open spec fn fits(self, kind: DataTypeKind) -> bool {
        match self {
            Datum::Null => true,
            Datum::Bool(_) => kind == DataTypeKind::Boolean,
            Datum::Int32(_) => kind == DataTypeKind::Int,
            Datum::Int64(_) => kind == DataTypeKind::BigInt,
            Datum::Float64(_) => kind == DataTypeKind::Double,
            Datum::Blob(_) => kind == DataTypeKind::Blob,
        }
    }
}

impl ArrayImpl {
    /// The logical type of the values.
    pub open spec fn spec_kind(&self) -> DataTypeKind {
        match self {
            ArrayImpl::Bool(_) => DataTypeKind::Boolean,
            ArrayImpl::Int32(_) => DataTypeKind::Int,
            ArrayImpl::Int64(_) => DataTypeKind::BigInt,
            ArrayImpl::Float64(_) => DataTypeKind::Double,
            ArrayImpl::Blob(_) => DataTypeKind::Blob,
        }
    }

    /// The logical type of the values.
    pub fn kind(&self) -> (kind: DataTypeKind)
        ensures
            kind == self.spec_kind(),
    {
        match self {
            ArrayImpl::Bool(_) => DataTypeKind::Boolean,
            ArrayImpl::Int32(_) => DataTypeKind::Int,
            ArrayImpl::Int64(_) => DataTypeKind::BigInt,
            ArrayImpl::Float64(_) => DataTypeKind::Double,
            ArrayImpl::Blob(_) => DataTypeKind::Blob,
        }
    }

    /// An array of the given type without rows.
    pub fn new_empty(kind: DataTypeKind) -> (array: ArrayImpl)
        ensures
            array.spec_kind() == kind,
            array@ == Seq::<Datum>::empty(),
    {
        let array = match kind {
            DataTypeKind::Boolean => ArrayImpl::Bool(Vec::new()),
            DataTypeKind::Int => ArrayImpl::Int32(Vec::new()),
            DataTypeKind::BigInt => ArrayImpl::Int64(Vec::new()),
            DataTypeKind::Double => ArrayImpl::Float64(Vec::new()),
            DataTypeKind::Blob => ArrayImpl::Blob(Vec::new()),
        };
        assert(array@ =~= Seq::<Datum>::empty());
        array
    }

    /// Number of rows.
    pub fn len(&self) -> (len: usize)
        ensures
            len == self@.len(),
    {
        match self {
            ArrayImpl::Bool(v) => v.len(),
            ArrayImpl::Int32(v) => v.len(),
            ArrayImpl::Int64(v) => v.len(),
            ArrayImpl::Float64(v) => v.len(),
            ArrayImpl::Blob(v) => v.len(),
        }
    }

    /// Whether row `i` is null.
    pub fn is_null(&self, i: usize) -> (null: bool)
        requires
            i < self@.len(),
        ensures
            null == (self@[i as int] is Null),
    {
        match self {
            ArrayImpl::Bool(v) => v[i].is_none(),
            ArrayImpl::Int32(v) => v[i].is_none(),
            ArrayImpl::Int64(v) => v[i].is_none(),
            ArrayImpl::Float64(v) => v[i].is_none(),
            ArrayImpl::Blob(v) => v[i].is_none(),
        }
    }

    /// Every value of an array is a null or a value of the array's type.
    pub proof fn lemma_values_fit(&self)
        ensures
            forall|i: int| 0 <= i < self@.len() ==> (#[trigger] self@[i]).fits(self.spec_kind()),
    {
    }
}

/// A batch: one array per column, all of one length.
#[derive(Debug)]
pub struct DataChunk {
    arrays: Vec<ArrayImpl>,
}

impl DataChunk {
    #[verifier::type_invariant]
    spec fn aligned(self) -> bool {
        forall|i: int|
            0 <= i < self.arrays@.len() ==> (#[trigger] self.arrays@[i])@.len()
                == self.arrays@[0]@.len()
    }

    /// The arrays of the batch in column order.
    pub closed spec fn arrays(&self) -> Seq<ArrayImpl> {
        self.arrays@
    }

    /// Number of rows of the batch: the length of each of its arrays.
    pub open spec fn spec_cardinality(&self) -> nat {
        if self.arrays().len() == 0 {
            0
        } else {
            self.arrays()[0]@.len()
        }
    }

    /// Makes a batch of the arrays, which have to agree in length.
    pub fn from_arrays(arrays: Vec<ArrayImpl>) -> (result: Result<DataChunk, StorageError>)
        ensures
            match result {
                Ok(chunk) => {
                    &&& chunk.arrays() == arrays@
                    &&& forall|i: int|
                        0 <= i < arrays@.len() ==> (#[trigger] arrays@[i])@.len()
                            == chunk.spec_cardinality()
                },
                Err(e) => {
                    &&& e == StorageError::ShapeMismatch
                    &&& exists|i: int|
                        0 <= i < arrays@.len() && (#[trigger] arrays@[i])@.len() != arrays@[0]@.len()
                },
            },
    {
        let mut i: usize = 0;
        while i < arrays.len()
            invariant
                i <= arrays@.len(),
                forall|j: int| 0 <= j < i ==> (#[trigger] arrays@[j])@.len() == arrays@[0]@.len(),
            decreases arrays@.len() - i,
        {
            if arrays[i].len() != arrays[0].len() {
                return Err(StorageError::ShapeMismatch);
            }
            i += 1;
        }
        Ok(DataChunk { arrays })
    }

    /// Number of rows.
    pub fn cardinality(&self) -> (rows: usize)
        ensures
            rows == self.spec_cardinality(),
    {
        if self.arrays.len() == 0 {
            0
        } else {
            self.arrays[0].len()
        }
    }

    /// Number of columns.
    pub fn column_count(&self) -> (count: usize)
        ensures
            count == self.arrays().len(),
    {
        self.arrays.len()
    }

    /// The array of column `idx`.
    pub fn array_at(&self, idx: usize) -> (array: &ArrayImpl)
        requires
            idx < self.arrays().len(),
        ensures
            *array == self.arrays()[idx as int],
            array@.len() == self.spec_cardinality(),
    {
        proof {
            use_type_invariant(self);
        }
        &self.arrays[idx]
    }
}

} // verus!
