//! Logical types and column descriptors, as the catalog hands them over.

use vstd::prelude::*;

verus! {

/// Identifier of a column, stable for the life of its table.
pub type ColumnId = u32;

/// The logical types that a column can have.
#[derive(Clone, Copy, Debug, PartialEq, Eq, Structural)]
pub enum DataTypeKind {
    /// Truth values, one byte each.
    Boolean,
    /// 32-bit signed integers.
    Int,
    /// 64-bit signed integers.
    BigInt,
    /// 64-bit IEEE 754 numbers, carried as their bit patterns.
    Double,
    /// Byte strings of any length.
    Blob,
}

impl DataTypeKind {
    /// Bytes per value of a fixed-width type; `None` for variable length.
    pub open spec fn spec_fixed_width(self) -> Option<nat> {
        match self {
            DataTypeKind::Boolean => Some(1),
            DataTypeKind::Int => Some(4),
            DataTypeKind::BigInt => Some(8),
            DataTypeKind::Double => Some(8),
            DataTypeKind::Blob => None,
        }
    }

    /// Bytes per value of a fixed-width type; `None` for variable length.
    pub fn fixed_width(self) -> (width: Option<usize>)
        ensures
            match width {
                Some(w) => self.spec_fixed_width() == Some(w as nat),
                None => self.spec_fixed_width() is None,
            },
    {
        match self {
            DataTypeKind::Boolean => Some(1),
            DataTypeKind::Int => Some(4),
            DataTypeKind::BigInt => Some(8),
            DataTypeKind::Double => Some(8),
            DataTypeKind::Blob => None,
        }
    }

    /// The type of this kind that admits nulls.
    pub fn nullable(self) -> (datatype: DataType)
        ensures
            datatype == (DataType { kind: self, nullable: true }),
    {
        DataType { kind: self, nullable: true }
    }

    /// The type of this kind that admits no nulls.
    pub fn not_null(self) -> (datatype: DataType)
        ensures
            datatype == (DataType { kind: self, nullable: false }),
    {
        DataType { kind: self, nullable: false }
    }
}

/// A logical type together with its nullability.
#[derive(Clone, Copy, Debug, PartialEq, Eq, Structural)]
pub struct DataType {
    pub kind: DataTypeKind,
    pub nullable: bool,
}

impl DataType {
    /// The type of the given kind and nullability.
    pub fn new(kind: DataTypeKind, nullable: bool) -> (datatype: DataType)
        ensures
            datatype == (DataType { kind, nullable }),
    {
        DataType { kind, nullable }
    }

    /// The logical type.
    pub fn kind(&self) -> (kind: DataTypeKind)
        ensures
            kind == self.kind,
    {
        self.kind
    }

    /// Whether the type admits nulls.
    pub fn is_nullable(&self) -> (nullable: bool)
        ensures
            nullable == self.nullable,
    {
        self.nullable
    }

    /// A column of this type under the given name.
    pub fn to_column(self, name: String) -> (desc: ColumnDesc)
        ensures
            desc.datatype == self,
            desc.name == name,
            !desc.is_primary,
    {
        ColumnDesc { datatype: self, name, is_primary: false }
    }

    /// A primary-key column of this type under the given name.
    pub fn to_column_primary_key(self, name: String) -> (desc: ColumnDesc)
        ensures
            desc.datatype == self,
            desc.name == name,
            desc.is_primary,
    {
        ColumnDesc { datatype: self, name, is_primary: true }
    }
}

/// What the catalog knows of a column besides its identifier.
#[derive(Clone, Debug, PartialEq, Eq)]
pub struct ColumnDesc {
    pub datatype: DataType,
    pub name: String,
    pub is_primary: bool,
}

/// A column as the catalog assigned it: identifier and description.
#[derive(Clone, Debug, PartialEq, Eq)]
pub struct ColumnCatalog {
    pub id: ColumnId,
    pub desc: ColumnDesc,
}

impl ColumnCatalog {
    /// The column with the given identifier and description.
    pub fn new(id: ColumnId, desc: ColumnDesc) -> (column: ColumnCatalog)
        ensures
            column.id == id,
            column.desc == desc,
    {
        ColumnCatalog { id, desc }
    }

    /// The identifier of the column.
    pub fn id(&self) -> (id: ColumnId)
        ensures
            id == self.id,
    {
        self.id
    }

    /// The type of the column.
    pub fn datatype(&self) -> (datatype: DataType)
        ensures
            datatype == self.desc.datatype,
    {
        self.desc.datatype
    }

    /// Whether the column belongs to the primary key.
    pub fn is_primary(&self) -> (primary: bool)
        ensures
            primary == self.desc.is_primary,
    {
        self.desc.is_primary
    }

    /// Whether the column admits nulls.
    pub fn is_nullable(&self) -> (nullable: bool)
        ensures
            nullable == self.desc.datatype.nullable,
    {
        self.desc.datatype.nullable
    }
}

} // verus!
