use risinglight::array::ArrayImpl;
use risinglight::binder::DataValue;
use risinglight::types::{ColumnCatalog, DataType, DataTypeKind};

#[test]
fn test_data_types() {
    assert_eq!(DataTypeKind::Boolean.fixed_width(), Some(1));
    assert_eq!(DataTypeKind::Int.fixed_width(), Some(4));
    assert_eq!(DataTypeKind::BigInt.fixed_width(), Some(8));
    assert_eq!(DataTypeKind::Double.fixed_width(), Some(8));
    assert_eq!(DataTypeKind::Blob.fixed_width(), None);
    let nullable = DataTypeKind::Int.nullable();
    assert_eq!(nullable, DataType::new(DataTypeKind::Int, true));
    assert_eq!(nullable.kind(), DataTypeKind::Int);
    assert!(nullable.is_nullable());
    assert!(!DataTypeKind::Blob.not_null().is_nullable());
}

#[test]
fn test_column_catalog() {
    let column = ColumnCatalog::new(
        5,
        DataTypeKind::BigInt.not_null().to_column_primary_key("id".to_string()),
    );
    assert_eq!(column.id(), 5);
    assert_eq!(column.datatype(), DataType::new(DataTypeKind::BigInt, false));
    assert!(column.is_primary());
    assert!(!column.is_nullable());
    assert_eq!(column.desc.name, "id");
    let other = ColumnCatalog::new(6, DataTypeKind::Blob.nullable().to_column("b".to_string()));
    assert!(!other.is_primary());
    assert!(other.is_nullable());
}

#[test]
fn test_arrays() {
    let array = ArrayImpl::Float64(vec![Some(2.5f64.to_bits()), None]);
    assert_eq!(array.kind(), DataTypeKind::Double);
    assert_eq!(array.len(), 2);
    assert!(!array.is_null(0));
    assert!(array.is_null(1));
    for kind in [
        DataTypeKind::Boolean,
        DataTypeKind::Int,
        DataTypeKind::BigInt,
        DataTypeKind::Double,
        DataTypeKind::Blob,
    ] {
        let empty = ArrayImpl::new_empty(kind);
        assert_eq!(empty.kind(), kind);
        assert_eq!(empty.len(), 0);
    }
    assert!(ArrayImpl::Blob(vec![None]).is_null(0));
    assert!(!ArrayImpl::Bool(vec![Some(false)]).is_null(0));
}

#[test]
fn test_constant_types() {
    assert_eq!(DataValue::Null.datatype(), None);
    assert_eq!(DataValue::Int32(1).datatype(), Some(DataType::new(DataTypeKind::Int, false)));
    assert_eq!(DataValue::Int64(1).datatype(), Some(DataType::new(DataTypeKind::BigInt, false)));
}
