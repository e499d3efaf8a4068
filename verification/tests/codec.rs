use risinglight::checksum::ChecksumType;
use risinglight::codec::{push_bitmap, push_le, read_bit, read_le};
use risinglight::column_builder::{ColumnBuilderImpl, ColumnBuilderOptions};
use risinglight::array::ArrayImpl;
use risinglight::error::StorageError;
use risinglight::index_builder::{BlockIndex, IndexBuilder};
use risinglight::reader::parse_index;
use risinglight::types::DataTypeKind;

#[test]
fn test_crc32_check_values() {
    assert_eq!(ChecksumType::Crc32.checksum(b"123456789"), 0xCBF4_3926);
    assert_eq!(ChecksumType::Crc32.checksum(b""), 0);
    assert_eq!(ChecksumType::Crc32.checksum(b"a"), 0xE8B7_BE43);
    assert_eq!(
        ChecksumType::Crc32.checksum(b"The quick brown fox jumps over the lazy dog"),
        0x414F_A339
    );
}

#[test]
fn test_crc64_check_values() {
    assert_eq!(ChecksumType::Crc64.checksum(b"123456789"), 0x995D_C9BB_DF19_39FA);
    assert_eq!(ChecksumType::Crc64.checksum(b""), 0);
}

#[test]
fn test_disabled_checksum_is_zero() {
    assert_eq!(ChecksumType::Disabled.checksum(b"123456789"), 0);
    assert_eq!(ChecksumType::Disabled.checksum_range(b"123456789", 2, 5), 0);
}

#[test]
fn test_checksum_range() {
    let bytes = b"xx123456789yyy";
    assert_eq!(ChecksumType::Crc32.checksum_range(bytes, 2, 11), 0xCBF4_3926);
    assert_eq!(ChecksumType::Crc64.checksum_range(bytes, 2, 11), 0x995D_C9BB_DF19_39FA);
    assert_eq!(ChecksumType::Crc32.checksum_range(bytes, 4, 4), 0);
}

#[test]
fn test_checksum_ids() {
    for kind in [ChecksumType::Disabled, ChecksumType::Crc32, ChecksumType::Crc64] {
        assert_eq!(ChecksumType::from_id(kind.id()), Some(kind));
    }
    assert_eq!(ChecksumType::Disabled.id(), 0);
    assert_eq!(ChecksumType::Crc32.id(), 1);
    assert_eq!(ChecksumType::Crc64.id(), 2);
    assert_eq!(ChecksumType::from_id(3), None);
    assert_eq!(ChecksumType::from_id(255), None);
}

#[test]
fn test_single_byte_changes_change_the_checksum() {
    let bytes: Vec<u8> = (0..64).map(|i| (i * 37 + 11) as u8).collect();
    for kind in [ChecksumType::Crc32, ChecksumType::Crc64] {
        let sum = kind.checksum(&bytes);
        for position in 0..bytes.len() {
            for value in 0..=255u8 {
                if value != bytes[position] {
                    let mut changed = bytes.clone();
                    changed[position] = value;
                    assert_ne!(kind.checksum(&changed), sum);
                }
            }
        }
    }
}

#[test]
fn test_little_endian() {
    let mut buf = vec![0xaa];
    push_le(&mut buf, 0x0102_0304_0506_0708, 8);
    push_le(&mut buf, 0x0102_0304_0506_0708, 4);
    push_le(&mut buf, 0x1ff, 1);
    push_le(&mut buf, 5, 0);
    assert_eq!(buf, vec![0xaa, 8, 7, 6, 5, 4, 3, 2, 1, 8, 7, 6, 5, 0xff]);
    assert_eq!(read_le(&buf, 1, 8), 0x0102_0304_0506_0708);
    assert_eq!(read_le(&buf, 9, 4), 0x0506_0708);
    assert_eq!(read_le(&buf, 13, 1), 0xff);
    assert_eq!(read_le(&buf, 3, 0), 0);
    assert_eq!(read_le(&[0xff; 8], 0, 8), u64::MAX);
}

#[test]
fn test_bitmap() {
    let flags = vec![true, false, false, true, false, false, false, false, true, true];
    let mut out = vec![7];
    push_bitmap(&mut out, &flags);
    assert_eq!(out, vec![7, 0b0000_1001, 0b0000_0011]);
    for (i, flag) in flags.iter().enumerate() {
        assert_eq!(read_bit(&out, 1, i), *flag);
    }
    let mut empty = Vec::new();
    push_bitmap(&mut empty, &Vec::new());
    assert!(empty.is_empty());
    let mut full = Vec::new();
    push_bitmap(&mut full, &vec![true; 8]);
    assert_eq!(full, vec![0xff]);
}

#[test]
fn test_index_builder() {
    let mut builder = IndexBuilder::new(ChecksumType::Crc64, 2);
    let first = BlockIndex { offset: 0, length: 0x0102_0304, row_count: 7, checksum: 0x1122_3344_5566_7788 };
    let second = BlockIndex { offset: 0x0102_0304, length: 1, row_count: u32::MAX, checksum: 0 };
    let third = BlockIndex { offset: u64::MAX, length: u32::MAX, row_count: 0, checksum: u64::MAX };
    builder.append(first);
    builder.append(second);
    builder.append(third);
    let bytes = builder.finish();
    assert_eq!(bytes.len(), 10 + 3 * 24);
    assert_eq!(&bytes[..10], &[1, 2, 3, 0, 0, 0, 0, 0, 0, 0]);
    assert_eq!(
        &bytes[10..34],
        &[
            0, 0, 0, 0, 0, 0, 0, 0, 4, 3, 2, 1, 7, 0, 0, 0, 0x88, 0x77, 0x66, 0x55, 0x44, 0x33,
            0x22, 0x11
        ]
    );
    let (checksum, index) = parse_index(&bytes).unwrap();
    assert_eq!(checksum, ChecksumType::Crc64);
    assert_eq!(index, vec![first, second, third]);
    let empty = IndexBuilder::new(ChecksumType::Disabled, usize::MAX).finish();
    assert_eq!(empty, vec![1, 0, 0, 0, 0, 0, 0, 0, 0, 0]);
}

#[test]
fn test_column_builder_blocks() {
    let options = ColumnBuilderOptions { target_block_size: 16, checksum_type: ChecksumType::Crc32 };
    let mut builder = ColumnBuilderImpl::new_from_datatype(&DataTypeKind::BigInt.not_null(), options);
    assert_eq!(builder.append(&ArrayImpl::Int64(vec![Some(1), Some(-2), Some(3)])), Ok(()));
    assert_eq!(builder.append(&ArrayImpl::Int64(vec![])), Ok(()));
    assert_eq!(builder.append(&ArrayImpl::Int64(vec![Some(4), Some(5)])), Ok(()));
    assert_eq!(builder.append(&ArrayImpl::Int32(vec![Some(4)])), Err(StorageError::ShapeMismatch));
    assert_eq!(builder.append(&ArrayImpl::Int64(vec![None])), Err(StorageError::ShapeMismatch));
    let (index, data) = builder.finish();
    assert_eq!(data.len(), 40);
    assert_eq!(&data[8..16], &[0xfe, 0xff, 0xff, 0xff, 0xff, 0xff, 0xff, 0xff]);
    assert_eq!(index.len(), 3);
    assert_eq!(
        index[0],
        BlockIndex { offset: 0, length: 16, row_count: 2, checksum: ChecksumType::Crc32.checksum(&data[0..16]) }
    );
    assert_eq!(
        index[1],
        BlockIndex { offset: 16, length: 16, row_count: 2, checksum: ChecksumType::Crc32.checksum(&data[16..32]) }
    );
    assert_eq!(
        index[2],
        BlockIndex { offset: 32, length: 8, row_count: 1, checksum: ChecksumType::Crc32.checksum(&data[32..40]) }
    );
}

#[test]
fn test_block_sizes() {
    // with a block size of zero every row is a block of its own
    let zero = ColumnBuilderOptions { target_block_size: 0, checksum_type: ChecksumType::Disabled };
    let mut builder = ColumnBuilderImpl::new_from_datatype(&DataTypeKind::Boolean.nullable(), zero);
    builder.append(&ArrayImpl::Bool(vec![Some(true), None, Some(false)])).unwrap();
    let (index, data) = builder.finish();
    assert_eq!(data, vec![1, 1, 0, 0, 1, 0]);
    assert_eq!(index.len(), 3);
    assert_eq!(index[2].offset, 4);

    // the largest block size is taken as it is: a block is closed by its
    // number of rows alone
    let huge = ColumnBuilderOptions { target_block_size: usize::MAX, checksum_type: ChecksumType::Disabled };
    let mut builder = ColumnBuilderImpl::new_from_datatype(&DataTypeKind::Boolean.not_null(), huge);
    builder.append(&ArrayImpl::Bool(vec![Some(true); 0x10_0000 + 1])).unwrap();
    let (index, data) = builder.finish();
    assert_eq!(data.len(), 0x10_0000 + 1);
    assert_eq!(index.len(), 2);
    assert_eq!(index[0], BlockIndex { offset: 0, length: 0x10_0000, row_count: 0x10_0000, checksum: 0 });
    assert_eq!(index[1], BlockIndex { offset: 0x10_0000, length: 1, row_count: 1, checksum: 0 });

    // a block size above 16 MiB is kept too
    let large = ColumnBuilderOptions { target_block_size: 0x100_0001, checksum_type: ChecksumType::Disabled };
    let mut builder = ColumnBuilderImpl::new_from_datatype(&DataTypeKind::Blob.not_null(), large);
    builder
        .append(&ArrayImpl::Blob(vec![Some(vec![1u8; 0x100_0000]), Some(vec![2u8]), Some(vec![3u8])]))
        .unwrap();
    let (index, _) = builder.finish();
    assert_eq!(index.len(), 2);
    assert_eq!(index[0].row_count, 2);
    assert_eq!(index[0].length, 8 + 0x100_0001);
    assert_eq!(index[1].row_count, 1);
}
