use std::collections::HashMap;

use risinglight::array::{ArrayImpl, DataChunk};
use risinglight::checksum::ChecksumType;
use risinglight::column_builder::ColumnBuilderOptions;
use risinglight::error::StorageError;
use risinglight::flush::{FlushAction, FlushStatus, IoOutcome, RowsetFlush};
use risinglight::reader::{parse_index, read_column, verify_block};
use risinglight::rowset_builder::{
    path_of_column, path_of_data_column, path_of_index_column, RowsetBuilder,
};
use risinglight::types::{ColumnCatalog, DataType, DataTypeKind};

/// A directory in memory with exclusive creation.
struct MemoryDirectory {
    files: HashMap<String, Vec<u8>>,
    synced: Vec<String>,
}

impl MemoryDirectory {
    fn new() -> Self {
        MemoryDirectory { files: HashMap::new(), synced: Vec::new() }
    }

    fn perform(&mut self, action: &FlushAction<'_>) -> IoOutcome {
        match action {
            FlushAction::WriteFile(file) => {
                if self.files.contains_key(&file.path) {
                    IoOutcome::AlreadyExists
                } else {
                    self.files.insert(file.path.clone(), file.data.clone());
                    IoOutcome::Done
                }
            }
            FlushAction::SyncDirectory(path) => {
                self.synced.push(path.to_string());
                IoOutcome::Done
            }
            FlushAction::Finished(_) => IoOutcome::Done,
        }
    }

    fn run(&mut self, flush: &mut RowsetFlush) -> Result<(), StorageError> {
        loop {
            let outcome = match flush.next_action() {
                FlushAction::Finished(result) => return result,
                action => self.perform(&action),
            };
            flush.record(outcome);
        }
    }
}

fn int_column(id: u32, nullable: bool) -> ColumnCatalog {
    ColumnCatalog::new(id, DataType::new(DataTypeKind::Int, nullable).to_column("v1".to_string()))
}

fn chunk(arrays: Vec<ArrayImpl>) -> DataChunk {
    DataChunk::from_arrays(arrays).unwrap()
}

#[test]
fn test_rowset_flush() {
    let mut builder = RowsetBuilder::new(
        vec![ColumnCatalog::new(
            0,
            DataTypeKind::Int.nullable().to_column("v1".to_string()),
        )],
        "rowset",
        ColumnBuilderOptions::default_for_test(),
    );
    for _ in 0..1000 {
        let values: Vec<Option<i32>> = [1, 2, 3].into_iter().cycle().take(1000).map(Some).collect();
        builder.append(chunk(vec![ArrayImpl::Int32(values)])).unwrap();
    }
    assert_eq!(builder.row_count(), 1_000_000);
    let mut flush = builder.finish();
    let mut dir = MemoryDirectory::new();
    assert_eq!(dir.run(&mut flush), Ok(()));
    assert_eq!(flush.status(), FlushStatus::Completed);
    assert_eq!(dir.synced, vec!["rowset".to_string()]);
    assert_eq!(dir.files.len(), 2);

    let data = &dir.files["rowset/0.col"];
    let index_bytes = &dir.files["rowset/0.idx"];
    let (checksum, index) = parse_index(index_bytes).unwrap();
    assert_eq!(checksum, ChecksumType::Crc32);
    let rows: u64 = index.iter().map(|entry| entry.row_count as u64).sum();
    assert_eq!(rows, 1_000_000);
    // 4096 bytes of values close a block: 1024 rows of four bytes each.
    assert_eq!(index.len(), 977);
    assert_eq!(index[0].row_count, 1024);
    assert_eq!(index[0].length, 128 + 4096);
    assert_eq!(index[976].row_count, 1_000_000 - 976 * 1024);

    let array = read_column(
        &DataTypeKind::Int.nullable(),
        ChecksumType::Crc32,
        index_bytes,
        data,
    )
    .unwrap();
    match array {
        ArrayImpl::Int32(values) => {
            assert_eq!(values.len(), 1_000_000);
            for (i, value) in values.iter().enumerate() {
                assert_eq!(*value, Some([1, 2, 3][(i % 1000) % 3]));
            }
        }
        other => panic!("unexpected array {:?}", other.kind()),
    }
}

#[test]
fn test_empty_rowset() {
    let builder = RowsetBuilder::new(
        vec![int_column(7, true)],
        "empty",
        ColumnBuilderOptions::default_for_test(),
    );
    assert_eq!(builder.row_count(), 0);
    let mut flush = builder.finish();
    assert_eq!(flush.file_count(), 2);
    let mut dir = MemoryDirectory::new();
    assert_eq!(dir.run(&mut flush), Ok(()));
    assert_eq!(dir.files["empty/7.col"], Vec::<u8>::new());
    // Version 1, CRC-32, no entries.
    assert_eq!(dir.files["empty/7.idx"], vec![1, 1, 0, 0, 0, 0, 0, 0, 0, 0]);
    let array = read_column(
        &DataTypeKind::Int.nullable(),
        ChecksumType::Crc32,
        &dir.files["empty/7.idx"],
        &dir.files["empty/7.col"],
    )
    .unwrap();
    assert_eq!(array.len(), 0);
}

#[test]
fn test_exact_bytes_of_small_rowset() {
    let mut builder = RowsetBuilder::new(
        vec![int_column(3, true)],
        "",
        ColumnBuilderOptions { target_block_size: 8, checksum_type: ChecksumType::Disabled },
    );
    builder
        .append(chunk(vec![ArrayImpl::Int32(vec![Some(1), None, Some(-1)])]))
        .unwrap();
    let flush = builder.finish();
    assert_eq!(flush.file(0).path, "3.col");
    assert_eq!(flush.file(1).path, "3.idx");
    // First block: rows 1 and null (bitmap 0b01), closed at eight bytes of
    // values. Second block: row -1 (bitmap 0b1).
    assert_eq!(
        flush.file(0).data,
        vec![0b01, 1, 0, 0, 0, 0, 0, 0, 0, 0b1, 0xff, 0xff, 0xff, 0xff]
    );
    let mut expected = vec![1u8, 0, 2, 0, 0, 0, 0, 0, 0, 0];
    // offset 0, length 9, two rows, checksum 0
    expected.extend_from_slice(&[0, 0, 0, 0, 0, 0, 0, 0, 9, 0, 0, 0, 2, 0, 0, 0]);
    expected.extend_from_slice(&[0; 8]);
    // offset 9, length 5, one row, checksum 0
    expected.extend_from_slice(&[9, 0, 0, 0, 0, 0, 0, 0, 5, 0, 0, 0, 1, 0, 0, 0]);
    expected.extend_from_slice(&[0; 8]);
    assert_eq!(flush.file(1).data, expected);
}

#[test]
fn test_paths() {
    let column = int_column(42, false);
    assert_eq!(path_of_data_column("dir", &column), "dir/42.col");
    assert_eq!(path_of_index_column("dir", &column), "dir/42.idx");
    assert_eq!(path_of_data_column("dir/", &column), "dir/42.col");
    assert_eq!(path_of_data_column("", &column), "42.col");
    assert_eq!(path_of_data_column("/", &column), "/42.col");
    assert_eq!(path_of_column("a/b", &int_column(0, false), ".tmp"), "a/b/0.tmp");
    assert_eq!(
        path_of_column("x", &int_column(u32::MAX, false), ""),
        "x/4294967295"
    );
    assert_eq!(path_of_index_column("r", &int_column(10, false)), "r/10.idx");
}

#[test]
fn test_shape_mismatch() {
    let mut builder = RowsetBuilder::new(
        vec![int_column(0, false), int_column(1, true)],
        "d",
        ColumnBuilderOptions::default_for_test(),
    );
    // wrong type in the second column
    assert_eq!(
        builder.append(chunk(vec![
            ArrayImpl::Int32(vec![Some(1)]),
            ArrayImpl::Int64(vec![Some(1)]),
        ])),
        Err(StorageError::ShapeMismatch)
    );
    // a null where the column admits none
    assert_eq!(
        builder.append(chunk(vec![
            ArrayImpl::Int32(vec![Some(1), None]),
            ArrayImpl::Int32(vec![Some(1), None]),
        ])),
        Err(StorageError::ShapeMismatch)
    );
    // a refused batch leaves no trace
    assert_eq!(builder.row_count(), 0);
    assert_eq!(
        builder.append(chunk(vec![
            ArrayImpl::Int32(vec![Some(5), Some(6)]),
            ArrayImpl::Int32(vec![Some(7), None]),
        ])),
        Ok(())
    );
    assert_eq!(builder.row_count(), 2);
    assert_eq!(builder.column_count(), 2);
    let flush = builder.finish();
    assert_eq!(flush.file(0).data, vec![5, 0, 0, 0, 6, 0, 0, 0]);
    assert_eq!(flush.file(2).data, vec![0b01, 7, 0, 0, 0, 0, 0, 0, 0]);
}

#[test]
fn test_batch_with_unequal_arrays_is_refused() {
    assert!(matches!(
        DataChunk::from_arrays(vec![
            ArrayImpl::Int32(vec![Some(1), Some(2)]),
            ArrayImpl::Int32(vec![Some(1)]),
        ]),
        Err(StorageError::ShapeMismatch)
    ));
    let batch = chunk(vec![ArrayImpl::Bool(vec![None, Some(true)]), ArrayImpl::Int64(vec![None, None])]);
    assert_eq!(batch.cardinality(), 2);
    assert_eq!(batch.column_count(), 2);
    assert_eq!(batch.array_at(1).kind(), DataTypeKind::BigInt);
    assert_eq!(chunk(vec![]).cardinality(), 0);
}

#[test]
fn test_long_values_are_taken() {
    let column = ColumnCatalog::new(0, DataTypeKind::Blob.not_null().to_column("b".to_string()));
    let long: Vec<u8> = (0..0x100_0001u32).map(|i| (i % 251) as u8).collect();
    let dir = written(
        vec![column],
        vec![vec![ArrayImpl::Blob(vec![Some(vec![9u8; 3]), Some(long.clone()), Some(vec![])])]],
        ColumnBuilderOptions { target_block_size: 4096, checksum_type: ChecksumType::Crc32 },
    );
    let (_, index) = parse_index(&dir.files["r/0.idx"]).unwrap();
    assert_eq!(index.len(), 2);
    assert_eq!(index[0].row_count, 2);
    assert_eq!(index[0].length, 8 + 3 + 0x100_0001);
    assert_eq!(index[1].row_count, 1);
    let array = read_column(
        &DataTypeKind::Blob.not_null(),
        ChecksumType::Crc32,
        &dir.files["r/0.idx"],
        &dir.files["r/0.col"],
    )
    .unwrap();
    assert!(matches!(array, ArrayImpl::Blob(v) if v == vec![Some(vec![9u8; 3]), Some(long), Some(vec![])]));
}

fn small_flush(directory: &str) -> RowsetFlush {
    let mut builder = RowsetBuilder::new(
        vec![int_column(0, true), int_column(1, false)],
        directory,
        ColumnBuilderOptions::default_for_test(),
    );
    builder
        .append(chunk(vec![
            ArrayImpl::Int32(vec![Some(1), None]),
            ArrayImpl::Int32(vec![Some(3), Some(4)]),
        ]))
        .unwrap();
    builder.finish()
}

#[test]
fn test_flush_order() {
    let mut flush = small_flush("dir");
    let mut seen = Vec::new();
    loop {
        match flush.next_action() {
            FlushAction::WriteFile(file) => seen.push(file.path.clone()),
            FlushAction::SyncDirectory(path) => seen.push(format!("sync {}", path)),
            FlushAction::Finished(result) => {
                assert_eq!(result, Ok(()));
                break;
            }
        }
        flush.record(IoOutcome::Done);
    }
    assert_eq!(
        seen,
        vec!["dir/0.col", "dir/0.idx", "dir/1.col", "dir/1.idx", "sync dir"]
    );
    assert_eq!(flush.result(), Some(Ok(())));
    assert_eq!(flush.files_written(), 4);
    // a flush that has ended stays as it is
    flush.record(IoOutcome::Failed);
    assert_eq!(flush.status(), FlushStatus::Completed);
}

#[test]
fn test_failure_at_any_file_blocks_the_sync() {
    for failing in 0..4 {
        for outcome in [IoOutcome::Failed, IoOutcome::AlreadyExists] {
            let mut flush = small_flush("dir");
            let mut step = 0;
            let mut synced = false;
            let result = loop {
                match flush.next_action() {
                    FlushAction::WriteFile(_) => {}
                    FlushAction::SyncDirectory(_) => synced = true,
                    FlushAction::Finished(result) => break result,
                }
                flush.record(if step == failing { outcome } else { IoOutcome::Done });
                step += 1;
            };
            assert!(!synced);
            assert_eq!(step, failing + 1);
            assert_eq!(flush.files_written(), failing);
            let expected = if outcome == IoOutcome::AlreadyExists {
                StorageError::PathCollision
            } else {
                StorageError::IoFailure
            };
            assert_eq!(result, Err(expected));
            assert_eq!(flush.status(), FlushStatus::Failed(expected));
            assert_eq!(flush.result(), Some(Err(expected)));
        }
    }
}

#[test]
fn test_failed_directory_sync() {
    for outcome in [IoOutcome::Failed, IoOutcome::AlreadyExists] {
        let mut flush = small_flush("dir");
        for _ in 0..4 {
            assert!(matches!(flush.next_action(), FlushAction::WriteFile(_)));
            flush.record(IoOutcome::Done);
        }
        assert_eq!(flush.result(), None);
        assert!(matches!(flush.next_action(), FlushAction::SyncDirectory("dir")));
        flush.record(outcome);
        assert_eq!(flush.result(), Some(Err(StorageError::IoFailure)));
    }
}

#[test]
fn test_second_flush_collides() {
    let mut dir = MemoryDirectory::new();
    let mut first = small_flush("dir");
    assert_eq!(dir.run(&mut first), Ok(()));
    let before = dir.files.clone();
    let mut second = small_flush("dir");
    assert_eq!(dir.run(&mut second), Err(StorageError::PathCollision));
    assert_eq!(second.files_written(), 0);
    assert_eq!(dir.files, before);
    assert_eq!(dir.synced.len(), 1);
}

#[test]
fn test_existing_index_file_collides() {
    let mut dir = MemoryDirectory::new();
    dir.files.insert("dir/0.idx".to_string(), vec![9, 9, 9]);
    let mut flush = small_flush("dir");
    assert_eq!(dir.run(&mut flush), Err(StorageError::PathCollision));
    assert_eq!(flush.files_written(), 1);
    assert_eq!(dir.files["dir/0.idx"], vec![9, 9, 9]);
    assert!(!dir.files.contains_key("dir/1.col"));
    assert!(dir.synced.is_empty());
}

fn written(columns: Vec<ColumnCatalog>, batches: Vec<Vec<ArrayImpl>>, options: ColumnBuilderOptions) -> MemoryDirectory {
    let mut builder = RowsetBuilder::new(columns, "r", options);
    for arrays in batches {
        builder.append(chunk(arrays)).unwrap();
    }
    let mut flush = builder.finish();
    let mut dir = MemoryDirectory::new();
    dir.run(&mut flush).unwrap();
    dir
}

#[test]
fn test_round_trip_of_every_type() {
    let columns = vec![
        ColumnCatalog::new(0, DataTypeKind::Boolean.nullable().to_column("a".to_string())),
        ColumnCatalog::new(1, DataTypeKind::Int.nullable().to_column("b".to_string())),
        ColumnCatalog::new(2, DataTypeKind::BigInt.nullable().to_column("c".to_string())),
        ColumnCatalog::new(3, DataTypeKind::Double.nullable().to_column("d".to_string())),
        ColumnCatalog::new(4, DataTypeKind::Blob.nullable().to_column("e".to_string())),
        ColumnCatalog::new(5, DataTypeKind::Blob.not_null().to_column("f".to_string())),
    ];
    let mut bools = Vec::new();
    let mut ints = Vec::new();
    let mut longs = Vec::new();
    let mut doubles = Vec::new();
    let mut blobs = Vec::new();
    let mut texts = Vec::new();
    let specials = [f64::NAN, -0.0, f64::INFINITY, f64::MIN_POSITIVE, -1.5];
    let nan_with_payload = 0x7ff8_0000_dead_beefu64;
    for i in 0..2500i64 {
        bools.push(if i % 5 == 0 { None } else { Some(i % 2 == 0) });
        ints.push(if i % 7 == 0 { None } else { Some((i as i32).wrapping_mul(-1_000_003)) });
        longs.push(if i % 11 == 0 { None } else { Some(i.wrapping_mul(-9_000_000_000_000_007)) });
        doubles.push(if i % 13 == 0 {
            None
        } else if i % 13 == 1 {
            Some(nan_with_payload)
        } else {
            Some(specials[(i % 5) as usize].to_bits())
        });
        blobs.push(if i % 3 == 0 { None } else { Some(vec![i as u8; (i % 40) as usize]) });
        texts.push(Some(format!("row {}", i).into_bytes()));
    }
    ints[1] = Some(i32::MIN);
    ints[2] = Some(i32::MAX);
    longs[1] = Some(i64::MIN);
    longs[2] = Some(i64::MAX);
    let split = 1000;
    let batch = |from: usize, to: usize| {
        vec![
            ArrayImpl::Bool(bools[from..to].to_vec()),
            ArrayImpl::Int32(ints[from..to].to_vec()),
            ArrayImpl::Int64(longs[from..to].to_vec()),
            ArrayImpl::Float64(doubles[from..to].to_vec()),
            ArrayImpl::Blob(blobs[from..to].to_vec()),
            ArrayImpl::Blob(texts[from..to].to_vec()),
        ]
    };
    for checksum_type in [ChecksumType::Disabled, ChecksumType::Crc32, ChecksumType::Crc64] {
        let options = ColumnBuilderOptions { target_block_size: 100, checksum_type };
        let dir = written(columns.clone(), vec![batch(0, split), batch(split, 2500)], options);
        let read = |id: u32, datatype: DataType| {
            read_column(
                &datatype,
                checksum_type,
                &dir.files[&format!("r/{}.idx", id)],
                &dir.files[&format!("r/{}.col", id)],
            )
            .unwrap()
        };
        assert!(matches!(read(0, DataTypeKind::Boolean.nullable()), ArrayImpl::Bool(v) if v == bools));
        assert!(matches!(read(1, DataTypeKind::Int.nullable()), ArrayImpl::Int32(v) if v == ints));
        assert!(matches!(read(2, DataTypeKind::BigInt.nullable()), ArrayImpl::Int64(v) if v == longs));
        assert!(matches!(read(3, DataTypeKind::Double.nullable()), ArrayImpl::Float64(v) if v == doubles));
        assert!(matches!(read(4, DataTypeKind::Blob.nullable()), ArrayImpl::Blob(v) if v == blobs));
        assert!(matches!(read(5, DataTypeKind::Blob.not_null()), ArrayImpl::Blob(v) if v == texts));
        // every column accounts for every row
        for id in 0..6 {
            let (_, index) = parse_index(&dir.files[&format!("r/{}.idx", id)]).unwrap();
            let rows: u64 = index.iter().map(|entry| entry.row_count as u64).sum();
            assert_eq!(rows, 2500);
            let mut offset = 0u64;
            for entry in &index {
                assert_eq!(entry.offset, offset);
                offset += entry.length as u64;
            }
            assert_eq!(offset, dir.files[&format!("r/{}.col", id)].len() as u64);
        }
    }
}

#[test]
fn test_exact_bytes_of_blob_block() {
    let dir = written(
        vec![ColumnCatalog::new(9, DataTypeKind::Blob.nullable().to_column("e".to_string()))],
        vec![vec![ArrayImpl::Blob(vec![Some(b"ab".to_vec()), None, Some(vec![]), Some(b"xyz".to_vec())])]],
        ColumnBuilderOptions { target_block_size: 1000, checksum_type: ChecksumType::Crc32 },
    );
    assert_eq!(
        dir.files["r/9.col"],
        vec![
            0b1101, // rows 0, 2 and 3 hold a value
            2, 0, 0, 0, 2, 0, 0, 0, 2, 0, 0, 0, 5, 0, 0, 0, // where each value ends
            b'a', b'b', b'x', b'y', b'z',
        ]
    );
}

#[test]
fn test_checksum_mismatch_and_corruption() {
    let dir = written(
        vec![int_column(0, false)],
        vec![vec![ArrayImpl::Int32((0..100).map(Some).collect())]],
        ColumnBuilderOptions { target_block_size: 64, checksum_type: ChecksumType::Crc64 },
    );
    let datatype = DataTypeKind::Int.not_null();
    let index = &dir.files["r/0.idx"];
    let data = &dir.files["r/0.col"];
    assert!(read_column(&datatype, ChecksumType::Crc64, index, data).is_ok());
    assert!(matches!(
        read_column(&datatype, ChecksumType::Crc32, index, data),
        Err(StorageError::ChecksumAlgorithmMismatch)
    ));
    assert!(matches!(
        read_column(&datatype, ChecksumType::Disabled, index, data),
        Err(StorageError::ChecksumAlgorithmMismatch)
    ));
    // a truncated data file, a truncated index, a wrong version, an unknown algorithm
    assert!(matches!(
        read_column(&datatype, ChecksumType::Crc64, index, &data[..data.len() - 1]),
        Err(StorageError::Corrupted)
    ));
    assert!(matches!(
        read_column(&datatype, ChecksumType::Crc64, &index[..index.len() - 1], data),
        Err(StorageError::Corrupted)
    ));
    let mut wrong = index.clone();
    wrong[0] = 2;
    assert!(matches!(
        read_column(&datatype, ChecksumType::Crc64, &wrong, data),
        Err(StorageError::Corrupted)
    ));
    let mut wrong = index.clone();
    wrong[1] = 3;
    assert!(parse_index(&wrong).is_none());
    assert!(parse_index(&[]).is_none());
    // the wrong type for the data: blocks of 16 rows of four bytes are no
    // blocks of 16 rows of eight bytes
    assert!(matches!(
        read_column(&DataTypeKind::BigInt.not_null(), ChecksumType::Crc64, index, data),
        Err(StorageError::Corrupted)
    ));
}

#[test]
fn test_flipped_byte_is_detected_in_its_block_only() {
    for checksum_type in [ChecksumType::Crc32, ChecksumType::Crc64] {
        let dir = written(
            vec![int_column(0, true)],
            vec![vec![ArrayImpl::Int32((0..50).map(|i| if i % 4 == 0 { None } else { Some(i * 77) }).collect())]],
            ColumnBuilderOptions { target_block_size: 40, checksum_type },
        );
        let data = dir.files["r/0.col"].clone();
        let (_, index) = parse_index(&dir.files["r/0.idx"]).unwrap();
        assert_eq!(index.len(), 5);
        for entry in &index {
            assert!(verify_block(checksum_type, entry, &data));
        }
        for position in 0..data.len() {
            for flip in [0x01u8, 0x80, 0xff] {
                let mut changed = data.clone();
                changed[position] ^= flip;
                for entry in &index {
                    let covers = entry.offset <= position as u64
                        && (position as u64) < entry.offset + entry.length as u64;
                    assert_eq!(verify_block(checksum_type, entry, &changed), !covers);
                }
                assert!(matches!(
                    read_column(&DataTypeKind::Int.nullable(), checksum_type, &dir.files["r/0.idx"], &changed),
                    Err(StorageError::Corrupted)
                ));
            }
        }
    }
}

#[test]
fn test_bool_out_of_range_is_corruption() {
    let dir = written(
        vec![ColumnCatalog::new(0, DataTypeKind::Boolean.not_null().to_column("a".to_string()))],
        vec![vec![ArrayImpl::Bool(vec![Some(true), Some(false)])]],
        ColumnBuilderOptions { target_block_size: 64, checksum_type: ChecksumType::Disabled },
    );
    assert_eq!(dir.files["r/0.col"], vec![1, 0]);
    let datatype = DataTypeKind::Boolean.not_null();
    let index = &dir.files["r/0.idx"];
    assert!(matches!(
        read_column(&datatype, ChecksumType::Disabled, index, &[1, 0]),
        Ok(ArrayImpl::Bool(v)) if v == vec![Some(true), Some(false)]
    ));
    assert!(matches!(
        read_column(&datatype, ChecksumType::Disabled, index, &[1, 2]),
        Err(StorageError::Corrupted)
    ));
}
