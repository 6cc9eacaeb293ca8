//! Reading Parquet files: row groups, projections, windows and blobs.
use parquet::arrow::arrow_reader::{RowSelection, RowSelector};
use storage_bench::blob_reads::{
    consecutive_row_ranges, order_lengths, plan_blob_batch, plan_blob_read, select_rows, sort_rows,
    summarize_blobs, BlobBatchRead, BlobReadError,
};
use storage_bench::parquet_options::{
    writer_profile_of, ParquetReadMode, ParquetWriterOptions, ParquetWriterProfile,
    WriterOptionsError, ENGINE_ADAPTER_VERSION, PARQUET_DEP_VERSION,
    RANDOM_BLOB_DATA_PAGE_SIZE_LIMIT, RANDOM_BLOB_MAX_ROW_GROUP_BYTES,
    WRITER_PROFILE_METADATA_KEY,
};
use storage_bench::parquet_reads::{
    build_projection, locate_row_group, root_index, row_group_start_rows, OpenedParquetFile,
    ParquetEngine, Projection, RowCursor, ScanTake, ScanWindow,
};

fn strings(items: &[&str]) -> Vec<String> {
    items.iter().map(|s| s.to_string()).collect()
}

fn opened(read_mode: ParquetReadMode) -> OpenedParquetFile {
    OpenedParquetFile {
        rows: 10,
        row_group_rows: vec![4, 0, 6],
        offset_index: true,
        root_names: strings(&["id", "blob"]),
        read_mode,
        profile: ParquetWriterProfile::RandomBlob,
    }
}

#[test]
fn profiles_and_modes_have_names() {
    assert_eq!(ParquetReadMode::default().as_str(), "sequential");
    assert_eq!(ParquetReadMode::RowSelection.as_str(), "row-selection");
    assert_eq!(ParquetWriterProfile::default().as_str(), "default");
    assert_eq!(ParquetWriterProfile::RandomBlob.as_str(), "random-blob");
    assert_eq!(RANDOM_BLOB_DATA_PAGE_SIZE_LIMIT, parquet::file::properties::DEFAULT_PAGE_SIZE);
    assert_eq!(RANDOM_BLOB_MAX_ROW_GROUP_BYTES, 128 * 1024 * 1024);
    assert_eq!((ENGINE_ADAPTER_VERSION, PARQUET_DEP_VERSION), ("0.1.0", "58.3.0"));
}

#[test]
fn writer_properties_are_built() {
    assert!(ParquetWriterOptions::default().writer_properties().unwrap().is_none());
    let tuned = ParquetWriterOptions::random_blob(strings(&["blob"]))
        .writer_properties()
        .unwrap()
        .unwrap();
    assert_eq!(tuned.data_page_size_limit(), RANDOM_BLOB_DATA_PAGE_SIZE_LIMIT);
    assert_eq!(tuned.write_batch_size(), 1);
    assert_eq!(tuned.max_row_group_bytes(), Some(RANDOM_BLOB_MAX_ROW_GROUP_BYTES));
    assert!(!tuned.offset_index_disabled());
    let entries = tuned.key_value_metadata().unwrap();
    assert_eq!(entries.len(), 1);
    assert_eq!(entries[0].key, "lance-dataset-test.parquet-writer-profile");
    assert_eq!(entries[0].value, Some("random-blob".to_string()));
}

#[test]
fn writer_options_are_checked() {
    let options = || ParquetWriterOptions::random_blob(strings(&["blob"]));
    let error = |o: ParquetWriterOptions| o.writer_properties().unwrap_err().message();
    let mut o = options();
    o.data_page_size_limit = None;
    assert_eq!(error(o), "random-blob profile requires data_page_size_limit");
    let mut o = options();
    o.write_batch_size = None;
    assert_eq!(error(o), "random-blob profile requires write_batch_size");
    let mut o = options();
    o.max_row_group_bytes = None;
    assert_eq!(error(o), "random-blob profile requires max_row_group_bytes");
    let mut o = options();
    o.max_row_group_bytes = Some(0);
    assert_eq!(error(o), "random-blob writer limits must be greater than zero");
    let o = ParquetWriterOptions::random_blob(Vec::new());
    assert_eq!(error(o), "random-blob profile requires at least one blob column");
    let mut o = ParquetWriterOptions::default();
    o.write_batch_size = Some(0);
    assert!(o.writer_properties().unwrap().is_none());
    assert!(matches!(
        ParquetWriterOptions::random_blob(Vec::new()).writer_properties(),
        Err(WriterOptionsError::NoBlobColumn)
    ));
}

#[test]
fn writer_profile_round_trip() {
    let entry = |k: &str, v: Option<&str>| (k.to_string(), v.map(|s| s.to_string()));
    let key = WRITER_PROFILE_METADATA_KEY;
    assert_eq!(writer_profile_of(&vec![]), Ok(ParquetWriterProfile::Default));
    for profile in [ParquetWriterProfile::Default, ParquetWriterProfile::RandomBlob] {
        let entries = vec![entry("x", Some("y")), entry(key, Some(profile.as_str()))];
        assert_eq!(writer_profile_of(&entries), Ok(profile));
    }
    assert_eq!(writer_profile_of(&vec![entry(key, None)]), Ok(ParquetWriterProfile::Default));
    assert!(writer_profile_of(&vec![entry(key, Some("other"))]).is_err());
    let first = vec![entry(key, Some("random-blob")), entry(key, Some("other"))];
    assert_eq!(writer_profile_of(&first), Ok(ParquetWriterProfile::RandomBlob));
}

#[test]
fn opened_files_tell_about_themselves() {
    let _engine = ParquetEngine::new();
    let file = opened(ParquetReadMode::Sequential);
    assert_eq!(file.row_count(), 10);
    assert_eq!(file.row_group_count(), 3);
    assert!(file.has_offset_index());
    assert_eq!(file.writer_profile(), ParquetWriterProfile::RandomBlob);
}

#[test]
fn rows_are_in_their_groups() {
    let starts = row_group_start_rows(&vec![4, 3, 6]);
    assert_eq!(starts, vec![0, 4, 7]);
    assert_eq!(locate_row_group(&starts, 0), Some((0, 0)));
    assert_eq!(locate_row_group(&starts, 3), Some((0, 3)));
    assert_eq!(locate_row_group(&starts, 4), Some((1, 0)));
    assert_eq!(locate_row_group(&starts, 6), Some((1, 2)));
    assert_eq!(locate_row_group(&starts, 7), Some((2, 0)));
    assert_eq!(locate_row_group(&starts, 99), Some((2, 92)));
    assert_eq!(locate_row_group(&vec![], 1), None);
}

#[test]
fn projections_name_columns() {
    let names = strings(&["a", "b", "a"]);
    assert_eq!(root_index(&names, "b"), Some(1));
    assert_eq!(root_index(&names, "a"), Some(2));
    assert_eq!(root_index(&names, "c"), None);
    assert_eq!(build_projection(&names, &None), Ok(Projection::All));
    assert_eq!(build_projection(&names, &Some(vec![])), Ok(Projection::All));
    assert_eq!(
        build_projection(&names, &Some(strings(&["b", "a"]))),
        Ok(Projection::Roots(vec![1, 2]))
    );
    assert_eq!(build_projection(&names, &Some(strings(&["b", "x"]))), Err("x".to_string()));
}

#[test]
fn scans_take_their_window() {
    let mut window = ScanWindow::new(Some(3), Some(4));
    assert_eq!(window.take(0), ScanTake::Skip);
    assert_eq!(window.take(2), ScanTake::Skip);
    assert_eq!(window.take(3), ScanTake::Take { start: 1, rows: 2, done: false });
    assert_eq!(window.take(5), ScanTake::Take { start: 0, rows: 2, done: true });
    let mut all = ScanWindow::new(None, None);
    assert_eq!(all.take(7), ScanTake::Take { start: 0, rows: 7, done: false });
    let mut none = ScanWindow::new(None, Some(0));
    assert_eq!(none.take(7), ScanTake::Take { start: 0, rows: 0, done: true });
}

#[test]
fn windows_are_cut_from_all_rows() {
    let batches: Vec<Vec<u64>> = vec![vec![0, 1], vec![], vec![2, 3, 4], vec![5], vec![6, 7]];
    for offset in 0..10u64 {
        for limit in 0..10u64 {
            let mut window = ScanWindow::new(Some(offset), Some(limit));
            let mut taken = Vec::new();
            for batch in &batches {
                if let ScanTake::Take { start, rows, done } = window.take(batch.len()) {
                    taken.extend_from_slice(&batch[start..start + rows]);
                    if done {
                        break;
                    }
                }
            }
            let expected: Vec<u64> = (0..8).skip(offset as usize).take(limit as usize).collect();
            assert_eq!(taken, expected);
        }
    }
}

#[test]
fn cursors_find_their_row() {
    let mut cursor = RowCursor::new(5);
    assert_eq!(cursor.find(3), None);
    assert_eq!(cursor.find(0), None);
    assert_eq!(cursor.find(4), Some(2));
    let mut last = RowCursor::new(2);
    assert_eq!(last.find(2), None);
    assert_eq!(last.find(1), Some(0));
}

#[test]
fn ranges_join_neighbours() {
    assert_eq!(consecutive_row_ranges(&vec![1, 2, 3, 7, 9, 10]), Ok(vec![1..4, 7..8, 9..11]));
    assert_eq!(consecutive_row_ranges(&vec![]), Ok(vec![]));
    assert_eq!(sort_rows(&vec![3, 1, 2]), vec![1, 2, 3]);
}

#[test]
fn ranges_follow_any_rows() {
    assert_eq!(consecutive_row_ranges(&vec![5, 6, 1, 2, 2, 3]), Ok(vec![5..7, 1..3, 2..4]));
    assert_eq!(consecutive_row_ranges(&vec![4, 3]), Ok(vec![4..5, 3..4]));
    let last = usize::MAX as u64 - 1;
    assert_eq!(consecutive_row_ranges(&vec![last]), Ok(vec![usize::MAX - 1..usize::MAX]));
    for rows in [vec![0, 1, 5, 4, 3, 4], vec![9], vec![2, 2, 2]] {
        let ranges = consecutive_row_ranges(&rows).unwrap();
        let expanded: Vec<u64> = ranges.iter().cloned().flatten().map(|row| row as u64).collect();
        assert_eq!(expanded, rows);
        assert!(ranges.windows(2).all(|pair| pair[0].end != pair[1].start));
    }
}

#[test]
fn selections_hold_exactly_the_rows() {
    let selection = select_rows(&vec![1, 2, 5], 7);
    let expected = RowSelection::from(vec![
        RowSelector::skip(1),
        RowSelector::select(2),
        RowSelector::skip(2),
        RowSelector::select(1),
        RowSelector::skip(1),
    ]);
    assert_eq!(selection, expected);
    assert_eq!(selection.row_count(), 3);
}

#[test]
fn blobs_are_read_one_by_one() {
    let starts = row_group_start_rows(&vec![4, 0, 6]);
    let read = plan_blob_read(&opened(ParquetReadMode::Sequential), &starts, 2, "blob").unwrap();
    assert_eq!((read.row_group, read.root, read.target), (0, 1, 2));
    assert!(read.selection.is_none());
    let file = opened(ParquetReadMode::RowSelection);
    let read = plan_blob_read(&file, &starts, 3, "blob").unwrap();
    assert_eq!((read.row_group, read.target), (0, 0));
    assert_eq!(read.selection.unwrap().row_count(), 1);
    assert!(matches!(
        plan_blob_read(&file, &starts, 3, "x"),
        Err(BlobReadError::ColumnNotFound)
    ));
    assert!(matches!(
        plan_blob_read(&file, &starts, 99, "blob"),
        Err(BlobReadError::OutsideGroup { row: 99, row_group: 2, rows: 6 })
    ));
}

#[test]
fn files_without_row_groups_have_no_blobs() {
    for mode in [ParquetReadMode::Sequential, ParquetReadMode::RowSelection] {
        let mut file = opened(mode);
        file.rows = 0;
        file.row_group_rows = vec![];
        assert!(matches!(
            plan_blob_read(&file, &vec![], 0, "blob"),
            Err(BlobReadError::NoRowGroups)
        ));
        assert!(matches!(
            plan_blob_read(&file, &vec![], 0, "x"),
            Err(BlobReadError::ColumnNotFound)
        ));
    }
}

fn row_found_in(mode: ParquetReadMode, row: u64, batch_rows: u64) -> Option<u64> {
    let file = opened(mode);
    let starts = row_group_start_rows(&file.row_group_rows);
    let plan = plan_blob_read(&file, &starts, row, "blob").ok()?;
    let rows: Vec<u64> = match &plan.selection {
        None => (0..file.row_group_rows[plan.row_group]).collect(),
        Some(selection) => {
            let mut at = 0;
            let mut rows = Vec::new();
            for selector in selection.iter() {
                if !selector.skip {
                    rows.extend(at..at + selector.row_count as u64);
                }
                at += selector.row_count as u64;
            }
            rows
        }
    };
    let mut cursor = RowCursor::new(plan.target);
    for batch in rows.chunks(batch_rows as usize) {
        if let Some(at) = cursor.find(batch.len() as u64) {
            return Some(starts[plan.row_group] + batch[at as usize]);
        }
    }
    None
}

#[test]
fn both_ways_find_the_same_row_or_none() {
    for row in 0..13 {
        let wanted = if row < 10 { Some(row) } else { None };
        for batch_rows in 1..7 {
            assert_eq!(row_found_in(ParquetReadMode::Sequential, row, batch_rows), wanted);
            assert_eq!(row_found_in(ParquetReadMode::RowSelection, row, batch_rows), wanted);
        }
    }
}

#[test]
fn blob_batches_are_checked() {
    let file = opened(ParquetReadMode::RowSelection);
    let plan = plan_blob_batch(&file, &vec![7, 1, 2], "blob").unwrap();
    assert_eq!(plan.sorted_rows, vec![1, 2, 7]);
    assert_eq!(plan.root, 1);
    assert_eq!(plan.selection.row_count(), 3);
    assert!(matches!(
        plan_blob_batch(&opened(ParquetReadMode::Sequential), &vec![1], "blob"),
        Err(BlobReadError::NotRowSelection)
    ));
    assert!(matches!(plan_blob_batch(&file, &vec![], "blob"), Err(BlobReadError::NoRows)));
    assert!(matches!(
        plan_blob_batch(&file, &vec![1], "x"),
        Err(BlobReadError::ColumnNotFound)
    ));
    assert!(matches!(
        plan_blob_batch(&file, &vec![1, 2, 1], "blob"),
        Err(BlobReadError::DuplicateRows)
    ));
    assert!(matches!(
        plan_blob_batch(&file, &vec![1, 10], "blob"),
        Err(BlobReadError::OutOfRange { row: 10, rows: 10 })
    ));
}

#[test]
fn order_does_not_matter() {
    let rows = vec![7, 1, 2];
    let sorted = vec![1, 2, 7];
    let lengths = vec![Some(10), None, Some(30)];
    assert_eq!(order_lengths(&rows, &sorted, &lengths), vec![Some(30), Some(10), None]);
    let expected = BlobBatchRead { selected_blobs: 3, materialized_blobs: 2, total_bytes: 40 };
    assert_eq!(summarize_blobs(&rows, &sorted, lengths.clone(), true).unwrap(), expected);
    assert_eq!(summarize_blobs(&rows, &sorted, lengths, false).unwrap(), expected);
    assert!(matches!(
        summarize_blobs(&rows, &sorted, vec![None], true),
        Err(BlobReadError::WrongCount { got: 1, wanted: 3 })
    ));
}

#[test]
fn blob_errors_have_words() {
    let words = |error: BlobReadError| error.message("image");
    assert_eq!(
        words(BlobReadError::NotRowSelection),
        "batched binary reads require parquet row-selection mode"
    );
    assert_eq!(words(BlobReadError::NoRows), "batched binary reads require at least one row");
    assert_eq!(words(BlobReadError::TooManyRows), "parquet row count does not fit usize");
    assert_eq!(words(BlobReadError::GroupTooLarge), "row group row count does not fit usize");
    assert_eq!(words(BlobReadError::RowTooLarge), "row offset does not fit usize");
    assert_eq!(
        words(BlobReadError::OffsetTooLarge),
        "row offset within row group does not fit usize"
    );
    assert_eq!(words(BlobReadError::NoRowGroups), "the file has no row groups");
    assert_eq!(words(BlobReadError::ColumnNotFound), "column not found: image");
    assert_eq!(
        words(BlobReadError::DuplicateRows),
        "a parquet RowSelection request cannot contain duplicate rows"
    );
    assert_eq!(
        words(BlobReadError::OutsideGroup { row: 9, row_group: 1, rows: 4 }),
        "row offset 9 is outside row group 1 with 4 rows"
    );
    assert_eq!(
        words(BlobReadError::OutOfRange { row: 10, rows: 5 }),
        "row offset 10 is outside parquet file with 5 rows"
    );
    assert_eq!(
        words(BlobReadError::WrongCount { got: 1, wanted: 3 }),
        "parquet RowSelection returned 1 rows for 3 requested rows"
    );
}
