//! Schemas, rows and batches of datasets.
use std::collections::HashMap;
use std::sync::Arc;

use arrow_array::types::Int32Type;
use arrow_array::{
    Array, ArrayRef, BinaryArray, Float64Array, Int32Array, LargeBinaryArray, RecordBatch,
    RunArray, StringArray, StructArray, UInt64Array,
};
use arrow_schema::{DataType, Field, Schema};
use storage_bench::batches::Batch;
use storage_bench::chained_rows::{ChainAction, ChainEvent, ChainState};
use storage_bench::csv_rows::{column_names, text_schema, CsvBatcher, CsvStep};
use storage_bench::file_order::{file_order, first_file, path_lt};
use storage_bench::readers::{
    adapter_for, is_compressed_shard, is_parquet_file, is_web_shard, take_rows, Adapter,
    DatasetReadOptions, RepeatAction, RepeatEvent, RepeatState,
};
use storage_bench::rows::{
    fake_blob_bytes, fill_bytes_from_u64, filter_record_batch_lt_u64, lt_mask, splitmix64,
    with_derived_column, with_fake_blobs, with_schema, BatchError, RowNumbers,
};
use storage_bench::schemas::{
    add_blob_field, add_helper_fields, add_u64_field, blob_v2_columns, has_field,
    is_legacy_blob_field, sanitize_field_name, sanitize_schema, set_binary_compression_none,
    uncompressed_schema, web_schema,
};
use storage_bench::web::{
    parse_webdataset_entry_name, web_batch, web_texts_fit, EntryStep, WebAssembler, WebRow,
};
use storage_bench::workload::DatasetName;

fn batch(fields: Vec<Field>, columns: Vec<ArrayRef>) -> Batch {
    Batch { inner: RecordBatch::try_new(Arc::new(Schema::new(fields)), columns).unwrap() }
}

fn numbers(batch: &Batch, column: usize) -> Vec<Option<u64>> {
    let column = batch.inner.column(column).as_any().downcast_ref::<UInt64Array>().unwrap();
    column.iter().collect()
}

fn names(schema: &Schema) -> Vec<String> {
    schema.fields().iter().map(|f| f.name().to_string()).collect()
}

#[test]
fn names_are_cleaned_and_numbered() {
    assert_eq!(sanitize_field_name("a.b c-d"), "a_b_c_d");
    assert_eq!(sanitize_field_name(""), "col");
    let schema = Schema::new(vec![
        Field::new("a.b", DataType::Utf8, true),
        Field::new("a_b", DataType::UInt64, false),
        Field::new("x", DataType::Utf8, true),
    ]);
    let clean = sanitize_schema(&schema);
    assert_eq!(names(&clean), vec!["a_b", "a_b_1", "x"]);
    assert_eq!(clean.field(1).data_type(), &DataType::UInt64);
    assert!(!clean.field(1).is_nullable() && clean.field(0).is_nullable());
}

#[test]
fn helper_columns_are_added_once() {
    let schema = Schema::new(vec![Field::new("x", DataType::Utf8, true)]);
    let out = add_helper_fields(&schema).unwrap().unwrap();
    assert_eq!(names(&out), vec!["x", "bench_row_id", "bench_small_u64"]);
    assert_eq!(out.field(1).data_type(), &DataType::UInt64);
    assert!(!out.field(2).is_nullable());
    assert!(add_helper_fields(&out).unwrap().is_none());
    let half = Schema::new(vec![Field::new("bench_row_id", DataType::UInt64, false)]);
    let error = add_helper_fields(&half).unwrap_err();
    assert!(error.has_row_id && !error.has_small_u64);
    assert!(error.message().contains("bench_row_id=true, bench_small_u64=false"));
    assert!(has_field(&vec![Field::new("x", DataType::Utf8, true)], "x"));
    assert!(!has_field(&vec![], "x"));
}

#[test]
fn columns_are_added_behind() {
    let schema = Schema::new(vec![Field::new("x", DataType::Utf8, true)]);
    let blob = add_blob_field(&schema, "video_blob");
    assert_eq!(names(&blob), vec!["x", "video_blob"]);
    assert_eq!(blob.field(1).data_type(), &DataType::LargeBinary);
    assert!(is_legacy_blob_field(blob.field(1)));
    assert_eq!(
        blob.field(1).metadata().get(lance_arrow::BLOB_META_KEY),
        Some(&"true".to_string())
    );
    let number = add_u64_field(&schema, "n");
    assert_eq!(names(&number), vec!["x", "n"]);
    assert_eq!(number.field(1), &Field::new("n", DataType::UInt64, false));
    let web = web_schema();
    assert_eq!(names(&web), vec!["key", "caption", "image", "image_ext"]);
    assert!(!web.field(0).is_nullable() && web.field(1).is_nullable());
    assert!(is_legacy_blob_field(web.field(2)));
}

#[test]
fn blobs_are_recognised() {
    let blob = add_blob_field(&Schema::empty(), "b");
    let plain = Field::new("b", DataType::LargeBinary, true);
    assert!(!is_legacy_blob_field(&plain));
    let marked = |t: DataType, v: &str| {
        let mut metadata = HashMap::new();
        metadata.insert("lance-encoding:blob".to_string(), v.to_string());
        Field::new("b", t, true).with_metadata(metadata)
    };
    assert!(is_legacy_blob_field(&marked(DataType::LargeBinary, "true")));
    assert!(!is_legacy_blob_field(&marked(DataType::LargeBinary, "false")));
    assert!(!is_legacy_blob_field(&marked(DataType::Binary, "true")));
    let schema = Schema::new(vec![plain, blob.field(0).clone()]);
    assert_eq!(blob_v2_columns(&schema, true), vec![1]);
    assert_eq!(blob_v2_columns(&schema, false), Vec::<usize>::new());
}

#[test]
fn compression_is_switched_off_once() {
    let field = Field::new("b", DataType::Binary, true);
    let (off, changed) = set_binary_compression_none(&field);
    assert!(changed);
    assert_eq!(
        off.metadata().get("lance-encoding:compression"),
        Some(&"none".to_string())
    );
    let (again, changed) = set_binary_compression_none(&off);
    assert!(!changed);
    assert_eq!(again, off);
    let text = Field::new("t", DataType::Utf8, true);
    assert_eq!(set_binary_compression_none(&text), (text.clone(), false));
    let schema = Schema::new(vec![text.clone(), field]);
    let out = uncompressed_schema(&schema).unwrap();
    assert_eq!(out.field(0), &text);
    assert_eq!(out.field(1), &off);
    assert!(uncompressed_schema(&out).is_none());
}

#[test]
fn numbers_are_spread() {
    assert_eq!(splitmix64(0), 0xe220a8397b1dcdaf);
    assert_eq!(splitmix64(1), 0x910a2dec89025cc1);
    assert_ne!(splitmix64(2), splitmix64(3));
}

#[test]
fn numbering_continues() {
    let fields = vec![Field::new("x", DataType::Int32, false)];
    let one = batch(fields.clone(), vec![Arc::new(Int32Array::from(vec![5, 6]))]);
    let two = batch(fields.clone(), vec![Arc::new(Int32Array::from(vec![7]))]);
    let schema = add_helper_fields(&Schema::new(fields)).unwrap().unwrap();
    let mut ids = RowNumbers::new(100);
    let first = ids.number(&one, &schema).unwrap();
    let second = ids.number(&two, &schema).unwrap();
    assert_eq!(numbers(&first, 1), vec![Some(100), Some(101)]);
    assert_eq!(numbers(&first, 2), vec![Some(splitmix64(100)), Some(splitmix64(101))]);
    assert_eq!(numbers(&second, 1), vec![Some(102)]);
    assert_eq!(ids.next_row_id, 103);
    assert_eq!(first.inner.column(0), one.inner.column(0));
    let wrong = Arc::new(Schema::new(vec![Field::new("x", DataType::Int32, false)]));
    assert!(matches!(ids.number(&one, &wrong), Err(BatchError::Arrow(_))));
    assert_eq!(ids.next_row_id, 105);
}

#[test]
fn batches_change_their_schema() {
    let one = batch(
        vec![Field::new("x", DataType::Int32, false)],
        vec![Arc::new(Int32Array::from(vec![5, 6]))],
    );
    let renamed = Arc::new(Schema::new(vec![Field::new("y", DataType::Int32, true)]));
    let out = with_schema(&one, &renamed).unwrap();
    assert_eq!(out.inner.schema(), renamed);
    assert_eq!(out.inner.column(0), one.inner.column(0));
    let typed = Arc::new(Schema::new(vec![Field::new("y", DataType::UInt64, true)]));
    assert!(matches!(with_schema(&one, &typed), Err(BatchError::Arrow(_))));
}

#[test]
fn fake_blobs_repeat_the_row_number() {
    let mut buf = vec![0u8; 10];
    fill_bytes_from_u64(0x0807060504030201, &mut buf);
    assert_eq!(buf, vec![1, 2, 3, 4, 5, 6, 7, 8, 1, 2]);
    let fields = vec![Field::new("bench_row_id", DataType::UInt64, false)];
    let one = batch(fields.clone(), vec![Arc::new(UInt64Array::from(vec![258, 1]))]);
    let schema = add_blob_field(&Schema::new(fields), "video_blob");
    let out = with_fake_blobs(&one, &schema, 3).unwrap();
    let blobs = out.inner.column(1).as_any().downcast_ref::<LargeBinaryArray>().unwrap();
    assert_eq!(blobs.value(0), &[2, 1, 0]);
    assert_eq!(blobs.value(1), &[1, 0, 0]);
    let other = batch(
        vec![Field::new("x", DataType::Int32, false)],
        vec![Arc::new(Int32Array::from(vec![5]))],
    );
    assert!(matches!(with_fake_blobs(&other, &schema, 3), Err(BatchError::MissingColumn)));
    let text = batch(
        vec![Field::new("bench_row_id", DataType::Int32, false)],
        vec![Arc::new(Int32Array::from(vec![5]))],
    );
    assert!(matches!(with_fake_blobs(&text, &schema, 3), Err(BatchError::NotU64)));
    assert_eq!(fake_blob_bytes(&None), 256);
    assert_eq!(fake_blob_bytes(&Some("0".to_string())), 0);
    assert_eq!(fake_blob_bytes(&Some("x".to_string())), 256);
}

#[test]
fn derived_columns_count_on() {
    let fields = vec![Field::new("bench_row_id", DataType::UInt64, false)];
    let one = batch(fields.clone(), vec![Arc::new(UInt64Array::from(vec![4, u64::MAX]))]);
    let schema = add_u64_field(&Schema::new(fields), "next");
    let out = with_derived_column(&one, &schema).unwrap();
    assert_eq!(numbers(&out, 1), vec![Some(5), Some(0)]);
    let fields = vec![Field::new("x", DataType::Int32, false)];
    let other = batch(fields.clone(), vec![Arc::new(Int32Array::from(vec![5, 6]))]);
    let schema = add_u64_field(&Schema::new(fields), "next");
    let out = with_derived_column(&other, &schema).unwrap();
    assert_eq!(numbers(&out, 1), vec![Some(1), Some(1)]);
}

#[test]
fn filters_keep_rows_below() {
    assert_eq!(lt_mask(&vec![Some(1), None, Some(5), Some(4)], 5), vec![true, false, false, true]);
    let one = batch(
        vec![
            Field::new("n", DataType::UInt64, true),
            Field::new("t", DataType::Utf8, true),
        ],
        vec![
            Arc::new(UInt64Array::from(vec![Some(9), None, Some(3)])),
            Arc::new(StringArray::from(vec![Some("a"), Some("b"), Some("c")])),
        ],
    );
    let out = filter_record_batch_lt_u64(&one, "n", 5).unwrap();
    assert_eq!(numbers(&out, 0), vec![Some(3)]);
    let texts = out.inner.column(1).as_any().downcast_ref::<StringArray>().unwrap();
    assert_eq!(texts.value(0), "c");
    assert!(matches!(
        filter_record_batch_lt_u64(&one, "x", 5),
        Err(BatchError::MissingColumn)
    ));
    assert!(matches!(filter_record_batch_lt_u64(&one, "t", 5), Err(BatchError::NotU64)));
}

#[test]
fn readers_know_their_files() {
    let options = DatasetReadOptions::default();
    assert_eq!((options.limit_rows, options.row_id_offset), (None, 0));
    assert!(matches!(adapter_for(DatasetName::Laion10m), Some(Adapter::WebDataset)));
    assert!(adapter_for(DatasetName::Unknown).is_none());
    assert!(is_parquet_file(&b"a.parquet".to_vec()) && !is_parquet_file(&b"parquet".to_vec()));
    assert!(is_web_shard(&b"a.tar".to_vec()) && is_web_shard(&b"a.tar.gz".to_vec()));
    assert!(is_web_shard(&b"a.tgz".to_vec()) && !is_web_shard(&b"a.gz".to_vec()));
    assert!(is_compressed_shard(&b"a.tgz".to_vec()) && !is_compressed_shard(&b"a.tar".to_vec()));
    let mut remaining = Some(5);
    assert_eq!(take_rows(&mut remaining, 3), 3);
    assert_eq!(take_rows(&mut remaining, 3), 2);
    assert_eq!(remaining, Some(0));
    assert_eq!(take_rows(&mut None, 3), 3);
}

#[test]
fn repeated_files_fill_the_limit() {
    let mut state = RepeatState::new(2, 5);
    assert_eq!(state.step(RepeatEvent::Next), RepeatAction::Open { file: 0 });
    assert_eq!(state.step(RepeatEvent::Opened), RepeatAction::Read);
    assert_eq!(state.step(RepeatEvent::Batch { rows: 2 }), RepeatAction::Hand { rows: 2 });
    assert_eq!(state.step(RepeatEvent::Next), RepeatAction::Read);
    assert_eq!(state.step(RepeatEvent::EndOfFile), RepeatAction::Open { file: 1 });
    assert_eq!(state.step(RepeatEvent::Opened), RepeatAction::Read);
    assert_eq!(state.step(RepeatEvent::EndOfFile), RepeatAction::Open { file: 0 });
    assert_eq!(state.step(RepeatEvent::Opened), RepeatAction::Read);
    assert_eq!(state.step(RepeatEvent::Batch { rows: 7 }), RepeatAction::Hand { rows: 3 });
    assert_eq!(state.step(RepeatEvent::Next), RepeatAction::Done);
    let mut empty = RepeatState::new(0, 5);
    assert_eq!(empty.step(RepeatEvent::Next), RepeatAction::NoFiles);
}

fn repeated(files: &[Vec<Vec<u32>>], limit_rows: u64) -> Vec<Vec<u32>> {
    let mut state = RepeatState::new(files.len(), limit_rows);
    let mut handed = Vec::new();
    let mut rest: Vec<Vec<u32>> = Vec::new();
    let mut held: Vec<u32> = Vec::new();
    let mut action = state.step(RepeatEvent::Next);
    loop {
        let event = match action {
            RepeatAction::Open { file } => {
                rest = files[file].clone();
                RepeatEvent::Opened
            }
            RepeatAction::Read if rest.is_empty() => RepeatEvent::EndOfFile,
            RepeatAction::Read => {
                held = rest.remove(0);
                RepeatEvent::Batch { rows: held.len() }
            }
            RepeatAction::Hand { rows } => {
                handed.push(held[..rows].to_vec());
                RepeatEvent::Next
            }
            RepeatAction::Done => return handed,
            other => panic!("{other:?}"),
        };
        action = state.step(event);
    }
}

#[test]
fn files_repeat_in_turn_to_the_limit() {
    let files = vec![vec![], vec![vec![1, 2], vec![3]], vec![], vec![vec![4]]];
    for limit_rows in 0..20u64 {
        let handed = repeated(&files, limit_rows);
        assert!(handed.iter().all(|batch| !batch.is_empty()));
        let rows: Vec<u32> = handed.into_iter().flatten().collect();
        let expected: Vec<u32> = (0..limit_rows as usize).map(|i| [1, 2, 3, 4][i % 4]).collect();
        assert_eq!(rows, expected);
    }
    assert!(repeated(&[vec![], vec![]], 5).is_empty());
    assert!(repeated(&files, 0).is_empty());
}

fn chained(files: &[Vec<Vec<u32>>], limit_rows: Option<u64>) -> Vec<u32> {
    let mut state = ChainState::new(files.len(), limit_rows);
    let mut readers: Vec<_> = files.iter().map(|file| file.iter()).collect();
    let mut handed = Vec::new();
    let mut held: Vec<u32> = Vec::new();
    let mut action = state.step(ChainEvent::Next);
    loop {
        let event = match action {
            ChainAction::Read { file } => match readers[file].next() {
                None => ChainEvent::EndOfFile,
                Some(batch) => {
                    held = batch.clone();
                    ChainEvent::Batch { rows: held.len() }
                }
            },
            ChainAction::Hand { rows } => {
                handed.extend_from_slice(&held[..rows]);
                ChainEvent::Next
            }
            ChainAction::Done => return handed,
            ChainAction::Fail => panic!("no batch failed"),
        };
        action = state.step(event);
    }
}

#[test]
fn files_are_read_in_turn() {
    let files = vec![vec![], vec![vec![1, 2], vec![], vec![3]], vec![], vec![vec![4]]];
    assert_eq!(chained(&files, None), vec![1, 2, 3, 4]);
    for limit in 0..7u64 {
        let expected: Vec<u32> = (1..5).take(limit as usize).collect();
        assert_eq!(chained(&files, Some(limit)), expected);
    }
    assert!(chained(&[], None).is_empty());
    let mut state = ChainState::new(1, None);
    assert_eq!(state.step(ChainEvent::Next), ChainAction::Read { file: 0 });
    assert_eq!(state.step(ChainEvent::BatchFailed), ChainAction::Fail);
    assert_eq!(state.step(ChainEvent::Next), ChainAction::Read { file: 0 });
}

fn mixed_batch() -> Batch {
    let inner: ArrayRef = Arc::new(Int32Array::from(vec![Some(7), None, Some(9)]));
    let inner_field = Arc::new(Field::new("n", DataType::Int32, true));
    let pair = StructArray::from(vec![(inner_field, inner)]);
    batch(
        vec![
            Field::new("int", DataType::Int32, true),
            Field::new("float", DataType::Float64, true),
            Field::new("pair", pair.data_type().clone(), true),
            Field::new("bench_row_id", DataType::UInt64, false),
        ],
        vec![
            Arc::new(Int32Array::from(vec![Some(-1), None, Some(3)])),
            Arc::new(Float64Array::from(vec![Some(0.5), Some(-2.0), None])),
            Arc::new(pair),
            Arc::new(UInt64Array::from(vec![4, 5, 6])),
        ],
    )
}

#[test]
fn columns_of_any_type_are_left_as_they_are() {
    let mixed = mixed_batch();
    let old = mixed.inner.columns().to_vec();
    let derived = add_u64_field(&mixed.inner.schema(), "derived");
    let with_derived = with_derived_column(&mixed, &derived).unwrap().inner;
    let blobs = add_blob_field(&mixed.inner.schema(), "video_blob");
    let with_blobs = with_fake_blobs(&mixed, &blobs, 3).unwrap().inner;
    let plain = mixed_batch().inner.project(&[0, 1, 2]).unwrap();
    let numbered = add_helper_fields(&plain.schema()).unwrap().unwrap();
    let with_numbers =
        RowNumbers::new(9).number(&Batch { inner: plain }, &numbered).unwrap().inner;
    let renamed = sanitize_schema(&mixed.inner.schema());
    let with_names = with_schema(&mixed, &renamed).unwrap().inner;
    for out in [with_derived, with_blobs, with_names] {
        assert_eq!(&out.columns()[..4], &old[..]);
    }
    assert_eq!(&with_numbers.columns()[..3], &old[..3]);
}

#[test]
fn filters_cut_columns_of_any_type() {
    let kept = filter_record_batch_lt_u64(&mixed_batch(), "bench_row_id", 6).unwrap().inner;
    let old = mixed_batch().inner;
    assert_eq!(kept, old.slice(0, 2));
    let runs: RunArray<Int32Type> = vec!["a", "a", "b"].into_iter().collect();
    let with_runs = batch(
        vec![
            Field::new("runs", runs.data_type().clone(), true),
            Field::new("id", DataType::UInt64, false),
        ],
        vec![Arc::new(runs), Arc::new(UInt64Array::from(vec![1, 9, 2]))],
    );
    let kept = filter_record_batch_lt_u64(&with_runs, "id", 5).unwrap().inner;
    let runs = kept.column(0).as_any().downcast_ref::<RunArray<Int32Type>>().unwrap();
    let runs = runs.downcast::<StringArray>().unwrap();
    let values: Vec<&str> = runs.into_iter().flatten().collect();
    assert_eq!(values, vec!["a", "b"]);
}

#[test]
fn files_are_read_in_path_order() {
    let path = |text: &str| -> Vec<Vec<u8>> {
        text.split('/').map(|name| name.as_bytes().to_vec()).collect()
    };
    let listed = ["b/a", "a.b/c", "a/z/1", "a/z", "a", "a/b", "B"];
    let paths: Vec<Vec<Vec<u8>>> = listed.iter().map(|text| path(text)).collect();
    let mut sorted: Vec<std::path::PathBuf> = listed.iter().map(|text| text.into()).collect();
    sorted.sort();
    let ordered: Vec<std::path::PathBuf> =
        file_order(&paths).into_iter().map(|at| listed[at].into()).collect();
    assert_eq!(ordered, sorted);
    assert_eq!(first_file(&paths), Some(6));
    assert_eq!(first_file(&vec![path("x"), path("a"), path("a")]), Some(1));
    assert_eq!(first_file(&vec![]), None);
    assert_eq!(file_order(&vec![]), Vec::<usize>::new());
    assert!(path_lt(&path("a/b"), &path("a.b")));
    assert!(!path_lt(&path("a"), &path("a")));
    assert!(path_lt(&vec![], &path("a")));
}

#[test]
fn entry_names_are_parsed() {
    let parts = |k: &str, e: &str| Some((k.to_string(), e.to_string()));
    assert_eq!(parse_webdataset_entry_name("0001.txt"), parts("0001", "txt"));
    assert_eq!(parse_webdataset_entry_name("noext"), None);
}

#[test]
fn web_rows_follow_their_keys() {
    let mut web = WebAssembler::new(Some(2));
    let mut rows: Vec<WebRow> = Vec::new();
    let entries: Vec<(&str, &[u8])> = vec![
        ("a.txt", b"first"),
        ("a.jpg", b"\x01\x02"),
        ("b.png", b"\x03"),
        ("b.txt", b"\xff"),
        ("c.txt", b"never"),
    ];
    for (name, data) in entries {
        if !web.wants_more() {
            break;
        }
        match web.begin_entry(name) {
            EntryStep::Skip => {}
            EntryStep::Read { ext, row } => {
                rows.extend(row);
                web.finish_entry(ext, data.to_vec());
            }
        }
    }
    rows.extend(web.flush());
    assert_eq!(rows.len(), 2);
    assert_eq!(rows[0].key, "a");
    assert_eq!(rows[0].caption, Some("first".to_string()));
    assert_eq!(rows[0].image, Some(vec![1, 2]));
    assert_eq!(rows[0].image_ext, Some("jpg".to_string()));
    assert_eq!(rows[1].key, "b");
    assert_eq!(rows[1].caption, Some(String::new()));
    assert!(web_texts_fit(&rows));
    let schema = web_schema();
    let out = web_batch(rows, &schema).unwrap().unwrap();
    assert_eq!(out.inner.num_rows(), 2);
    let keys = out.inner.column(0).as_any().downcast_ref::<StringArray>().unwrap();
    assert_eq!((keys.value(0), keys.value(1)), ("a", "b"));
    let images = out.inner.column(2).as_any().downcast_ref::<LargeBinaryArray>().unwrap();
    assert_eq!(images.value(1), &[3]);
    assert!(web_batch(Vec::new(), &schema).is_none());
}

#[test]
fn web_batches_need_their_schema() {
    let row = WebRow { key: "k".to_string(), caption: None, image: None, image_ext: None };
    let wrong = Arc::new(Schema::new(vec![Field::new("key", DataType::Utf8, false)]));
    assert!(matches!(web_batch(vec![row], &wrong), Some(Err(BatchError::Arrow(_)))));
}

#[test]
fn csv_rows_are_kept_in_even_batches() {
    let record = |a: &str, b: &str| vec![a.to_string(), b.to_string()];
    let headers = record(" name ", " ");
    let columns = column_names(&headers);
    assert_eq!(columns, vec!["name".to_string(), "col_1".to_string()]);
    let schema = text_schema(&columns);
    assert_eq!(schema.field(1), &Field::new("col_1", DataType::Utf8, true));
    let mut rows = CsvBatcher::new(2, Some(3), 2);
    assert!(!rows.has_rows());
    assert_eq!(rows.push_record(&record("a", "")), CsvStep::More);
    assert_eq!(rows.push_record(&vec!["b".to_string()]), CsvStep::Flush);
    assert!(rows.texts_fit());
    let out = rows.flush(&schema).unwrap();
    assert_eq!(out.inner.num_rows(), 2);
    let second = out.inner.column(1).as_any().downcast_ref::<StringArray>().unwrap();
    assert!(second.is_null(0) && second.is_null(1));
    assert_eq!(rows.push_record(&record("c", "d")), CsvStep::Stop);
    assert!(rows.has_rows());
    let out = rows.flush(&schema).unwrap();
    let second = out.inner.column(1).as_any().downcast_ref::<StringArray>().unwrap();
    assert_eq!(second.value(0), "d");
    assert!(!rows.has_rows());
}

#[test]
fn csv_limits_take_at_least_one_row() {
    let mut rows = CsvBatcher::new(1, Some(0), 0);
    assert_eq!(rows.push_record(&vec!["x".to_string()]), CsvStep::Stop);
    let mut single = CsvBatcher::new(1, None, 0);
    assert_eq!(single.push_record(&vec!["x".to_string()]), CsvStep::Flush);
    let mut empty = CsvBatcher::new(0, None, 10);
    empty.push_record(&vec![]);
    let schema = Arc::new(Schema::empty());
    assert!(matches!(empty.flush(&schema), Err(BatchError::Arrow(_))));
}

#[test]
fn binary_columns_are_not_numbers() {
    let one = batch(
        vec![Field::new("bench_row_id", DataType::Binary, false)],
        vec![Arc::new(BinaryArray::from_vec(vec![b"x"]))],
    );
    assert!(matches!(
        filter_record_batch_lt_u64(&one, "bench_row_id", 1),
        Err(BatchError::NotU64)
    ));
}
