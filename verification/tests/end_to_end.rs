//! The library around real files: Parquet files that are written and read back, and an archive.
use std::io::Read;
use std::sync::Arc;

use arrow_array::{Array, Int32Array, LargeBinaryArray, RecordBatch};
use arrow_schema::{DataType, Field, Schema};
use parquet::arrow::arrow_reader::{
    ArrowReaderMetadata, ArrowReaderOptions, ParquetRecordBatchReaderBuilder, RowSelectionPolicy,
};
use parquet::arrow::{ArrowWriter, ProjectionMask};
use parquet::file::metadata::PageIndexPolicy;
use storage_bench::batches::Batch;
use storage_bench::blob_reads::{plan_blob_batch, plan_blob_read, summarize_blobs, BlobBatchRead};
use storage_bench::csv_rows::table_target;
use storage_bench::parquet_options::{
    writer_profile_of, ParquetReadMode, ParquetWriterOptions, ParquetWriterProfile,
};
use storage_bench::parquet_reads::{row_group_start_rows, OpenedParquetFile, RowCursor};
use storage_bench::rows::{fake_blob_bytes, with_fake_blobs, with_schema, RowNumbers};
use storage_bench::schemas::{
    add_blob_field, add_helper_fields, sanitize_schema, web_schema, BENCH_ROW_ID,
};
use storage_bench::web::{web_batch, web_texts_fit, EntryStep, WebAssembler, WebRow};
use tempfile::NamedTempFile;

fn blobs() -> RecordBatch {
    let schema = Arc::new(Schema::new(vec![
        Arc::new(Field::new("id", DataType::Int32, false)),
        Arc::new(Field::new("blob", DataType::LargeBinary, true)),
    ]));
    RecordBatch::try_new(
        schema,
        vec![
            Arc::new(Int32Array::from(vec![0, 1, 2, 3])),
            Arc::new(LargeBinaryArray::from_iter([
                Some(&b"zero"[..]),
                None,
                Some(&b"two-two"[..]),
                Some(&b"three"[..]),
            ])),
        ],
    )
    .unwrap()
}

fn written(batch: &RecordBatch, options: &ParquetWriterOptions) -> NamedTempFile {
    let file = NamedTempFile::new().unwrap();
    let properties = options.writer_properties().unwrap();
    let mut writer =
        ArrowWriter::try_new(file.reopen().unwrap(), batch.schema(), properties).unwrap();
    writer.write(batch).unwrap();
    writer.close().unwrap();
    file
}

struct Opened<'a> {
    file: &'a NamedTempFile,
    metadata: ArrowReaderMetadata,
    facts: OpenedParquetFile,
    starts: Vec<u64>,
}

fn open<'a>(file: &'a NamedTempFile, read_mode: ParquetReadMode) -> Opened<'a> {
    let options = match read_mode {
        ParquetReadMode::Sequential => ArrowReaderOptions::new(),
        ParquetReadMode::RowSelection => {
            ArrowReaderOptions::new().with_offset_index_policy(PageIndexPolicy::Required)
        }
    };
    let metadata = ArrowReaderMetadata::load(&file.reopen().unwrap(), options).unwrap();
    let footer = metadata.metadata();
    let entries: Vec<(String, Option<String>)> = match footer.file_metadata().key_value_metadata() {
        Some(entries) => entries.iter().map(|e| (e.key.clone(), e.value.clone())).collect(),
        None => Vec::new(),
    };
    let facts = OpenedParquetFile {
        rows: footer.file_metadata().num_rows() as u64,
        row_group_rows: footer.row_groups().iter().map(|g| g.num_rows() as u64).collect(),
        offset_index: footer.offset_index().is_some(),
        root_names: metadata.schema().fields().iter().map(|f| f.name().to_string()).collect(),
        read_mode,
        profile: writer_profile_of(&entries).unwrap(),
    };
    let starts = row_group_start_rows(&facts.row_group_rows);
    Opened { file, metadata, facts, starts }
}

impl Opened<'_> {
    fn read_blob(&self, row: u64) -> Option<Vec<u8>> {
        let plan = plan_blob_read(&self.facts, &self.starts, row, "blob").unwrap();
        let mask = ProjectionMask::roots(self.metadata.parquet_schema(), [plan.root]);
        let builder = ParquetRecordBatchReaderBuilder::new_with_metadata(
            self.file.reopen().unwrap(),
            self.metadata.clone(),
        )
        .with_row_groups(vec![plan.row_group])
        .with_projection(mask);
        let reader = match plan.selection {
            None => builder.with_batch_size(1024).build().unwrap(),
            Some(selection) => builder
                .with_row_selection(selection)
                .with_row_selection_policy(RowSelectionPolicy::Selectors)
                .with_batch_size(1)
                .build()
                .unwrap(),
        };
        let mut cursor = RowCursor::new(plan.target);
        for batch in reader {
            let batch = batch.unwrap();
            if let Some(at) = cursor.find(batch.num_rows() as u64) {
                let column = batch.column_by_name("blob").unwrap();
                let column = column.as_any().downcast_ref::<LargeBinaryArray>().unwrap();
                let at = at as usize;
                return if column.is_null(at) { None } else { Some(column.value(at).to_vec()) };
            }
        }
        panic!("the row was not returned")
    }
}

#[test]
fn row_selection_reads_exact_binary_value_from_default_file() {
    let file = written(&blobs(), &ParquetWriterOptions::default());
    let opened = open(&file, ParquetReadMode::RowSelection);
    assert!(opened.facts.has_offset_index());
    assert_eq!(opened.facts.writer_profile(), ParquetWriterProfile::Default);
    assert_eq!(opened.facts.row_count(), 4);
    assert_eq!(opened.read_blob(2), Some(b"two-two".to_vec()));
    assert_eq!(opened.read_blob(1), None);
}

#[test]
fn random_blob_writer_remains_native_parquet_and_readable() {
    let mut options = ParquetWriterOptions::random_blob(vec!["blob".to_string()]);
    options.data_page_size_limit = Some(16);
    options.max_row_group_bytes = Some(64);
    let file = written(&blobs(), &options);
    let opened = open(&file, ParquetReadMode::RowSelection);
    assert!(opened.facts.has_offset_index());
    assert_eq!(opened.facts.writer_profile(), ParquetWriterProfile::RandomBlob);
    assert_eq!(opened.read_blob(3), Some(b"three".to_vec()));

    let default_opened = open(&file, ParquetReadMode::Sequential);
    assert_eq!(default_opened.read_blob(0).map(|value| value.len()), Some(4));
    assert_eq!(ParquetWriterProfile::RandomBlob.as_str(), "random-blob");
}

#[test]
fn both_ways_of_reading_agree() {
    let file = written(&blobs(), &ParquetWriterOptions::default());
    let selected = open(&file, ParquetReadMode::RowSelection);
    let sequential = open(&file, ParquetReadMode::Sequential);
    for row in 0..4 {
        assert_eq!(selected.read_blob(row), sequential.read_blob(row));
    }
}

#[test]
fn blob_batches_are_read_from_a_file() {
    let file = written(&blobs(), &ParquetWriterOptions::default());
    let opened = open(&file, ParquetReadMode::RowSelection);
    let rows = vec![3, 0, 1];
    let plan = plan_blob_batch(&opened.facts, &rows, "blob").unwrap();
    let mask = ProjectionMask::roots(opened.metadata.parquet_schema(), [plan.root]);
    let reader = ParquetRecordBatchReaderBuilder::new_with_metadata(
        file.reopen().unwrap(),
        opened.metadata.clone(),
    )
    .with_projection(mask)
    .with_row_selection(plan.selection)
    .with_row_selection_policy(RowSelectionPolicy::Selectors)
    .with_batch_size(plan.sorted_rows.len())
    .build()
    .unwrap();
    let mut lengths = Vec::new();
    for batch in reader {
        let batch = batch.unwrap();
        let column = batch.column_by_name("blob").unwrap();
        let column = column.as_any().downcast_ref::<LargeBinaryArray>().unwrap();
        for at in 0..column.len() {
            lengths.push(if column.is_null(at) { None } else { Some(column.value(at).len()) });
        }
    }
    assert_eq!(lengths, vec![Some(4), None, Some(5)]);
    let read = summarize_blobs(&rows, &plan.sorted_rows, lengths, true).unwrap();
    let expected = BlobBatchRead { selected_blobs: 3, materialized_blobs: 2, total_bytes: 9 };
    assert_eq!(read, expected);
}

fn numbers_file() -> NamedTempFile {
    let schema = Arc::new(Schema::new(vec![Field::new("x", DataType::Int32, true)]));
    let column = Arc::new(Int32Array::from(vec![1, 2, 3]));
    let batch = RecordBatch::try_new(schema, vec![column]).unwrap();
    written(&batch, &ParquetWriterOptions::default())
}

/// Reads a file as a dataset: with plain names, and with the helper columns.
fn numbered_batches(file: &NamedTempFile) -> Vec<Batch> {
    let builder = ParquetRecordBatchReaderBuilder::try_new(file.reopen().unwrap()).unwrap();
    let clean = sanitize_schema(builder.schema());
    let numbered = add_helper_fields(&clean).unwrap().unwrap();
    assert!(numbered.fields().iter().any(|f| f.name() == BENCH_ROW_ID));
    let mut numbers = RowNumbers::new(0);
    let mut out = Vec::new();
    for batch in builder.with_batch_size(1024).build().unwrap() {
        let batch = Batch { inner: batch.unwrap() };
        let renamed = with_schema(&batch, &clean).unwrap();
        out.push(numbers.number(&renamed, &numbered).unwrap());
    }
    out
}

#[test]
fn parquet_dir_gets_row_id() {
    let file = numbers_file();
    let mut total = 0usize;
    for batch in numbered_batches(&file) {
        total += batch.inner.num_rows();
        assert!(batch.inner.schema().field_with_name(BENCH_ROW_ID).is_ok());
    }
    assert_eq!(total, 3);
}

#[test]
fn openvid_adds_fake_blob_column() {
    let file = numbers_file();
    let bytes_per_row = fake_blob_bytes(&Some("8".to_string()));
    let mut total = 0usize;
    for batch in numbered_batches(&file) {
        let schema = add_blob_field(&batch.inner.schema(), "video_blob");
        let field = schema.field_with_name("video_blob").unwrap();
        let marked = field.metadata().get(lance_arrow::BLOB_META_KEY);
        assert_eq!(marked.map(|v| v.as_str()), Some("true"));
        let batch = with_fake_blobs(&batch, &schema, bytes_per_row).unwrap();
        total += batch.inner.num_rows();
        let at = batch.inner.schema().index_of("video_blob").unwrap();
        let blob = batch.inner.column(at);
        assert_eq!(blob.len(), batch.inner.num_rows());
        let blob = blob.as_any().downcast_ref::<LargeBinaryArray>().unwrap();
        assert_eq!(blob.value(2), &[2, 0, 0, 0, 0, 0, 0, 0]);
    }
    assert_eq!(total, 3);
}

fn append(builder: &mut tar::Builder<Vec<u8>>, name: &str, data: &[u8]) {
    let mut header = tar::Header::new_gnu();
    header.set_mode(0o644);
    header.set_mtime(0);
    header.set_entry_type(tar::EntryType::Regular);
    header.set_size(data.len() as u64);
    header.set_cksum();
    builder.append_data(&mut header, name, data).unwrap();
}

#[test]
fn webdataset_tar_smoke() {
    let mut builder = tar::Builder::new(Vec::new());
    append(&mut builder, "00000000.txt", b"hello");
    append(&mut builder, "00000000.png", b"\x89PNG\r\n");
    let bytes = builder.into_inner().unwrap();
    assert_eq!(tar::Archive::new(&bytes[..]).entries().unwrap().count(), 2);

    let mut assembler = WebAssembler::new(None);
    let mut rows: Vec<WebRow> = Vec::new();
    for entry in tar::Archive::new(&bytes[..]).entries().unwrap() {
        let mut entry = entry.unwrap();
        let name = entry.path().unwrap().to_str().unwrap().to_string();
        if let EntryStep::Read { ext, row } = assembler.begin_entry(&name) {
            rows.extend(row);
            let mut data = Vec::new();
            entry.read_to_end(&mut data).unwrap();
            assembler.finish_entry(ext, data);
        }
    }
    rows.extend(assembler.flush());
    assert_eq!(rows.len(), 1);
    assert_eq!(rows[0].caption, Some("hello".to_string()));
    assert_eq!(rows[0].image_ext, Some("png".to_string()));

    let schema = web_schema();
    assert!(web_texts_fit(&rows));
    let batch = web_batch(rows, &schema).unwrap().unwrap();
    let numbered = add_helper_fields(&schema).unwrap().unwrap();
    let batch = RowNumbers::new(0).number(&batch, &numbered).unwrap();
    assert_eq!(batch.inner.num_rows(), 1);
    assert!(batch.inner.schema().field_with_name(BENCH_ROW_ID).is_ok());
}

#[test]
fn tables_have_a_target() {
    let target = table_target("data/openvid");
    assert_eq!(target.dir, "data/openvid");
    assert_eq!(target.file, "data/openvid/openvid.parquet");
    assert_eq!(target.partial, "data/openvid/openvid.parquet.tmp");
    let target = table_target("data/openvid/openvid.parquet");
    assert_eq!(target.dir, "data/openvid");
    assert_eq!(target.file, "data/openvid/openvid.parquet");
    assert_eq!(target.partial, "data/openvid/openvid.parquet.tmp");
}
