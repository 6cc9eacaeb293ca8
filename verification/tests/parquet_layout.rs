//! Writer settings of Parquet files.
use parquet::file::properties::{WriterProperties, DEFAULT_PAGE_SIZE};
use parquet::schema::types::ColumnPath;
use storage_bench::parquet_options::{ParquetWriterOptions, RANDOM_BLOB_WRITE_BATCH_SIZE};

#[test]
fn random_blob_layout_keeps_default_column_encoding() {
    let defaults = WriterProperties::default();
    let tuned = ParquetWriterOptions::random_blob(vec!["blob".to_string()])
        .writer_properties()
        .unwrap()
        .unwrap();
    let column = ColumnPath::from("blob");

    assert_eq!(tuned.encoding(&column), defaults.encoding(&column));
    assert_eq!(tuned.compression(&column), defaults.compression(&column));
    assert_eq!(
        tuned.dictionary_enabled(&column),
        defaults.dictionary_enabled(&column)
    );
    assert_eq!(
        tuned.statistics_enabled(&column),
        defaults.statistics_enabled(&column)
    );
    assert_eq!(tuned.data_page_size_limit(), DEFAULT_PAGE_SIZE);
    assert_eq!(tuned.write_batch_size(), RANDOM_BLOB_WRITE_BATCH_SIZE);
}
