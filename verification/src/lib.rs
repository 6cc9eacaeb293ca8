//! Decision logic of a storage-format benchmark.
pub mod args;
pub mod batches;
pub mod blob_reads;
pub mod cases;
pub mod chained_rows;
pub mod command_laws;
pub mod commands;
pub mod commit_laws;
pub mod commits;
pub mod csv_rows;
pub mod dataset_laws;
pub mod document;
pub mod document_laws;
pub mod error_laws;
pub mod fields;
pub mod file_order;
pub mod identity;
pub mod lance;
pub mod measure;
pub mod metrics;
pub mod numbers;
pub mod params;
pub mod parquet_options;
pub mod parquet_reads;
pub mod paths;
pub mod plot;
pub mod plot_laws;
pub mod query;
pub mod read_laws;
pub mod readers;
pub mod record_laws;
pub mod records;
pub mod repeated_rows;
pub mod report;
pub mod report_laws;
pub mod result;
pub mod rows;
pub mod run_laws;
pub mod runs;
pub mod scan_laws;
pub mod scans;
pub mod schemas;
pub mod sections;
pub mod selection;
pub mod sorting;
pub mod suite;
pub mod suite_coverage;
pub mod suite_laws;
pub mod suite_runs;
pub mod table_laws;
pub mod tables;
pub mod text;
pub mod text_laws;
pub mod units;
pub mod web;
pub mod web_laws;
pub mod workload;
