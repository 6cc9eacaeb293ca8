# storage_bench

A benchmark of columnar storage engines, Lance and Parquet, on datasets of text, images and video.

`src/` is the library: how datasets are read and numbered, what a scan, a random read or an ingest
asks of an engine, what is recorded of a run, what a suite runs and in which order, and how the
results become a report and plots. Verus proves it against its contracts. Only the start of a clock
has none: nothing can be said of the time at which it starts.

Calls into other crates stand behind a few declarations with contracts that are taken on trust.
Each says in its comment which function it stands for. They are in:

- `fields.rs`, `batches.rs` and `schemas.rs` for Arrow fields, schemas and batches,
- `parquet_options.rs` and `blob_reads.rs` for Parquet writer settings and row selections,
- `measure.rs` for latency histograms and random numbers,
- `metrics.rs`, `records.rs` and `text.rs` for the standard library.

What holds of the library as a whole is stated in proof functions whose names begin with `law_`.

`app/` is the program around the library: the command line, files, the engines themselves,
floating-point rates and drawing. `tests/` runs the library on concrete values and real files.
