//! The sections of the report.
use vstd::prelude::*;

use crate::cases::keys_of;
use crate::records::RunRecord;
use crate::report::{lines_for, lines_text, lines_view, report_datasets, table_lines};
use crate::tables::{
    blob_line, evolve_line, ingest_line, scan_line, take_line, write_blob_row, write_evolve_row,
    write_ingest_row, write_scan_row, write_take_row, Rates,
};
use crate::workload::{DatasetName, Workload};

verus! {

/// Writes the lines of a table: those of the records of a workload, as `line_text` gives each.
fn write_lines<F: Fn(DatasetName, usize) -> String>(
    out: &mut String,
    records: &Vec<RunRecord>,
    workload: Workload,
    line_text: F,
    Ghost(line): Ghost<spec_fn(DatasetName, int) -> Seq<char>>,
)
    requires
        forall|dataset: DatasetName, at: usize|
            at < records.len() ==> #[trigger] call_requires(line_text, (dataset, at)),
        forall|dataset: DatasetName, at: usize, text: String| #[trigger]
            call_ensures(line_text, (dataset, at), text) ==> text@ == line(dataset, at as int),
    ensures
        final(out)@ == old(out)@ + lines_text(
            table_lines(keys_of(records@), workload, report_datasets()),
            line,
        ),
{
    let ghost start = out@;
    let lines = lines_for(records, workload);
    let ghost all = lines_view(lines@);
    let mut i: usize = 0;
    assert(all.take(0) =~= Seq::<(DatasetName, int)>::empty());
    assert(out@ =~= start + lines_text(all.take(0), line));
    while i < lines.len()
        invariant
            i <= lines.len(),
            all == lines_view(lines@),
            forall|k: int| 0 <= k < lines.len() ==> (#[trigger] lines@[k]).1 < records.len(),
            forall|dataset: DatasetName, at: usize|
                at < records.len() ==> #[trigger] call_requires(line_text, (dataset, at)),
            forall|dataset: DatasetName, at: usize, text: String| #[trigger]
                call_ensures(line_text, (dataset, at), text) ==> text@ == line(dataset, at as int),
            out@ == start + lines_text(all.take(i as int), line),
        decreases lines.len() - i,
    {
        assert(all.take(i as int + 1).drop_last() =~= all.take(i as int));
        let (dataset, at) = lines[i];
        let text = line_text(dataset, at);
        out.append(text.as_str());
        i += 1;
        assert(out@ =~= start + lines_text(all.take(i as int), line));
    }
    assert(all.take(all.len() as int) =~= all);
}

/// The lines of the ingest table.
pub open spec fn ingest_lines(records: Seq<RunRecord>, rates: Seq<Rates>) -> spec_fn(DatasetName, int) -> Seq<char> {
    |dataset: DatasetName, at: int| ingest_line(records, rates, dataset, at)
}

/// The ingest section.
pub open spec fn ingest_section(records: Seq<RunRecord>, rates: Seq<Rates>) -> Seq<char> {
    "### Ingest\n\n- Query shape: read Arrow `RecordBatch` stream from dataset adapter; write into engine-native storage.\n\n| Dataset | Engine | Rows | Time | Rows/s | Bytes | Bytes/s | Output size |\n|---|---|---:|---:|---:|---:|---:|---:|\n"@ + lines_text(
        table_lines(keys_of(records), Workload::Ingest, report_datasets()),
        ingest_lines(records, rates),
    ) + "\n"@
}

/// Writes the ingest section.
pub fn write_ingest_section(out: &mut String, records: &Vec<RunRecord>, rates: &Vec<Rates>)
    requires
        rates.len() == records.len(),
    ensures
        final(out)@ == old(out)@ + ingest_section(records@, rates@),
{
    out.append("### Ingest\n\n- Query shape: read Arrow `RecordBatch` stream from dataset adapter; write into engine-native storage.\n\n| Dataset | Engine | Rows | Time | Rows/s | Bytes | Bytes/s | Output size |\n|---|---|---:|---:|---:|---:|---:|---:|\n");
    let line_text = |dataset: DatasetName, at: usize| -> (text: String)
        requires
            at < records.len(),
            rates.len() == records.len(),
        ensures
            text@ == ingest_lines(records@, rates@)(dataset, at as int),
        {
            let mut text = String::new();
            write_ingest_row(&mut text, records, rates, dataset, at);
            text
        };
    write_lines(out, records, Workload::Ingest, line_text, Ghost(ingest_lines(records@, rates@)));
    out.append("\n");
    assert(out@ =~= old(out)@ + ingest_section(records@, rates@));
}

/// The lines of the random row access table.
pub open spec fn take_lines(records: Seq<RunRecord>) -> spec_fn(DatasetName, int) -> Seq<char> {
    |dataset: DatasetName, at: int| take_line(records, dataset, at)
}

/// The random row access section.
pub open spec fn take_section(records: Seq<RunRecord>) -> Seq<char> {
    "### Random Take (1000 iters)\n\n- Query shape: Open the dataset/file once; K times pick a random `row_offset`; projection=`bench_small_u64`; Lance uses `Dataset::take(&[row_offset], projection)`; Parquet reads the row group containing `row_offset` with a projected `ParquetRecordBatchReader`.\n\n| Dataset | Engine | Time | p50 | p95 | p99 |\n|---|---|---:|---:|---:|---:|\n"@ + lines_text(
        table_lines(keys_of(records), Workload::RandomTake, report_datasets()),
        take_lines(records),
    ) + "\n"@
}

/// Writes the random row access section.
pub fn write_take_section(out: &mut String, records: &Vec<RunRecord>)
    ensures
        final(out)@ == old(out)@ + take_section(records@),
{
    out.append("### Random Take (1000 iters)\n\n- Query shape: Open the dataset/file once; K times pick a random `row_offset`; projection=`bench_small_u64`; Lance uses `Dataset::take(&[row_offset], projection)`; Parquet reads the row group containing `row_offset` with a projected `ParquetRecordBatchReader`.\n\n| Dataset | Engine | Time | p50 | p95 | p99 |\n|---|---|---:|---:|---:|---:|\n");
    let line_text = |dataset: DatasetName, at: usize| -> (text: String)
        requires
            at < records.len(),
        ensures
            text@ == take_lines(records@)(dataset, at as int),
        {
            let mut text = String::new();
            write_take_row(&mut text, records, dataset, at);
            text
        };
    write_lines(out, records, Workload::RandomTake, line_text, Ghost(take_lines(records@)));
    out.append("\n");
    assert(out@ =~= old(out)@ + take_section(records@));
}

/// The lines of the random blob access table.
pub open spec fn blob_lines(records: Seq<RunRecord>) -> spec_fn(DatasetName, int) -> Seq<char> {
    |dataset: DatasetName, at: int| blob_line(records, dataset, at)
}

/// The random blob access section.
pub open spec fn blob_section(records: Seq<RunRecord>) -> Seq<char> {
    "### Random Blob (1000 iters)\n\n- Query shape: K times pick a random `row_offset`; Lance calls `Dataset::take_blobs_by_indices(&[row_offset], column)` and reads the returned bytes; Parquet projects `[column]` for the row group containing `row_offset` and measures the returned binary length.\n\n| Dataset | Engine | Total bytes | Time | p50 | p95 | p99 |\n|---|---|---:|---:|---:|---:|---:|\n"@ + lines_text(
        table_lines(keys_of(records), Workload::RandomBlob, report_datasets()),
        blob_lines(records),
    ) + "\n- OpenVid blob column: `video_blob` (synthetic, default 256 bytes/row during ingest; configurable via `OPENVID_FAKE_BLOB_BYTES`).\n- LAION blob column: `image` (decoded bytes from WebDataset shards).\n\n"@
}

/// Writes the random blob access section.
pub fn write_blob_section(out: &mut String, records: &Vec<RunRecord>)
    ensures
        final(out)@ == old(out)@ + blob_section(records@),
{
    out.append("### Random Blob (1000 iters)\n\n- Query shape: K times pick a random `row_offset`; Lance calls `Dataset::take_blobs_by_indices(&[row_offset], column)` and reads the returned bytes; Parquet projects `[column]` for the row group containing `row_offset` and measures the returned binary length.\n\n| Dataset | Engine | Total bytes | Time | p50 | p95 | p99 |\n|---|---|---:|---:|---:|---:|---:|\n");
    let line_text = |dataset: DatasetName, at: usize| -> (text: String)
        requires
            at < records.len(),
        ensures
            text@ == blob_lines(records@)(dataset, at as int),
        {
            let mut text = String::new();
            write_blob_row(&mut text, records, dataset, at);
            text
        };
    write_lines(out, records, Workload::RandomBlob, line_text, Ghost(blob_lines(records@)));
    out.append("\n- OpenVid blob column: `video_blob` (synthetic, default 256 bytes/row during ingest; configurable via `OPENVID_FAKE_BLOB_BYTES`).\n- LAION blob column: `image` (decoded bytes from WebDataset shards).\n\n");
    assert(out@ =~= old(out)@ + blob_section(records@));
}

/// The lines of the schema evolution table.
pub open spec fn evolve_lines(records: Seq<RunRecord>) -> spec_fn(DatasetName, int) -> Seq<char> {
    |dataset: DatasetName, at: int| evolve_line(records, dataset, at)
}

/// The schema evolution section.
pub open spec fn evolve_section(records: Seq<RunRecord>) -> Seq<char> {
    "### Evolution / Backfill\n\n- Query shape: Lance uses `Dataset::open(uri).add_columns(SqlExpressions([(new_column, expr)]))`; Parquet rewrites the file by scanning all rows and writing a new file with the derived column.\n\n| Dataset | Engine | Base size | Evolved size | Bytes written | Time | Notes |\n|---|---|---:|---:|---:|---:|---|\n"@ + lines_text(
        table_lines(keys_of(records), Workload::EvolutionBackfill, report_datasets()),
        evolve_lines(records),
    ) + "\n"@
}

/// Writes the schema evolution section.
pub fn write_evolve_section(out: &mut String, records: &Vec<RunRecord>)
    ensures
        final(out)@ == old(out)@ + evolve_section(records@),
{
    out.append("### Evolution / Backfill\n\n- Query shape: Lance uses `Dataset::open(uri).add_columns(SqlExpressions([(new_column, expr)]))`; Parquet rewrites the file by scanning all rows and writing a new file with the derived column.\n\n| Dataset | Engine | Base size | Evolved size | Bytes written | Time | Notes |\n|---|---|---:|---:|---:|---:|---|\n");
    let line_text = |dataset: DatasetName, at: usize| -> (text: String)
        requires
            at < records.len(),
        ensures
            text@ == evolve_lines(records@)(dataset, at as int),
        {
            let mut text = String::new();
            write_evolve_row(&mut text, records, dataset, at);
            text
        };
    write_lines(out, records, Workload::EvolutionBackfill, line_text, Ghost(evolve_lines(records@)));
    out.append("\n");
    assert(out@ =~= old(out)@ + evolve_section(records@));
}

/// What a scan does, as the report tells it.
pub open spec fn query_shape(workload: Workload) -> Seq<char> {
    match workload {
        Workload::ScanFull => "Parquet: open file once, then per scan build a projected `ParquetRecordBatchReader` and count rows (filter cases apply the predicate in-memory); Lance: open `Dataset` once, build `Dataset::scan().project(all_non_blob_cols?)` (and `.filter(sql_predicate?)` for filter cases), then per scan build a DataFusion plan via `create_plan()` and `execute(..)`; each timed scan run is preceded by one untimed warmup scan with the same query shape; optional `--repeats N` reuses the opened dataset/file and scan configuration, runs N timed scans, and the report shows p50/p95/p99 across repeats."@,
        Workload::ScanProject => "Same as full scan but projection is `project([\"bench_small_u64\"])`; each timed scan run is preceded by one untimed warmup scan with the same query shape; optional `--repeats N` reuses the opened dataset/file and scan configuration, runs N timed scans, and the report shows p50/p95/p99 across repeats."@,
        Workload::ScanFilterLow | Workload::ScanFilterHigh => "Same as projection scan plus predicate `bench_small_u64 < THRESHOLD` (Parquet applies the predicate in-memory after decoding; Lance uses a SQL filter string with predicate pushdown); each timed scan run is preceded by one untimed warmup scan with the same query shape; optional `--repeats N` reuses the opened dataset/file and scan configuration, runs N timed scans, and the report shows p50/p95/p99 across repeats."@,
        _ => "-"@,
    }
}

/// What a scan does, as the report tells it.
pub fn query_shape_for_workload(workload: Workload) -> (shape: &'static str)
    ensures
        shape@ == query_shape(workload),
{
    match workload {
        Workload::ScanFull => "Parquet: open file once, then per scan build a projected `ParquetRecordBatchReader` and count rows (filter cases apply the predicate in-memory); Lance: open `Dataset` once, build `Dataset::scan().project(all_non_blob_cols?)` (and `.filter(sql_predicate?)` for filter cases), then per scan build a DataFusion plan via `create_plan()` and `execute(..)`; each timed scan run is preceded by one untimed warmup scan with the same query shape; optional `--repeats N` reuses the opened dataset/file and scan configuration, runs N timed scans, and the report shows p50/p95/p99 across repeats.",
        Workload::ScanProject => "Same as full scan but projection is `project([\"bench_small_u64\"])`; each timed scan run is preceded by one untimed warmup scan with the same query shape; optional `--repeats N` reuses the opened dataset/file and scan configuration, runs N timed scans, and the report shows p50/p95/p99 across repeats.",
        Workload::ScanFilterLow | Workload::ScanFilterHigh => "Same as projection scan plus predicate `bench_small_u64 < THRESHOLD` (Parquet applies the predicate in-memory after decoding; Lance uses a SQL filter string with predicate pushdown); each timed scan run is preceded by one untimed warmup scan with the same query shape; optional `--repeats N` reuses the opened dataset/file and scan configuration, runs N timed scans, and the report shows p50/p95/p99 across repeats.",
        _ => "-",
    }
}

/// The lines of a scan table.
pub open spec fn scan_lines(records: Seq<RunRecord>, rates: Seq<Rates>) -> spec_fn(
    DatasetName,
    int,
) -> Seq<char> {
    |dataset: DatasetName, at: int| scan_line(records, rates, dataset, at)
}

/// The head of a scan table.
pub open spec fn scan_head(title: Seq<char>, workload: Workload) -> Seq<char> {
    "#### "@ + title + "\n\n- Query shape: "@ + query_shape(workload)
        + "\n\n| Dataset | Engine | Rows | p50 | p95 | p99 | Rows/s | Bytes | Bytes/s |\n|---|---|---:|---:|---:|---:|---:|---:|---:|\n"@
}

/// A scan table.
pub open spec fn scan_table(
    records: Seq<RunRecord>,
    rates: Seq<Rates>,
    title: Seq<char>,
    workload: Workload,
) -> Seq<char> {
    scan_head(title, workload) + lines_text(
        table_lines(keys_of(records), workload, report_datasets()),
        scan_lines(records, rates),
    ) + "\n"@
}

/// Writes a scan table.
pub fn write_scan_table(
    out: &mut String,
    records: &Vec<RunRecord>,
    rates: &Vec<Rates>,
    title: &str,
    workload: Workload,
)
    requires
        rates.len() == records.len(),
    ensures
        final(out)@ == old(out)@ + scan_table(records@, rates@, title@, workload),
{
    out.append("#### ");
    out.append(title);
    out.append("\n\n- Query shape: ");
    out.append(query_shape_for_workload(workload));
    out.append("\n\n| Dataset | Engine | Rows | p50 | p95 | p99 | Rows/s | Bytes | Bytes/s |\n|---|---|---:|---:|---:|---:|---:|---:|---:|\n");
    assert(out@ =~= old(out)@ + scan_head(title@, workload));
    let line_text = |dataset: DatasetName, at: usize| -> (text: String)
        requires
            at < records.len(),
            rates.len() == records.len(),
        ensures
            text@ == scan_lines(records@, rates@)(dataset, at as int),
        {
            let mut text = String::new();
            write_scan_row(&mut text, records, rates, dataset, at);
            text
        };
    write_lines(out, records, workload, line_text, Ghost(scan_lines(records@, rates@)));
    out.append("\n");
    assert(out@ =~= old(out)@ + scan_table(records@, rates@, title@, workload));
}

/// The scan section: full, projected and filtered scans.
pub open spec fn scan_sections(records: Seq<RunRecord>, rates: Seq<Rates>) -> Seq<char> {
    "### Scan\n\n"@ + scan_table(records, rates, "Full scan"@, Workload::ScanFull) + scan_table(
        records,
        rates,
        "Projection scan"@,
        Workload::ScanProject,
    ) + scan_table(
        records,
        rates,
        "Filtered scan (low selectivity)"@,
        Workload::ScanFilterLow,
    ) + scan_table(
        records,
        rates,
        "Filtered scan (high selectivity)"@,
        Workload::ScanFilterHigh,
    )
}

/// Writes the scan section.
pub fn write_scan_sections(out: &mut String, records: &Vec<RunRecord>, rates: &Vec<Rates>)
    requires
        rates.len() == records.len(),
    ensures
        final(out)@ == old(out)@ + scan_sections(records@, rates@),
{
    out.append("### Scan\n\n");
    write_scan_table(out, records, rates, "Full scan", Workload::ScanFull);
    write_scan_table(out, records, rates, "Projection scan", Workload::ScanProject);
    write_scan_table(
        out,
        records,
        rates,
        "Filtered scan (low selectivity)",
        Workload::ScanFilterLow,
    );
    write_scan_table(
        out,
        records,
        rates,
        "Filtered scan (high selectivity)",
        Workload::ScanFilterHigh,
    );
    assert(out@ =~= old(out)@ + scan_sections(records@, rates@));
}

/// The results of the report.
pub open spec fn results_section(records: Seq<RunRecord>, rates: Seq<Rates>) -> Seq<char> {
    "## Results\n\n- Primary comparison: `parquet` vs `lance`.\n\n"@ + ingest_section(
        records,
        rates,
    ) + scan_sections(records, rates) + take_section(records) + blob_section(records)
        + evolve_section(records)
}

/// Writes the results of the report.
pub fn write_results_section(out: &mut String, records: &Vec<RunRecord>, rates: &Vec<Rates>)
    requires
        rates.len() == records.len(),
    ensures
        final(out)@ == old(out)@ + results_section(records@, rates@),
{
    out.append("## Results\n\n- Primary comparison: `parquet` vs `lance`.\n\n");
    write_ingest_section(out, records, rates);
    write_scan_sections(out, records, rates);
    write_take_section(out, records);
    write_blob_section(out, records);
    write_evolve_section(out, records);
    assert(out@ =~= old(out)@ + results_section(records@, rates@));
}

} // verus!
