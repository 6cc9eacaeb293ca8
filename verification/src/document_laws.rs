//! What holds of the report as a whole.
use vstd::prelude::*;

use crate::args::{dataset_id, dataset_named, DatasetArg};
use crate::cases::{
    key_matches, keys_of, last_match, layout_versions, plain_versions, version_less,
};
use crate::commits::{commit_parts, commits_of, first_known, ranked_commits};
use crate::document::{
    head_text, input_rows, inputs, inputs_text, layout_note, layout_part, layout_parts,
    layout_record, number_or_mark, plain_key, report_text, scanned_versions, tail_text,
    version_parts,
};
use crate::numbers::{decimal, law_decimal_round_trip};
use crate::records::{KeyView, RunRecord};
use crate::report::{dataset_name, lines_text, report_datasets, row, table_lines, u64_param};
use crate::report_laws::lemma_last_match;
use crate::sections::{
    blob_section, evolve_section, ingest_section, scan_head, scan_sections, scan_table,
    take_section,
};
use crate::table_laws::lemma_sorted_set;
use crate::tables::{blob_line, evolve_line, ingest_line, scan_line, take_line, Rates};
use crate::text::{has_prefix, joined};
use crate::units::bytes_text;
use crate::workload::{DatasetName, EngineName, Workload};

verus! {

// ---------------------------------------------------------------------------
// Sections.
// ---------------------------------------------------------------------------

/// Whether a text begins with a heading and ends with the head of a table: the names of its columns
/// and the line below.
pub open spec fn begins_table(
    head: Seq<char>,
    heading: Seq<char>,
    columns: Seq<Seq<char>>,
    rule: Seq<char>,
) -> bool {
    let end = row(columns) + rule;
    has_prefix(head, heading) && head.len() >= end.len() && head.skip(head.len() - end.len()) == end
}

/// The pieces of a row, one after the other.
proof fn lemma_joined(columns: Seq<Seq<char>>)
    requires
        6 <= columns.len() <= 9,
    ensures
        joined(columns, " | "@) == joined(columns.take(5), " | "@) + " | "@ + columns[5] + if columns.len()
            > 6 {
            " | "@ + columns[6]
        } else {
            Seq::<char>::empty()
        } + if columns.len() > 7 {
            " | "@ + columns[7]
        } else {
            Seq::<char>::empty()
        } + if columns.len() > 8 {
            " | "@ + columns[8]
        } else {
            Seq::<char>::empty()
        },
        joined(columns.take(5), " | "@) == columns[0] + " | "@ + columns[1] + " | "@ + columns[2]
            + " | "@ + columns[3] + " | "@ + columns[4],
{
    reveal_with_fuel(joined, 2);
    let n = columns.len();
    assert(columns.take(2).drop_last() =~= columns.take(1));
    assert(columns.take(3).drop_last() =~= columns.take(2));
    assert(columns.take(4).drop_last() =~= columns.take(3));
    assert(columns.take(5).drop_last() =~= columns.take(4));
    assert(columns.take(6).drop_last() =~= columns.take(5));
    assert(joined(columns.take(1), " | "@) == columns[0]);
    assert(joined(columns.take(2), " | "@) == columns[0] + " | "@ + columns[1]);
    assert(joined(columns.take(3), " | "@) == joined(columns.take(2), " | "@) + " | "@ + columns[2]);
    assert(joined(columns.take(4), " | "@) == joined(columns.take(3), " | "@) + " | "@ + columns[3]);
    assert(joined(columns.take(5), " | "@) == joined(columns.take(4), " | "@) + " | "@ + columns[4]);
    assert(joined(columns.take(6), " | "@) == joined(columns.take(5), " | "@) + " | "@ + columns[5]);
    if n > 6 {
        assert(columns.take(7).drop_last() =~= columns.take(6));
        assert(joined(columns.take(7), " | "@) == joined(columns.take(6), " | "@) + " | "@ + columns[6]);
    }
    if n > 7 {
        assert(columns.take(8).drop_last() =~= columns.take(7));
        assert(joined(columns.take(8), " | "@) == joined(columns.take(7), " | "@) + " | "@ + columns[7]);
    }
    if n > 8 {
        assert(columns.take(9).drop_last() =~= columns.take(8));
        assert(joined(columns.take(9), " | "@) == joined(columns.take(8), " | "@) + " | "@ + columns[8]);
    }
    assert(columns.take(n as int) =~= columns);
    let none = Seq::<char>::empty();
    let j = joined(columns.take(5), " | "@) + " | "@ + columns[5];
    assert(j + none + none + none =~= j);
    if n > 6 {
        let k = j + (" | "@ + columns[6]);
        assert(k =~= j + " | "@ + columns[6]);
        assert(k + none + none =~= k);
        if n > 7 {
            let l = k + (" | "@ + columns[7]);
            assert(l =~= k + " | "@ + columns[7]);
            assert(l + none =~= l);
            if n > 8 {
                assert(l + (" | "@ + columns[8]) =~= l + " | "@ + columns[8]);
            }
        }
    }
}

/// The ingest section lists the ingests, with the line of each below the names of its columns.
pub proof fn law_ingest_section_lists_ingests(
    records: Seq<RunRecord>,
    rates: Seq<Rates>,
    columns: Seq<Seq<char>>,
)
    requires
        columns == seq!["Dataset"@, "Engine"@, "Rows"@, "Time"@, "Rows/s"@, "Bytes"@, "Bytes/s"@, "Output size"@],
    ensures
        exists|head: Seq<char>| #[trigger]
            begins_table(
                head,
                "### Ingest\n"@,
                columns,
                "|---|---|---:|---:|---:|---:|---:|---:|\n"@,
            ) && ingest_section(records, rates) == head + lines_text(
                table_lines(keys_of(records), Workload::Ingest, report_datasets()),
                |dataset: DatasetName, at: int| ingest_line(records, rates, dataset, at),
            ) + "\n"@,
{
    let head = "### Ingest\n\n- Query shape: read Arrow `RecordBatch` stream from dataset adapter; write into engine-native storage.\n\n| Dataset | Engine | Rows | Time | Rows/s | Bytes | Bytes/s | Output size |\n|---|---|---:|---:|---:|---:|---:|---:|\n"@;
    reveal_strlit("### Ingest\n\n- Query shape: read Arrow `RecordBatch` stream from dataset adapter; write into engine-native storage.\n\n| Dataset | Engine | Rows | Time | Rows/s | Bytes | Bytes/s | Output size |\n|---|---|---:|---:|---:|---:|---:|---:|\n");
    reveal_strlit("### Ingest\n");
    reveal_strlit("|---|---|---:|---:|---:|---:|---:|---:|\n");
    reveal_strlit("| ");
    reveal_strlit(" | ");
    reveal_strlit(" |\n");
    reveal_strlit("Dataset");
    reveal_strlit("Engine");
    reveal_strlit("Rows");
    reveal_strlit("Time");
    reveal_strlit("Rows/s");
    reveal_strlit("Bytes");
    reveal_strlit("Bytes/s");
    reveal_strlit("Output size");
    lemma_joined(columns);
    let end = row(columns) + "|---|---|---:|---:|---:|---:|---:|---:|\n"@;
    assert(head.subrange(0, 11) =~= "### Ingest\n"@);
    assert(head.skip(head.len() - end.len()) =~= end);
    assert(begins_table(head, "### Ingest\n"@, columns, "|---|---|---:|---:|---:|---:|---:|---:|\n"@));
}

/// The section of random row access lists these results, with the line of each below the names of
/// its columns.
pub proof fn law_take_section_lists_takes(
    records: Seq<RunRecord>,
    columns: Seq<Seq<char>>,
)
    requires
        columns == seq!["Dataset"@, "Engine"@, "Time"@, "p50"@, "p95"@, "p99"@],
    ensures
        exists|head: Seq<char>| #[trigger]
            begins_table(
                head,
                "### Random Take"@,
                columns,
                "|---|---|---:|---:|---:|---:|\n"@,
            ) && take_section(records) == head + lines_text(
                table_lines(keys_of(records), Workload::RandomTake, report_datasets()),
                |dataset: DatasetName, at: int| take_line(records, dataset, at),
            ) + "\n"@,
{
    let head = "### Random Take (1000 iters)\n\n- Query shape: Open the dataset/file once; K times pick a random `row_offset`; projection=`bench_small_u64`; Lance uses `Dataset::take(&[row_offset], projection)`; Parquet reads the row group containing `row_offset` with a projected `ParquetRecordBatchReader`.\n\n| Dataset | Engine | Time | p50 | p95 | p99 |\n|---|---|---:|---:|---:|---:|\n"@;
    reveal_strlit("### Random Take (1000 iters)\n\n- Query shape: Open the dataset/file once; K times pick a random `row_offset`; projection=`bench_small_u64`; Lance uses `Dataset::take(&[row_offset], projection)`; Parquet reads the row group containing `row_offset` with a projected `ParquetRecordBatchReader`.\n\n| Dataset | Engine | Time | p50 | p95 | p99 |\n|---|---|---:|---:|---:|---:|\n");
    reveal_strlit("### Random Take");
    reveal_strlit("|---|---|---:|---:|---:|---:|\n");
    reveal_strlit("| ");
    reveal_strlit(" | ");
    reveal_strlit(" |\n");
    reveal_strlit("Dataset");
    reveal_strlit("Engine");
    reveal_strlit("Time");
    reveal_strlit("p50");
    reveal_strlit("p95");
    reveal_strlit("p99");
    lemma_joined(columns);
    let end = row(columns) + "|---|---|---:|---:|---:|---:|\n"@;
    assert(head.subrange(0, 15) =~= "### Random Take"@);
    assert(head.skip(head.len() - end.len()) =~= end);
    assert(begins_table(head, "### Random Take"@, columns, "|---|---|---:|---:|---:|---:|\n"@));
}

/// The section of random blob access lists these results, with the line of each below the names of
/// its columns.
pub proof fn law_blob_section_lists_blobs(
    records: Seq<RunRecord>,
    columns: Seq<Seq<char>>,
)
    requires
        columns == seq!["Dataset"@, "Engine"@, "Total bytes"@, "Time"@, "p50"@, "p95"@, "p99"@],
    ensures
        exists|head: Seq<char>| #[trigger]
            begins_table(
                head,
                "### Random Blob"@,
                columns,
                "|---|---|---:|---:|---:|---:|---:|\n"@,
            ) && blob_section(records) == head + lines_text(
                table_lines(keys_of(records), Workload::RandomBlob, report_datasets()),
                |dataset: DatasetName, at: int| blob_line(records, dataset, at),
            ) + "\n- OpenVid blob column: `video_blob` (synthetic, default 256 bytes/row during ingest; configurable via `OPENVID_FAKE_BLOB_BYTES`).\n- LAION blob column: `image` (decoded bytes from WebDataset shards).\n\n"@,
{
    let head = "### Random Blob (1000 iters)\n\n- Query shape: K times pick a random `row_offset`; Lance calls `Dataset::take_blobs_by_indices(&[row_offset], column)` and reads the returned bytes; Parquet projects `[column]` for the row group containing `row_offset` and measures the returned binary length.\n\n| Dataset | Engine | Total bytes | Time | p50 | p95 | p99 |\n|---|---|---:|---:|---:|---:|---:|\n"@;
    reveal_strlit("### Random Blob (1000 iters)\n\n- Query shape: K times pick a random `row_offset`; Lance calls `Dataset::take_blobs_by_indices(&[row_offset], column)` and reads the returned bytes; Parquet projects `[column]` for the row group containing `row_offset` and measures the returned binary length.\n\n| Dataset | Engine | Total bytes | Time | p50 | p95 | p99 |\n|---|---|---:|---:|---:|---:|---:|\n");
    reveal_strlit("### Random Blob");
    reveal_strlit("|---|---|---:|---:|---:|---:|---:|\n");
    reveal_strlit("| ");
    reveal_strlit(" | ");
    reveal_strlit(" |\n");
    reveal_strlit("Dataset");
    reveal_strlit("Engine");
    reveal_strlit("Total bytes");
    reveal_strlit("Time");
    reveal_strlit("p50");
    reveal_strlit("p95");
    reveal_strlit("p99");
    lemma_joined(columns);
    let end = row(columns) + "|---|---|---:|---:|---:|---:|---:|\n"@;
    assert(head.subrange(0, 15) =~= "### Random Blob"@);
    assert(head.skip(head.len() - end.len()) =~= end);
    assert(begins_table(head, "### Random Blob"@, columns, "|---|---|---:|---:|---:|---:|---:|\n"@));
}

/// The section of schema evolutions lists these results, with the line of each below the names of
/// its columns.
pub proof fn law_evolve_section_lists_evolutions(
    records: Seq<RunRecord>,
    columns: Seq<Seq<char>>,
)
    requires
        columns == seq!["Dataset"@, "Engine"@, "Base size"@, "Evolved size"@, "Bytes written"@, "Time"@, "Notes"@],
    ensures
        exists|head: Seq<char>| #[trigger]
            begins_table(
                head,
                "### Evolution"@,
                columns,
                "|---|---|---:|---:|---:|---:|---|\n"@,
            ) && evolve_section(records) == head + lines_text(
                table_lines(keys_of(records), Workload::EvolutionBackfill, report_datasets()),
                |dataset: DatasetName, at: int| evolve_line(records, dataset, at),
            ) + "\n"@,
{
    let head = "### Evolution / Backfill\n\n- Query shape: Lance uses `Dataset::open(uri).add_columns(SqlExpressions([(new_column, expr)]))`; Parquet rewrites the file by scanning all rows and writing a new file with the derived column.\n\n| Dataset | Engine | Base size | Evolved size | Bytes written | Time | Notes |\n|---|---|---:|---:|---:|---:|---|\n"@;
    reveal_strlit("### Evolution / Backfill\n\n- Query shape: Lance uses `Dataset::open(uri).add_columns(SqlExpressions([(new_column, expr)]))`; Parquet rewrites the file by scanning all rows and writing a new file with the derived column.\n\n| Dataset | Engine | Base size | Evolved size | Bytes written | Time | Notes |\n|---|---|---:|---:|---:|---:|---|\n");
    reveal_strlit("### Evolution");
    reveal_strlit("|---|---|---:|---:|---:|---:|---|\n");
    reveal_strlit("| ");
    reveal_strlit(" | ");
    reveal_strlit(" |\n");
    reveal_strlit("Dataset");
    reveal_strlit("Engine");
    reveal_strlit("Base size");
    reveal_strlit("Evolved size");
    reveal_strlit("Bytes written");
    reveal_strlit("Time");
    reveal_strlit("Notes");
    lemma_joined(columns);
    let end = row(columns) + "|---|---|---:|---:|---:|---:|---|\n"@;
    assert(head.subrange(0, 13) =~= "### Evolution"@);
    assert(head.skip(head.len() - end.len()) =~= end);
    assert(begins_table(head, "### Evolution"@, columns, "|---|---|---:|---:|---:|---:|---|\n"@));
}

/// A scan table stands under its title and lists the results of its workload, with the line of each
/// below the names of its columns.
pub proof fn law_scan_tables_list_their_scans(
    records: Seq<RunRecord>,
    rates: Seq<Rates>,
    title: Seq<char>,
    workload: Workload,
    columns: Seq<Seq<char>>,
)
    requires
        columns == seq![
            "Dataset"@,
            "Engine"@,
            "Rows"@,
            "p50"@,
            "p95"@,
            "p99"@,
            "Rows/s"@,
            "Bytes"@,
            "Bytes/s"@,
        ],
    ensures
        exists|head: Seq<char>| #[trigger]
            begins_table(
                head,
                "#### "@ + title + "\n"@,
                columns,
                "|---|---|---:|---:|---:|---:|---:|---:|---:|\n"@,
            ) && scan_table(records, rates, title, workload) == head + lines_text(
                table_lines(keys_of(records), workload, report_datasets()),
                |dataset: DatasetName, at: int| scan_line(records, rates, dataset, at),
            ) + "\n"@,
{
    reveal_strlit("\n\n- Query shape: ");
    reveal_strlit("\n\n| Dataset | Engine | Rows | p50 | p95 | p99 | Rows/s | Bytes | Bytes/s |\n|---|---|---:|---:|---:|---:|---:|---:|---:|\n");
    reveal_strlit("|---|---|---:|---:|---:|---:|---:|---:|---:|\n");
    reveal_strlit("\n");
    reveal_strlit("| ");
    reveal_strlit(" | ");
    reveal_strlit(" |\n");
    reveal_strlit("Dataset");
    reveal_strlit("Engine");
    reveal_strlit("Rows");
    reveal_strlit("p50");
    reveal_strlit("p95");
    reveal_strlit("p99");
    reveal_strlit("Rows/s");
    reveal_strlit("Bytes");
    reveal_strlit("Bytes/s");
    lemma_joined(columns);
    let names = "\n\n| Dataset | Engine | Rows | p50 | p95 | p99 | Rows/s | Bytes | Bytes/s |\n|---|---|---:|---:|---:|---:|---:|---:|---:|\n"@;
    let rule = "|---|---|---:|---:|---:|---:|---:|---:|---:|\n"@;
    let head = scan_head(title, workload);
    let heading = "#### "@ + title + "\n"@;
    let end = row(columns) + rule;
    assert(head.subrange(0, heading.len() as int) =~= heading);
    assert(names.skip(2) =~= end);
    assert(head.skip(head.len() - end.len()) =~= names.skip(2));
    assert(begins_table(head, heading, columns, rule));
}

/// The scan section has a table for each kind of scan, each under its own title.
pub proof fn law_every_scan_has_its_table(records: Seq<RunRecord>, rates: Seq<Rates>)
    ensures
        scan_sections(records, rates) == "### Scan\n\n"@ + scan_table(
            records,
            rates,
            "Full scan"@,
            Workload::ScanFull,
        ) + scan_table(records, rates, "Projection scan"@, Workload::ScanProject) + scan_table(
            records,
            rates,
            "Filtered scan (low selectivity)"@,
            Workload::ScanFilterLow,
        ) + scan_table(
            records,
            rates,
            "Filtered scan (high selectivity)"@,
            Workload::ScanFilterHigh,
        ),
{
}

/// The report has every section once, in this order: the environment, the inputs, the ingests, the
/// scans, random row access, random blob access, the evolutions, and the notes.
pub proof fn law_reports_have_every_section(
    records: Seq<RunRecord>,
    rates: Seq<Rates>,
    env: int,
    sizes: Seq<u64>,
    head: Option<Seq<char>>,
    results_dir: Seq<char>,
    datasets_dir: Seq<char>,
)
    ensures
        report_text(records, rates, env, sizes, head, results_dir, datasets_dir) == head_text(
            records,
            env,
            head,
        ) + inputs_text(sizes) + (results_intro() + ingest_section(records, rates) + scan_sections(
            records,
            rates,
        ) + take_section(records) + blob_section(records) + evolve_section(records)) + tail_text(
            results_dir,
            datasets_dir,
            layout_note(records),
        ),
        exists|names: Seq<char>| #[trigger]
            begins_inputs(names) && inputs_text(sizes) == names + input_rows(sizes) + "\n"@,
{
    let names = "## Datasets (Local Inputs)\n\n| Dataset | Input path | Input size | Notes |\n|---|---|---:|---|\n"@;
    reveal_strlit("## Datasets (Local Inputs)\n\n| Dataset | Input path | Input size | Notes |\n|---|---|---:|---|\n");
    reveal_strlit("## Datasets");
    assert(names.subrange(0, 11) =~= "## Datasets"@);
    assert(begins_inputs(names));
}

/// What stands before the results.
pub open spec fn results_intro() -> Seq<char> {
    "## Results\n\n- Primary comparison: `parquet` vs `lance`.\n\n"@
}

/// Whether a text is the head of the list of inputs.
pub open spec fn begins_inputs(names: Seq<char>) -> bool {
    has_prefix(names, "## Datasets"@)
}

// ---------------------------------------------------------------------------
// Inputs.
// ---------------------------------------------------------------------------

/// The inputs of the report are those of its datasets, in their order: each by the name that the
/// tables give the dataset and in the directory of its short name.
pub proof fn law_inputs_are_the_datasets(i: int, dataset: DatasetArg)
    requires
        0 <= i < report_datasets().len(),
        dataset_named(dataset) == report_datasets()[i],
    ensures
        inputs().len() == report_datasets().len(),
        inputs()[i].0 == dataset_name(report_datasets()[i]),
        inputs()[i].1 == dataset_id(dataset),
{
    assert(i == 0 || i == 1 || i == 2 || i == 3 || i == 4);
}

/// The list of inputs has a row for each, with its name, its directory and its own size.
pub proof fn law_inputs_show_their_sizes(sizes: Seq<u64>, size: u64)
    requires
        sizes.len() < inputs().len(),
    ensures
        input_rows(Seq::empty()).len() == 0,
        ({
            let (name, dir, notes) = inputs()[sizes.len() as int];
            input_rows(sizes.push(size)) == input_rows(sizes) + row(
                seq![name, "`data/"@ + dir + "`"@, bytes_text(size as nat), notes],
            )
        }),
{
    assert(sizes.push(size).drop_last() =~= sizes);
}

// ---------------------------------------------------------------------------
// Environment and layout.
// ---------------------------------------------------------------------------

/// The head of the report shows the machine of the result that it is taken from, and the commit of
/// the results; the list of commits only where there are several.
pub proof fn law_heads_show_the_environment(
    records: Seq<RunRecord>,
    env: int,
    head: Option<Seq<char>>,
)
    ensures
        ({
            let meta = records[env].result.meta;
            let ranked = ranked_commits(commits_of(records));
            let top = "# Benchmark Report\n\n## Environment\n- OS: "@ + meta.os@ + " "@ + meta.arch@
                + "\n- CPU cores: "@ + decimal(meta.cpu_count as nat) + "\n- Rust: "@ + meta.rustc@
                + "\n- Commit (results): "@ + first_known(ranked) + "\n"@;
            let listed = "- Commits (results): "@ + joined(commit_parts(ranked), ", "@) + "\n"@;
            let at_head = "- Commit (repo HEAD at report generation): "@;
            &&& ranked.len() <= 1 && head is None ==> head_text(records, env, head) == top + "\n"@
            &&& ranked.len() > 1 && head is None ==> head_text(records, env, head) == top + listed
                + "\n"@
            &&& ranked.len() <= 1 && head is Some ==> head_text(records, env, head) == top + at_head
                + head->0 + "\n"@ + "\n"@
            &&& ranked.len() > 1 && head is Some ==> head_text(records, env, head) == top + listed
                + at_head + head->0 + "\n"@ + "\n"@
        }),
{
    let meta = records[env].result.meta;
    let ranked = ranked_commits(commits_of(records));
    let top = "# Benchmark Report\n\n## Environment\n- OS: "@ + meta.os@ + " "@ + meta.arch@
        + "\n- CPU cores: "@ + decimal(meta.cpu_count as nat) + "\n- Rust: "@ + meta.rustc@
        + "\n- Commit (results): "@ + first_known(ranked) + "\n"@;
    let listed = "- Commits (results): "@ + joined(commit_parts(ranked), ", "@) + "\n"@;
    let at_head = "- Commit (repo HEAD at report generation): "@;
    let none = Seq::<char>::empty();
    match head {
        Some(h) => {
            assert(top + none + (at_head + h + "\n"@) + "\n"@ =~= top + at_head + h + "\n"@ + "\n"@);
            assert(top + listed + (at_head + h + "\n"@) + "\n"@ =~= top + listed + at_head + h
                + "\n"@ + "\n"@);
        },
        None => {
            assert(top + none + none + "\n"@ =~= top + "\n"@);
            assert(top + listed + none + "\n"@ =~= top + listed + "\n"@);
        },
    }
}

/// Whether a result is a scan of a plain Lance dataset: compressed and without an index.
pub open spec fn is_plain_scan(
    record: RunRecord,
    dataset: DatasetName,
    version: Seq<char>,
    workload: Workload,
) -> bool {
    let key = record.key@;
    &&& key.dataset == dataset
    &&& key.engine == EngineName::Lance
    &&& key.version == Some(version)
    &&& !key.disable_compression
    &&& key.index_columns is None
    &&& key.workload == workload
}

/// A count as the layout tells it: one that is missing is marked.
pub open spec fn told_count(
    params: Map<Seq<char>, Seq<char>>,
    name: Seq<char>,
    text: Seq<char>,
) -> bool {
    if params.contains_key(name) {
        exists|n: u64| params[name] == #[trigger] decimal(n as nat) && text == decimal(n as nat)
    } else {
        text == "?"@
    }
}

/// The layout of a dataset is taken from its last full scan, and told by the fragments and data files
/// that were counted there; where neither was counted nothing is told.
pub proof fn law_layouts_are_of_scans(
    records: Seq<RunRecord>,
    dataset: DatasetName,
    version: Seq<char>,
    i: int,
    fragments: Seq<char>,
    files: Seq<char>,
)
    requires
        0 <= i < records.len(),
        is_plain_scan(records[i], dataset, version, Workload::ScanFull),
        forall|k: int|
            i < k < records.len() ==> !is_plain_scan(
                #[trigger] records[k],
                dataset,
                version,
                Workload::ScanFull,
            ),
        told_count(records[i].result.meta.params@, "lance_fragment_count"@, fragments),
        told_count(records[i].result.meta.params@, "lance_data_file_count"@, files),
    ensures
        ({
            let params = records[i].result.meta.params@;
            let counted = params.contains_key("lance_fragment_count"@) || params.contains_key(
                "lance_data_file_count"@,
            );
            layout_part(records, dataset, version) == if counted {
                Some(
                    dataset_name(dataset) + "@"@ + version + " fragments="@ + fragments
                        + " data_files="@ + files,
                )
            } else {
                None
            }
        }),
{
    let keys = keys_of(records);
    let want = plain_key(dataset, version, Workload::ScanFull);
    lemma_last_match(keys, want);
    assert(key_matches(keys[i], want));
    let at = last_match(keys, want)->0;
    if at > i {
        assert(is_plain_scan(records[at], dataset, version, Workload::ScanFull));
    }
    assert(layout_record(keys, dataset, version) == Some(i));
    let params = records[i].result.meta.params@;
    lemma_told_count(params, "lance_fragment_count"@, fragments);
    lemma_told_count(params, "lance_data_file_count"@, files);
}

proof fn lemma_told_count(
    params: Map<Seq<char>, Seq<char>>,
    name: Seq<char>,
    text: Seq<char>,
)
    requires
        told_count(params, name, text),
    ensures
        number_or_mark(u64_param(params, name)) == text,
        u64_param(params, name) is Some <==> params.contains_key(name),
{
    if params.contains_key(name) {
        let n = choose|n: u64| params[name] == #[trigger] decimal(n as nat) && text == decimal(n as nat);
        law_decimal_round_trip(n as nat);
    }
}

/// The layout of a dataset comes from a scan of that dataset and version, whatever else there is;
/// where it was never scanned there is none.
pub proof fn law_layouts_are_of_the_dataset(
    records: Seq<RunRecord>,
    dataset: DatasetName,
    version: Seq<char>,
)
    ensures
        match layout_record(keys_of(records), dataset, version) {
            Some(i) => {
                &&& 0 <= i < records.len()
                &&& is_plain_scan(records[i], dataset, version, Workload::ScanFull)
                    || is_plain_scan(records[i], dataset, version, Workload::ScanProject)
                    || is_plain_scan(records[i], dataset, version, Workload::ScanFilterLow)
                    || is_plain_scan(records[i], dataset, version, Workload::ScanFilterHigh)
            },
            None => layout_part(records, dataset, version) is None && forall|k: int|
                0 <= k < records.len() ==> !is_plain_scan(
                    #[trigger] records[k],
                    dataset,
                    version,
                    Workload::ScanFull,
                ) && !is_plain_scan(records[k], dataset, version, Workload::ScanProject)
                    && !is_plain_scan(records[k], dataset, version, Workload::ScanFilterLow)
                    && !is_plain_scan(records[k], dataset, version, Workload::ScanFilterHigh),
        },
{
    let keys = keys_of(records);
    lemma_last_match(keys, plain_key(dataset, version, Workload::ScanFull));
    lemma_last_match(keys, plain_key(dataset, version, Workload::ScanProject));
    lemma_last_match(keys, plain_key(dataset, version, Workload::ScanFilterLow));
    lemma_last_match(keys, plain_key(dataset, version, Workload::ScanFilterHigh));
    if layout_record(keys, dataset, version) is None {
        assert forall|k: int| 0 <= k < records.len() implies !is_plain_scan(
            #[trigger] records[k],
            dataset,
            version,
            Workload::ScanFull,
        ) && !is_plain_scan(records[k], dataset, version, Workload::ScanProject) && !is_plain_scan(
            records[k],
            dataset,
            version,
            Workload::ScanFilterLow,
        ) && !is_plain_scan(records[k], dataset, version, Workload::ScanFilterHigh) by {
            assert(keys[k] == records[k].key@);
        }
    }
}

proof fn lemma_plain_versions(
    keys: Seq<KeyView>,
    dataset: DatasetName,
    workload: Workload,
    version: Seq<char>,
)
    ensures
        plain_versions(keys, dataset, workload).contains(version) <==> keys.contains(
            plain_key(dataset, version, workload),
        ),
    decreases keys.len(),
{
    let all = plain_versions(keys, dataset, workload);
    let want = plain_key(dataset, version, workload);
    if keys.len() > 0 {
        let front = keys.drop_last();
        let before = plain_versions(front, dataset, workload);
        lemma_plain_versions(front, dataset, workload, version);
        if all.contains(version) {
            let k = choose|k: int| 0 <= k < all.len() && all[k] == version;
            if k < before.len() {
                assert(before[k] == version);
                let i = choose|i: int| 0 <= i < front.len() && front[i] == want;
                assert(keys[i] == want);
            } else {
                assert(keys[keys.len() - 1] == want);
            }
        }
        if keys.contains(want) {
            let i = choose|i: int| 0 <= i < keys.len() && keys[i] == want;
            if i < front.len() {
                assert(front[i] == want);
                let k = choose|k: int| 0 <= k < before.len() && before[k] == version;
                assert(all[k] == version);
            } else {
                assert(all[all.len() - 1] == version);
            }
        }
    }
}

proof fn lemma_concat_contains(a: Seq<Seq<char>>, b: Seq<Seq<char>>, x: Seq<char>)
    ensures
        (a + b).contains(x) <==> a.contains(x) || b.contains(x),
{
    if a.contains(x) {
        let i = choose|i: int| 0 <= i < a.len() && a[i] == x;
        assert((a + b)[i] == x);
    }
    if b.contains(x) {
        let i = choose|i: int| 0 <= i < b.len() && b[i] == x;
        assert((a + b)[a.len() + i] == x);
    }
    if (a + b).contains(x) {
        let i = choose|i: int| 0 <= i < (a + b).len() && (a + b)[i] == x;
        if i < a.len() {
            assert(a[i] == x);
        } else {
            assert(b[i - a.len()] == x);
        }
    }
}

/// The versions whose layout is told are exactly those with a scan of the plain dataset, each once.
pub proof fn law_scanned_versions_are_told(
    keys: Seq<KeyView>,
    dataset: DatasetName,
    version: Seq<char>,
)
    ensures
        scanned_versions(keys, dataset).no_duplicates(),
        scanned_versions(keys, dataset).contains(version) <==> keys.contains(
            plain_key(dataset, version, Workload::ScanFull),
        ) || keys.contains(plain_key(dataset, version, Workload::ScanProject)) || keys.contains(
            plain_key(dataset, version, Workload::ScanFilterLow),
        ) || keys.contains(plain_key(dataset, version, Workload::ScanFilterHigh)),
{
    let a = layout_versions(keys, dataset, Workload::ScanFull);
    let b = layout_versions(keys, dataset, Workload::ScanProject);
    let c = layout_versions(keys, dataset, Workload::ScanFilterLow);
    let d = layout_versions(keys, dataset, Workload::ScanFilterHigh);
    lemma_plain_versions(keys, dataset, Workload::ScanFull, version);
    lemma_plain_versions(keys, dataset, Workload::ScanProject, version);
    lemma_plain_versions(keys, dataset, Workload::ScanFilterLow, version);
    lemma_plain_versions(keys, dataset, Workload::ScanFilterHigh, version);
    lemma_sorted_set(plain_versions(keys, dataset, Workload::ScanFull), version_less());
    lemma_sorted_set(plain_versions(keys, dataset, Workload::ScanProject), version_less());
    lemma_sorted_set(plain_versions(keys, dataset, Workload::ScanFilterLow), version_less());
    lemma_sorted_set(plain_versions(keys, dataset, Workload::ScanFilterHigh), version_less());
    lemma_concat_contains(a, b, version);
    lemma_concat_contains(a + b, c, version);
    lemma_concat_contains(a + b + c, d, version);
    lemma_sorted_set(a + b + c + d, version_less());
}

/// The layouts of the datasets and versions that were scanned are all told.
pub proof fn law_layouts_are_all_told(
    records: Seq<RunRecord>,
    datasets: Seq<DatasetName>,
    d: int,
    v: int,
    part: Seq<char>,
)
    requires
        0 <= d < datasets.len(),
        0 <= v < scanned_versions(keys_of(records), datasets[d]).len(),
        layout_part(records, datasets[d], scanned_versions(keys_of(records), datasets[d])[v]) == Some(
            part,
        ),
    ensures
        layout_parts(records, datasets).contains(part),
    decreases datasets.len(),
{
    let front = datasets.drop_last();
    let before = layout_parts(records, front);
    let versions = scanned_versions(keys_of(records), datasets.last());
    let last = version_parts(records, datasets.last(), versions);
    lemma_concat_contains(before, last, part);
    if d < front.len() {
        assert(front[d] == datasets[d]);
        law_layouts_are_all_told(records, front, d, v, part);
    } else {
        lemma_version_parts(records, datasets.last(), versions, v, part);
    }
}

proof fn lemma_version_parts(
    records: Seq<RunRecord>,
    dataset: DatasetName,
    versions: Seq<Seq<char>>,
    v: int,
    part: Seq<char>,
)
    requires
        0 <= v < versions.len(),
        layout_part(records, dataset, versions[v]) == Some(part),
    ensures
        version_parts(records, dataset, versions).contains(part),
    decreases versions.len(),
{
    let front = versions.drop_last();
    let before = version_parts(records, dataset, front);
    let all = version_parts(records, dataset, versions);
    if v < front.len() {
        assert(front[v] == versions[v]);
        lemma_version_parts(records, dataset, front, v, part);
        let k = choose|k: int| 0 <= k < before.len() && before[k] == part;
        assert(all[k] == part);
    } else {
        assert(all[all.len() - 1] == part);
    }
}

/// The note on the layout lists what is told of each dataset; without any there is no note.
pub proof fn law_layout_notes_list_the_parts(records: Seq<RunRecord>)
    ensures
        ({
            let parts = layout_parts(records, report_datasets());
            &&& parts.len() == 0 <==> layout_note(records) is None
            &&& parts.len() > 0 ==> layout_note(records) == Some(
                "Lance output layout (from scan runs): "@ + joined(parts, "; "@),
            )
        }),
{
}

/// The notes of the report name where the results and the outputs are, and end with the note on the
/// layout where there is one.
pub proof fn law_notes_end_with_the_layout(
    results_dir: Seq<char>,
    datasets_dir: Seq<char>,
    note: Seq<char>,
)
    ensures
        tail_text(results_dir, datasets_dir, Some(note)) == tail_text(
            results_dir,
            datasets_dir,
            None,
        ) + "- "@ + note + "\n"@,
        has_prefix(
            tail_text(results_dir, datasets_dir, None),
            "## Artifacts\n\n- JSON results: `"@ + results_dir + "`\n- Engine outputs: `"@
                + datasets_dir + "`\n"@,
        ),
{
    reveal_strlit("`\n\n");
    reveal_strlit("`\n");
    let none = Seq::<char>::empty();
    let base = tail_text(results_dir, datasets_dir, None);
    let start = "## Artifacts\n\n- JSON results: `"@ + results_dir + "`\n- Engine outputs: `"@
        + datasets_dir;
    assert(base.subrange(0, start.len() as int + 2) =~= start + "`\n"@);
    assert(tail_text(results_dir, datasets_dir, Some(note)) =~= base + "- "@ + note + "\n"@);
}

} // verus!
