//! The report as a whole.
use vstd::prelude::*;

use crate::cases::{
    find_record, keys_of, lance_versions_for_layout, last_match, layout_versions, opt_pos,
    sort_versions, version_less,
};
use crate::commits::{
    commit_parts, commits_of, first_known, format_commit_summary, is_env_record, pick_env,
    ranked_commits, summarize_result_commits, EnvSummary, ReportError,
};
use crate::numbers::{decimal, push_decimal};
use crate::records::{KeyView, RunKey, RunRecord};
use crate::report::{
    dataset_display, dataset_iter, dataset_name, opt_nat, parse_u64_param, push_row,
    report_datasets, row, u64_param,
};
use crate::sections::{results_section, write_results_section};
use crate::sorting::{distinct, stable_sort};
use crate::tables::Rates;
use crate::text::{join, joined, lemma_views_push, list_contains, opt_view, views};
use crate::units::{bytes_text, fmt_bytes};
use crate::workload::{DatasetName, EngineName, Workload};

verus! {

// ---------------------------------------------------------------------------
// The layout note.
// ---------------------------------------------------------------------------

/// The key of a plain Lance case.
pub open spec fn plain_key(dataset: DatasetName, version: Seq<char>, workload: Workload) -> KeyView {
    KeyView {
        dataset,
        engine: EngineName::Lance,
        version: Some(version),
        disable_compression: false,
        index_columns: None,
        workload,
    }
}

/// The file versions that some scan of a dataset has, in order.
pub open spec fn scanned_versions(keys: Seq<KeyView>, dataset: DatasetName) -> Seq<Seq<char>> {
    stable_sort(
        distinct(
            layout_versions(keys, dataset, Workload::ScanFull) + layout_versions(
                keys,
                dataset,
                Workload::ScanProject,
            ) + layout_versions(keys, dataset, Workload::ScanFilterLow) + layout_versions(
                keys,
                dataset,
                Workload::ScanFilterHigh,
            ),
        ),
        version_less(),
    )
}

/// The record that tells the layout: that of the first kind of scan that has one.
pub open spec fn layout_record(
    keys: Seq<KeyView>,
    dataset: DatasetName,
    version: Seq<char>,
) -> Option<int> {
    match last_match(keys, plain_key(dataset, version, Workload::ScanFull)) {
        Some(i) => Some(i),
        None => match last_match(keys, plain_key(dataset, version, Workload::ScanProject)) {
            Some(i) => Some(i),
            None => match last_match(keys, plain_key(dataset, version, Workload::ScanFilterLow)) {
                Some(i) => Some(i),
                None => last_match(keys, plain_key(dataset, version, Workload::ScanFilterHigh)),
            },
        },
    }
}

/// A number, or a question mark.
pub open spec fn number_or_mark(n: Option<nat>) -> Seq<char> {
    match n {
        Some(v) => decimal(v),
        None => "?"@,
    }
}

/// What the note says of a dataset and version; nothing where no count is recorded.
pub open spec fn layout_part(
    records: Seq<RunRecord>,
    dataset: DatasetName,
    version: Seq<char>,
) -> Option<Seq<char>> {
    match layout_record(keys_of(records), dataset, version) {
        Some(i) => {
            let params = records[i].result.meta.params@;
            let fragments = u64_param(params, "lance_fragment_count"@);
            let files = u64_param(params, "lance_data_file_count"@);
            if fragments is None && files is None {
                None
            } else {
                Some(
                    dataset_name(dataset) + "@"@ + version + " fragments="@ + number_or_mark(
                        fragments,
                    ) + " data_files="@ + number_or_mark(files),
                )
            }
        },
        None => None,
    }
}

/// What the note says of the versions of a dataset.
pub open spec fn version_parts(
    records: Seq<RunRecord>,
    dataset: DatasetName,
    versions: Seq<Seq<char>>,
) -> Seq<Seq<char>>
    decreases versions.len(),
{
    if versions.len() == 0 {
        Seq::empty()
    } else {
        let front = version_parts(records, dataset, versions.drop_last());
        match layout_part(records, dataset, versions.last()) {
            Some(part) => front.push(part),
            None => front,
        }
    }
}

/// What the note says of some datasets.
pub open spec fn layout_parts(records: Seq<RunRecord>, datasets: Seq<DatasetName>) -> Seq<Seq<char>>
    decreases datasets.len(),
{
    if datasets.len() == 0 {
        Seq::empty()
    } else {
        layout_parts(records, datasets.drop_last()) + version_parts(
            records,
            datasets.last(),
            scanned_versions(keys_of(records), datasets.last()),
        )
    }
}

/// The note on how many fragments and files the Lance datasets have.
pub open spec fn layout_note(records: Seq<RunRecord>) -> Option<Seq<char>> {
    let parts = layout_parts(records, report_datasets());
    if parts.len() == 0 {
        None
    } else {
        Some("Lance output layout (from scan runs): "@ + joined(parts, "; "@))
    }
}

fn merge_versions(records: &Vec<RunRecord>, dataset: DatasetName) -> (out: Vec<String>)
    ensures
        views(out@) == scanned_versions(keys_of(records@), dataset),
{
    let ghost keys = keys_of(records@);
    let mut listed = lance_versions_for_layout(records, dataset, Workload::ScanFull);
    let mut more = lance_versions_for_layout(records, dataset, Workload::ScanProject);
    listed.append(&mut more);
    let mut more = lance_versions_for_layout(records, dataset, Workload::ScanFilterLow);
    listed.append(&mut more);
    let mut more = lance_versions_for_layout(records, dataset, Workload::ScanFilterHigh);
    listed.append(&mut more);
    let ghost all = views(listed@);
    assert(all =~= layout_versions(keys, dataset, Workload::ScanFull) + layout_versions(
        keys,
        dataset,
        Workload::ScanProject,
    ) + layout_versions(keys, dataset, Workload::ScanFilterLow) + layout_versions(
        keys,
        dataset,
        Workload::ScanFilterHigh,
    ));
    let mut found: Vec<String> = Vec::new();
    let mut i: usize = 0;
    assert(all.take(0) =~= Seq::<Seq<char>>::empty());
    assert(views(found@) =~= Seq::<Seq<char>>::empty());
    while i < listed.len()
        invariant
            i <= listed.len(),
            all == views(listed@),
            views(found@) == distinct(all.take(i as int)),
        decreases listed.len() - i,
    {
        assert(all.take(i as int + 1).drop_last() =~= all.take(i as int));
        if !list_contains(&found, listed[i].as_str()) {
            proof {
                lemma_views_push(found@, listed@[i as int]);
            }
            found.push(listed[i].clone());
        }
        i += 1;
    }
    assert(all.take(all.len() as int) =~= all);
    sort_versions(found)
}

fn find_plain(
    records: &Vec<RunRecord>,
    dataset: DatasetName,
    version: &String,
    workload: Workload,
) -> (at: Option<usize>)
    ensures
        opt_pos(at) == last_match(keys_of(records@), plain_key(dataset, version@, workload)),
        at matches Some(i) ==> i < records.len(),
{
    let want = RunKey {
        dataset,
        engine: EngineName::Lance,
        lance_file_version: Some(version.clone()),
        lance_disable_compression: false,
        lance_index_columns: None,
        workload,
    };
    assert(want@ == plain_key(dataset, version@, workload));
    find_record(records, &want)
}

fn push_number_or_mark(out: &mut String, n: Option<u64>)
    ensures
        final(out)@ == old(out)@ + number_or_mark(opt_nat(n)),
{
    match n {
        Some(v) => push_decimal(out, v as u128),
        None => out.append("?"),
    }
}

fn build_layout_part(records: &Vec<RunRecord>, dataset: DatasetName, version: &String) -> (part:
    Option<String>)
    ensures
        opt_view(part) == layout_part(records@, dataset, version@),
{
    let mut at = find_plain(records, dataset, version, Workload::ScanFull);
    if at.is_none() {
        at = find_plain(records, dataset, version, Workload::ScanProject);
    }
    if at.is_none() {
        at = find_plain(records, dataset, version, Workload::ScanFilterLow);
    }
    if at.is_none() {
        at = find_plain(records, dataset, version, Workload::ScanFilterHigh);
    }
    assert(opt_pos(at) == layout_record(keys_of(records@), dataset, version@));
    match at {
        Some(i) => {
            let params = &records[i].result.meta.params;
            let fragments = parse_u64_param(params, "lance_fragment_count");
            let files = parse_u64_param(params, "lance_data_file_count");
            if fragments.is_none() && files.is_none() {
                None
            } else {
                let mut part = dataset_display(dataset).to_owned();
                part.append("@");
                part.append(version.as_str());
                part.append(" fragments=");
                push_number_or_mark(&mut part, fragments);
                part.append(" data_files=");
                push_number_or_mark(&mut part, files);
                Some(part)
            }
        },
        None => None,
    }
}

fn push_version_parts(parts: &mut Vec<String>, records: &Vec<RunRecord>, dataset: DatasetName)
    ensures
        views(final(parts)@) == views(old(parts)@) + version_parts(
            records@,
            dataset,
            scanned_versions(keys_of(records@), dataset),
        ),
{
    let ghost start = views(parts@);
    let versions = merge_versions(records, dataset);
    let ghost all = views(versions@);
    let mut i: usize = 0;
    assert(all.take(0) =~= Seq::<Seq<char>>::empty());
    assert(start + version_parts(records@, dataset, all.take(0)) =~= start);
    while i < versions.len()
        invariant
            i <= versions.len(),
            all == views(versions@),
            views(parts@) == start + version_parts(records@, dataset, all.take(i as int)),
        decreases versions.len() - i,
    {
        let ghost before = version_parts(records@, dataset, all.take(i as int));
        assert(all.take(i as int + 1).drop_last() =~= all.take(i as int));
        match build_layout_part(records, dataset, &versions[i]) {
            Some(part) => {
                proof {
                    lemma_views_push(parts@, part);
                    assert(start + before.push(part@) =~= (start + before).push(part@));
                }
                parts.push(part);
            },
            None => {},
        }
        i += 1;
    }
    assert(all.take(all.len() as int) =~= all);
}

/// The note on how many fragments and files the Lance datasets have.
pub fn build_lance_layout_note(records: &Vec<RunRecord>) -> (note: Option<String>)
    ensures
        opt_view(note) == layout_note(records@),
{
    let datasets = dataset_iter();
    let mut parts: Vec<String> = Vec::new();
    let mut i: usize = 0;
    assert(datasets@.take(0) =~= Seq::<DatasetName>::empty());
    assert(views(parts@) =~= Seq::<Seq<char>>::empty());
    while i < datasets.len()
        invariant
            i <= datasets.len(),
            datasets@ == report_datasets(),
            views(parts@) == layout_parts(records@, datasets@.take(i as int)),
        decreases datasets.len() - i,
    {
        assert(datasets@.take(i as int + 1).drop_last() =~= datasets@.take(i as int));
        push_version_parts(&mut parts, records, datasets[i]);
        i += 1;
    }
    assert(datasets@.take(datasets@.len() as int) =~= datasets@);
    if parts.len() == 0 {
        return None;
    }
    let mut note = "Lance output layout (from scan runs): ".to_owned();
    note.append(join(&parts, "; ").as_str());
    Some(note)
}

// ---------------------------------------------------------------------------
// The input datasets.
// ---------------------------------------------------------------------------

/// A row of the table of inputs.
#[derive(Debug)]
pub struct DatasetRow {
    pub display_name: &'static str,
    pub input_path: String,
    pub input_size: String,
    pub notes: &'static str,
}

/// The names, directories and notes of the inputs.
pub open spec fn inputs() -> Seq<(Seq<char>, Seq<char>, Seq<char>)> {
    seq![
        ("FineWeb"@, "fineweb"@, "Single parquet: `sample/10BT/000_00000.parquet` (ingest capped by `--limit-rows 10000000`)"@),
        ("OpenVid"@, "openvid"@, "Local parquet generated from `nkp37/OpenVid-1M` CSV; fake blob column `video_blob` during ingest (`OPENVID_FAKE_BLOB_BYTES=256`)"@),
        ("LAION"@, "laion10m"@, "WebDataset shard prefix: `00000.tar` only"@),
        ("LeRobot PushT"@, "lerobot-pusht"@, "Uses first parquet under `data/` subdir to avoid schema drift"@),
        ("LeRobot PushT Image"@, "lerobot-pusht_image"@, "Uses first parquet under `data/` subdir to avoid schema drift"@),
    ]
}

/// The names, directories and notes of the inputs, in the order of the report.
pub fn input_list() -> (out: Vec<(&'static str, &'static str, &'static str)>)
    ensures
        out.len() == inputs().len(),
        forall|i: int|
            0 <= i < out.len() ==> ((#[trigger] out@[i]).0@, out@[i].1@, out@[i].2@) == inputs()[i],
{
    vec![
        ("FineWeb", "fineweb", "Single parquet: `sample/10BT/000_00000.parquet` (ingest capped by `--limit-rows 10000000`)"),
        ("OpenVid", "openvid", "Local parquet generated from `nkp37/OpenVid-1M` CSV; fake blob column `video_blob` during ingest (`OPENVID_FAKE_BLOB_BYTES=256`)"),
        ("LAION", "laion10m", "WebDataset shard prefix: `00000.tar` only"),
        ("LeRobot PushT", "lerobot-pusht", "Uses first parquet under `data/` subdir to avoid schema drift"),
        ("LeRobot PushT Image", "lerobot-pusht_image", "Uses first parquet under `data/` subdir to avoid schema drift"),
    ]
}

/// The row of an input.
pub open spec fn input_row(at: int, size: u64) -> Seq<char> {
    let (name, dir, notes) = inputs()[at];
    row(seq![name, "`data/"@ + dir + "`"@, bytes_text(size as nat), notes])
}

/// The rows of the inputs.
pub open spec fn input_rows(sizes: Seq<u64>) -> Seq<char>
    decreases sizes.len(),
{
    if sizes.len() == 0 {
        Seq::empty()
    } else {
        input_rows(sizes.drop_last()) + input_row(sizes.len() - 1, sizes.last())
    }
}

/// The rows of the inputs, given the sizes of their directories.
pub fn build_dataset_rows(sizes: &Vec<u64>) -> (rows: Vec<DatasetRow>)
    requires
        sizes.len() == inputs().len(),
    ensures
        rows.len() == sizes.len(),
        forall|i: int|
            #![trigger rows@[i]]
            0 <= i < rows.len() ==> rows@[i].display_name@ == inputs()[i].0 && rows@[i].input_path@
                == "data/"@ + inputs()[i].1 && rows@[i].input_size@ == bytes_text(sizes@[i] as nat)
                && rows@[i].notes@ == inputs()[i].2,
{
    let list = input_list();
    let mut rows: Vec<DatasetRow> = Vec::new();
    let mut i: usize = 0;
    while i < sizes.len()
        invariant
            i <= sizes.len(),
            rows.len() == i,
            list.len() == inputs().len() == sizes.len(),
            forall|i: int|
                0 <= i < list.len() ==> ((#[trigger] list@[i]).0@, list@[i].1@, list@[i].2@)
                    == inputs()[i],
            forall|i: int|
                #![trigger rows@[i]]
                0 <= i < rows.len() ==> rows@[i].display_name@ == inputs()[i].0
                    && rows@[i].input_path@ == "data/"@ + inputs()[i].1 && rows@[i].input_size@
                    == bytes_text(sizes@[i] as nat) && rows@[i].notes@ == inputs()[i].2,
        decreases sizes.len() - i,
    {
        let (display_name, dir_name, notes) = list[i];
        assert((list@[i as int].0@, list@[i as int].1@, list@[i as int].2@) == inputs()[i as int]);
        let mut input_path = "data/".to_owned();
        input_path.append(dir_name);
        let input_size = fmt_bytes(sizes[i]);
        rows.push(DatasetRow { display_name, input_path, input_size, notes });
        i += 1;
    }
    rows
}

fn push_input_rows(out: &mut String, sizes: &Vec<u64>)
    requires
        sizes.len() == inputs().len(),
    ensures
        final(out)@ == old(out)@ + input_rows(sizes@),
{
    let rows = build_dataset_rows(sizes);
    let ghost start = out@;
    let mut i: usize = 0;
    assert(sizes@.take(0) =~= Seq::<u64>::empty());
    assert(out@ =~= start + input_rows(sizes@.take(0)));
    while i < rows.len()
        invariant
            i <= rows.len(),
            rows.len() == sizes.len() == inputs().len(),
            forall|i: int|
                #![trigger rows@[i]]
                0 <= i < rows.len() ==> rows@[i].display_name@ == inputs()[i].0
                    && rows@[i].input_path@ == "data/"@ + inputs()[i].1 && rows@[i].input_size@
                    == bytes_text(sizes@[i] as nat) && rows@[i].notes@ == inputs()[i].2,
            out@ == start + input_rows(sizes@.take(i as int)),
        decreases rows.len() - i,
    {
        let r = &rows[i];
        assert(sizes@.take(i as int + 1).drop_last() =~= sizes@.take(i as int));
        let mut path = "`".to_owned();
        path.append(r.input_path.as_str());
        path.append("`");
        proof {
            reveal_strlit("`");
            reveal_strlit("data/");
            reveal_strlit("`data/");
            assert("`"@ + "data/"@ =~= "`data/"@);
            assert(path@ =~= "`data/"@ + inputs()[i as int].1 + "`"@);
        }
        let cells = vec![
            r.display_name.to_owned(),
            path,
            r.input_size.clone(),
            r.notes.to_owned(),
        ];
        assert(views(cells@) =~= seq![
            inputs()[i as int].0,
            "`data/"@ + inputs()[i as int].1 + "`"@,
            bytes_text(sizes@[i as int] as nat),
            inputs()[i as int].2,
        ]);
        push_row(out, &cells);
        i += 1;
        assert(out@ =~= start + input_rows(sizes@.take(i as int)));
    }
    assert(sizes@.take(sizes@.len() as int) =~= sizes@);
}

// ---------------------------------------------------------------------------
// The document.
// ---------------------------------------------------------------------------

/// The head of the report: the environment of the results and their commits.
pub open spec fn head_text(records: Seq<RunRecord>, env: int, head: Option<Seq<char>>) -> Seq<
    char,
> {
    let meta = records[env].result.meta;
    let ranked = ranked_commits(commits_of(records));
    "# Benchmark Report\n\n## Environment\n- OS: "@ + meta.os@ + " "@ + meta.arch@
        + "\n- CPU cores: "@ + decimal(meta.cpu_count as nat) + "\n- Rust: "@ + meta.rustc@
        + "\n- Commit (results): "@ + first_known(ranked) + "\n"@ + if ranked.len() > 1 {
        "- Commits (results): "@ + joined(commit_parts(ranked), ", "@) + "\n"@
    } else {
        Seq::<char>::empty()
    } + match head {
        Some(h) => "- Commit (repo HEAD at report generation): "@ + h + "\n"@,
        None => Seq::<char>::empty(),
    } + "\n"@
}

/// The table of inputs.
pub open spec fn inputs_text(sizes: Seq<u64>) -> Seq<char> {
    "## Datasets (Local Inputs)\n\n| Dataset | Input path | Input size | Notes |\n|---|---|---:|---|\n"@
        + input_rows(sizes) + "\n"@
}

/// The end of the report: where the files are, and notes.
pub open spec fn tail_text(
    results_dir: Seq<char>,
    datasets_dir: Seq<char>,
    note: Option<Seq<char>>,
) -> Seq<char> {
    "## Artifacts\n\n- JSON results: `"@ + results_dir + "`\n- Engine outputs: `"@ + datasets_dir
        + "`\n\n"@
        + "## Notes\n\n- Some results are below 1 ms wall time; these are displayed as `0.xxx ms`.\n- Scan workloads may be executed multiple times via `--repeats`; scan times are reported as p50/p95/p99 across repeats, while row/byte counts are reported per scan as an average across repeats.\n- Scan workloads exclude blob columns for blob-bearing datasets; blob throughput/latency is reported under `Random Blob`.\n- Projection and filtered scans use a stored numeric column (`bench_small_u64`) instead of a synthetic row index to avoid column-virtualization artifacts.\n- LeRobot datasets use only the first parquet file under the `data/` subdirectory to avoid schema drift across parquet shards and meta parquet files.\n- OpenVid uses a synthetic blob column (`video_blob`) materialized during ingestion (default `OPENVID_FAKE_BLOB_BYTES=256`).\n"@
        + match note {
        Some(n) => "- "@ + n + "\n"@,
        None => Seq::<char>::empty(),
    }
}

/// The report.
pub open spec fn report_text(
    records: Seq<RunRecord>,
    rates: Seq<Rates>,
    env: int,
    sizes: Seq<u64>,
    head: Option<Seq<char>>,
    results_dir: Seq<char>,
    datasets_dir: Seq<char>,
) -> Seq<char> {
    head_text(records, env, head) + inputs_text(sizes) + results_section(records, rates)
        + tail_text(results_dir, datasets_dir, layout_note(records))
}

fn write_head(
    out: &mut String,
    records: &Vec<RunRecord>,
    env: &EnvSummary,
    head: &Option<String>,
    Ghost(at): Ghost<int>,
)
    requires
        is_env_record(commits_of(records@), at),
        env.os@ == records@[at].result.meta.os@,
        env.arch@ == records@[at].result.meta.arch@,
        env.cpu_count == records@[at].result.meta.cpu_count,
        env.rustc@ == records@[at].result.meta.rustc@,
    ensures
        final(out)@ == old(out)@ + head_text(records@, at, opt_view(*head)),
{
    let summary = summarize_result_commits(records);
    let ghost ranked = ranked_commits(commits_of(records@));
    let ghost start = out@;
    out.append("# Benchmark Report\n\n## Environment\n- OS: ");
    out.append(env.os.as_str());
    out.append(" ");
    out.append(env.arch.as_str());
    out.append("\n- CPU cores: ");
    push_decimal(out, env.cpu_count as u128);
    out.append("\n- Rust: ");
    out.append(env.rustc.as_str());
    out.append("\n- Commit (results): ");
    out.append(summary.primary.as_str());
    out.append("\n");
    let ghost meta = records@[at].result.meta;
    let ghost first = "# Benchmark Report\n\n## Environment\n- OS: "@ + meta.os@ + " "@ + meta.arch@
        + "\n- CPU cores: "@ + decimal(meta.cpu_count as nat) + "\n- Rust: "@ + meta.rustc@
        + "\n- Commit (results): "@ + first_known(ranked) + "\n"@;
    assert(out@ =~= start + first);
    let ghost second = if ranked.len() > 1 {
        "- Commits (results): "@ + joined(commit_parts(ranked), ", "@) + "\n"@
    } else {
        Seq::<char>::empty()
    };
    if summary.all.len() > 1 {
        out.append("- Commits (results): ");
        out.append(format_commit_summary(&summary.all).as_str());
        out.append("\n");
    }
    assert(out@ =~= start + first + second);
    let ghost third = match opt_view(*head) {
        Some(h) => "- Commit (repo HEAD at report generation): "@ + h + "\n"@,
        None => Seq::<char>::empty(),
    };
    match head {
        Some(h) => {
            out.append("- Commit (repo HEAD at report generation): ");
            out.append(h.as_str());
            out.append("\n");
        },
        None => {},
    }
    assert(out@ =~= start + first + second + third);
    out.append("\n");
    assert(first + second + third + "\n"@ == head_text(records@, at, opt_view(*head)));
    assert(out@ =~= start + (first + second + third + "\n"@));
}

fn write_tail(
    out: &mut String,
    records: &Vec<RunRecord>,
    results_dir: &str,
    datasets_dir: &str,
)
    ensures
        final(out)@ == old(out)@ + tail_text(results_dir@, datasets_dir@, layout_note(records@)),
{
    let note = build_lance_layout_note(records);
    let ghost start = out@;
    out.append("## Artifacts\n\n- JSON results: `");
    out.append(results_dir);
    out.append("`\n- Engine outputs: `");
    out.append(datasets_dir);
    out.append("`\n\n");
    out.append(
        "## Notes\n\n- Some results are below 1 ms wall time; these are displayed as `0.xxx ms`.\n- Scan workloads may be executed multiple times via `--repeats`; scan times are reported as p50/p95/p99 across repeats, while row/byte counts are reported per scan as an average across repeats.\n- Scan workloads exclude blob columns for blob-bearing datasets; blob throughput/latency is reported under `Random Blob`.\n- Projection and filtered scans use a stored numeric column (`bench_small_u64`) instead of a synthetic row index to avoid column-virtualization artifacts.\n- LeRobot datasets use only the first parquet file under the `data/` subdirectory to avoid schema drift across parquet shards and meta parquet files.\n- OpenVid uses a synthetic blob column (`video_blob`) materialized during ingestion (default `OPENVID_FAKE_BLOB_BYTES=256`).\n",
    );
    match &note {
        Some(n) => {
            out.append("- ");
            out.append(n.as_str());
            out.append("\n");
        },
        None => {},
    }
    assert(out@ =~= start + tail_text(results_dir@, datasets_dir@, opt_view(note)));
}

/// Makes the report. `rates` belong to the records one by one, `sizes` to the input directories;
/// `head` is the commit of the working copy, where one is known. Without results there is no
/// report.
pub fn render_report(
    records: &Vec<RunRecord>,
    rates: &Vec<Rates>,
    sizes: &Vec<u64>,
    head: &Option<String>,
    results_dir: &str,
    datasets_dir: &str,
) -> (report: Result<String, ReportError>)
    requires
        rates.len() == records.len(),
        sizes.len() == inputs().len(),
    ensures
        report is Err <==> records.len() == 0,
        match report {
            Ok(text) => exists|env: int| #[trigger]
                is_env_record(commits_of(records@), env) && text@ == report_text(
                    records@,
                    rates@,
                    env,
                    sizes@,
                    opt_view(*head),
                    results_dir@,
                    datasets_dir@,
                ),
            Err(e) => e == ReportError::NoResults,
        },
{
    let env = match pick_env(records) {
        Ok(env) => env,
        Err(e) => return Err(e),
    };
    let ghost at = choose|at: int| #[trigger]
        is_env_record(commits_of(records@), at) && {
            let meta = records@[at].result.meta;
            env.os@ == meta.os@ && env.arch@ == meta.arch@ && env.cpu_count == meta.cpu_count
                && env.rustc@ == meta.rustc@
        };
    let mut out = String::new();
    write_head(&mut out, records, &env, head, Ghost(at));
    out.append("## Datasets (Local Inputs)\n\n| Dataset | Input path | Input size | Notes |\n|---|---|---:|---|\n");
    push_input_rows(&mut out, sizes);
    out.append("\n");
    assert(out@ =~= head_text(records@, at, opt_view(*head)) + inputs_text(sizes@));
    write_results_section(&mut out, records, rates);
    write_tail(&mut out, records, results_dir, datasets_dir);
    Ok(out)
}

} // verus!
