//! Records, reports and plots.
use storage_bench::cases::{
    find_record, lance_cases_for_workload, lance_versions_for_layout, sort_versions,
};
use storage_bench::commits::{
    format_commit_summary, is_unknown_commit, pick_env, summarize_result_commits, ReportError,
};
use storage_bench::document::{build_dataset_rows, build_lance_layout_note, input_list, render_report};
use storage_bench::metrics::{LatencySummary, Timing};
use storage_bench::params::Params;
use storage_bench::plot::{
    bar_value, charts, engine_color, engines_for_report, load_results as load_plot_results,
};
use storage_bench::records::{
    dataset_order, engine_order, has_extension, infer_key_from_filename, is_result_file,
    lance_file_version_order, workload_order, ResultFile, RunKey, RunRecord,
};
use storage_bench::report::{
    dataset_display, dataset_iter, engine_display, lines_for, load_results, parse_u64_param,
    scan_repeats, timing_us,
};
use storage_bench::result::{RunMetadata, RunResult};
use storage_bench::sections::{query_shape_for_workload, write_take_section};
use storage_bench::selection::{engine_display_key, select_results, workload_key, Listing};
use storage_bench::tables::{evolve_notes, write_ingest_row, write_scan_row, Rates};
use storage_bench::workload::{DatasetName, EngineName, Workload};

fn result(
    engine: EngineName,
    dataset: DatasetName,
    workload: Workload,
    started: u128,
    params: &[(&str, &str)],
) -> RunResult {
    let mut all = Params::new();
    for (name, value) in params {
        all.insert(name, value.to_string());
    }
    RunResult {
        meta: RunMetadata {
            bench_version: "0.1.0".to_string(),
            git_commit: "abc".to_string(),
            os: "linux".to_string(),
            arch: "x86_64".to_string(),
            cpu_count: 8,
            engine_version: "e".to_string(),
            engine,
            dataset,
            workload,
            seed: 1,
            started_at_unix_ms: started,
            rustc: "rustc 1.0".to_string(),
            params: all,
        },
        timing: Timing { wall_time_us: 2500, wall_time_ms: 2, repeat_wall_time_us: None },
        rows: Some(100),
        bytes: Some(2048),
        latency: Some(LatencySummary { p50_us: 500, p95_us: 1500, p99_us: 2500 }),
        notes: Vec::new(),
    }
}

fn file(name: &str, result: RunResult) -> ResultFile {
    ResultFile { name: name.as_bytes().to_vec(), result }
}

fn lance(workload: Workload, started: u128, version: &str) -> RunResult {
    result(
        EngineName::Lance,
        DatasetName::FineWeb,
        workload,
        started,
        &[("lance_file_version", version)],
    )
}

fn parquet(workload: Workload, started: u128) -> RunResult {
    result(EngineName::Parquet, DatasetName::FineWeb, workload, started, &[])
}

fn rates(n: usize) -> Vec<Rates> {
    (0..n)
        .map(|i| Rates {
            rows_per_second: format!("r{i}"),
            bytes_per_second: format!("b{i}"),
            average_time: format!("t{i}"),
        })
        .collect()
}

fn sources(records: &[RunRecord]) -> Vec<String> {
    records.iter().map(|r| String::from_utf8(r.source.clone()).unwrap()).collect()
}

#[test]
fn file_names_tell_the_case() {
    let key = infer_key_from_filename(&b"x.openvid.take.lance-fragment.json".to_vec()).unwrap();
    assert_eq!(key.dataset, DatasetName::OpenVid);
    assert_eq!(key.workload, Workload::RandomTake);
    assert_eq!(key.engine, EngineName::LanceFragment);
    assert!(key.lance_file_version.is_none());
    let odd = infer_key_from_filename(&b"a.b.c.json".to_vec()).unwrap();
    assert_eq!(odd.dataset, DatasetName::Unknown);
    assert_eq!(odd.workload, Workload::Size);
    assert_eq!(odd.engine, EngineName::Unknown);
    assert!(infer_key_from_filename(&b"a.b.json".to_vec()).is_none());
    assert!(infer_key_from_filename(&b"\xff.b.c.json".to_vec()).is_none());
    assert!(is_result_file(&b"x.json".to_vec()) && !is_result_file(&b".json".to_vec()));
    assert!(has_extension(&b"x.tar.gz".to_vec(), "gz"));
}

#[test]
fn newest_result_of_each_case_counts() {
    let files = vec![
        file("old.json", parquet(Workload::ScanFull, 1)),
        file("new.json", parquet(Workload::ScanFull, 9)),
        file("lance.json", lance(Workload::ScanFull, 5, "2.1")),
        file("ingest.json", parquet(Workload::Ingest, 3)),
    ];
    let records = load_results(files);
    assert_eq!(sources(&records), vec!["ingest.json", "new.json", "lance.json"]);
}

#[test]
fn selection_ignores_order() {
    let make = || {
        vec![
            file("a.json", parquet(Workload::ScanFull, 1)),
            file("b.json", parquet(Workload::ScanFull, 1)),
            file("c.json", lance(Workload::ScanFull, 5, "2.1")),
            file("d.json", lance(Workload::ScanFull, 5, "2.0")),
        ]
    };
    let mut reversed = make();
    reversed.reverse();
    let forward = sources(&select_results(Listing::Report, make()));
    let backward = sources(&select_results(Listing::Report, reversed));
    assert_eq!(forward, backward);
    assert_eq!(forward.len(), 3);
}

#[test]
fn unknown_metadata_is_inferred() {
    let unknown = result(EngineName::Unknown, DatasetName::Unknown, Workload::Size, 1, &[]);
    let records = load_results(vec![file("openvid.ingest.parquet.json", unknown)]);
    assert_eq!(records[0].key.dataset, DatasetName::OpenVid);
    assert_eq!(records[0].key.engine, EngineName::Parquet);
    assert_eq!(records[0].key.workload, Workload::Size);
}

#[test]
fn ranks_are_fixed() {
    assert_eq!(dataset_order(DatasetName::FineWeb), 0);
    assert_eq!(dataset_order(DatasetName::Unknown), 255);
    assert_eq!(engine_order(EngineName::Parquet), 0);
    assert!(workload_order(Workload::Ingest) < workload_order(Workload::ScanFull));
    let v = |s: &str| lance_file_version_order(&Some(s.to_string()));
    assert!(v("2.0") < v("2.1") && v("2.1") < v("2.2"));
    assert_eq!(
        sort_versions(vec!["2.2".to_string(), "2.0".to_string(), "2.1".to_string()]),
        vec!["2.0".to_string(), "2.1".to_string(), "2.2".to_string()]
    );
    assert!(workload_key(Workload::Ingest) != workload_key(Workload::Size));
}

#[test]
fn engines_are_displayed() {
    let key = |engine, version: Option<&str>, off, cols: Option<&str>| RunKey {
        dataset: DatasetName::FineWeb,
        engine,
        lance_file_version: version.map(|s| s.to_string()),
        lance_disable_compression: off,
        lance_index_columns: cols.map(|s| s.to_string()),
        workload: Workload::ScanFull,
    };
    assert_eq!(
        engine_display(&key(EngineName::Lance, Some("2.1"), true, Some("a,b"))),
        "lance@2.1+no-compression+idx(a,b)"
    );
    assert_eq!(engine_display(&key(EngineName::Lance, None, false, Some(""))), "lance@unknown");
    assert_eq!(engine_display(&key(EngineName::Parquet, Some("2.1"), true, None)), "parquet");
    assert_eq!(engine_display(&key(EngineName::LanceFragment, None, false, None)), "lance-fragment");
    assert_ne!(
        engine_display_key(&key(EngineName::Lance, Some("2.1"), false, None)),
        engine_display_key(&key(EngineName::Lance, Some("2.0"), false, None))
    );
    assert_eq!(dataset_display(DatasetName::Laion10m), "LAION");
    assert_eq!(dataset_iter().len(), 5);
}

#[test]
fn small_facts_are_read() {
    let t = |us, ms| Timing { wall_time_us: us, wall_time_ms: ms, repeat_wall_time_us: None };
    assert_eq!(timing_us(&t(7, 1)), 7);
    assert_eq!(timing_us(&t(0, 3)), 3000);
    assert_eq!(timing_us(&t(0, u128::MAX)), u128::MAX);
    let r = result(
        EngineName::Lance,
        DatasetName::FineWeb,
        Workload::ScanFull,
        1,
        &[("repeats", "0"), ("n", "12"), ("bad", "x")],
    );
    assert_eq!(scan_repeats(&r.meta.params), 1);
    assert_eq!(parse_u64_param(&r.meta.params, "n"), Some(12));
    assert_eq!(parse_u64_param(&r.meta.params, "bad"), None);
    assert!(query_shape_for_workload(Workload::ScanFull).len() > 0);
}

#[test]
fn commits_are_counted() {
    assert!(is_unknown_commit("unknown") && !is_unknown_commit("abc"));
    let mut files = Vec::new();
    for (i, commit) in ["abc", "def", "def", "unknown", "unknown", "unknown"].iter().enumerate() {
        let mut r = lance(Workload::ScanFull, i as u128, &format!("2.{i}"));
        r.meta.git_commit = commit.to_string();
        r.meta.os = format!("os-{commit}");
        files.push(file(&format!("{i}.json"), r));
    }
    let records = load_results(files);
    let summary = summarize_result_commits(&records);
    assert_eq!(summary.primary, "def");
    assert_eq!(summary.all.iter().map(|c| c.1).sum::<u64>(), 6);
    assert!(format_commit_summary(&summary.all).contains("def"));
    assert_eq!(pick_env(&records).unwrap().os, "os-def");
    let error = pick_env(&Vec::new()).unwrap_err();
    assert_eq!(error, ReportError::NoResults);
    assert_eq!(error.message(), "no results found");
}

#[test]
fn tables_have_rows() {
    let records = load_results(vec![
        file("p.json", parquet(Workload::Ingest, 1)),
        file("s.json", parquet(Workload::Size, 1)),
    ]);
    let at = records.iter().position(|r| r.key.workload == Workload::Ingest).unwrap();
    let mut out = String::new();
    write_ingest_row(&mut out, &records, &rates(records.len()), DatasetName::FineWeb, at);
    assert_eq!(
        out,
        format!("| FineWeb | parquet | 100 | 2 ms | r{at} | 2.00 KiB | b{at} | 2.00 KiB |\n")
    );
    let mut failed = parquet(Workload::ScanFull, 1);
    failed.notes = vec!["error: x".to_string()];
    let records = load_results(vec![file("f.json", failed)]);
    let mut out = String::new();
    write_scan_row(&mut out, &records, &rates(1), DatasetName::FineWeb, 0);
    assert!(out.starts_with("| FineWeb | parquet |") && out.contains("ERROR"));
    let mut out = String::new();
    write_take_section(&mut out, &records);
    assert!(out.contains("Random Take"));
}

#[test]
fn evolutions_have_notes() {
    let r = result(
        EngineName::Lance,
        DatasetName::FineWeb,
        Workload::EvolutionBackfill,
        1,
        &[("expr", "a + 1"), ("new_column", "n")],
    );
    assert_eq!(evolve_notes(&r.meta.params), "expr=a + 1");
    let r = result(
        EngineName::Parquet,
        DatasetName::FineWeb,
        Workload::EvolutionBackfill,
        1,
        &[("rewrite_out", "x.parquet")],
    );
    assert_eq!(evolve_notes(&r.meta.params), "rewrite_out=x.parquet");
    let r = result(
        EngineName::Parquet,
        DatasetName::FineWeb,
        Workload::EvolutionBackfill,
        1,
        &[],
    );
    assert_eq!(evolve_notes(&r.meta.params), "-");
}

#[test]
fn cases_are_listed() {
    let records = load_results(vec![
        file("a.json", lance(Workload::ScanFull, 1, "2.1")),
        file("b.json", lance(Workload::ScanFull, 1, "2.0")),
        file("c.json", parquet(Workload::ScanFull, 1)),
    ]);
    let cases = lance_cases_for_workload(&records, DatasetName::FineWeb, Workload::ScanFull);
    let versions: Vec<&str> = cases.iter().map(|c| c.file_version.as_str()).collect();
    assert_eq!(versions, vec!["2.0", "2.1"]);
    assert_eq!(
        lance_versions_for_layout(&records, DatasetName::FineWeb, Workload::ScanFull),
        vec!["2.0".to_string(), "2.1".to_string()]
    );
    let want = RunKey {
        dataset: DatasetName::FineWeb,
        engine: EngineName::Lance,
        lance_file_version: Some("2.1".to_string()),
        lance_disable_compression: false,
        lance_index_columns: None,
        workload: Workload::ScanFull,
    };
    let at = find_record(&records, &want).unwrap();
    assert_eq!(records[at].source, b"a.json".to_vec());
    let missing = RunKey { workload: Workload::Size, ..want };
    assert!(find_record(&records, &missing).is_none());
    assert_eq!(lines_for(&records, Workload::ScanFull).len(), 3);
    assert!(lines_for(&records, Workload::Size).is_empty());
}

#[test]
fn reports_are_rendered() {
    let none: Option<String> = None;
    let sizes = vec![0u64, 1024, 0, 0, 0];
    assert_eq!(
        render_report(&Vec::new(), &Vec::new(), &sizes, &none, "r", "d").unwrap_err(),
        ReportError::NoResults
    );
    assert_eq!(input_list().len(), 5);
    assert_eq!(build_dataset_rows(&sizes)[1].input_size, "1.00 KiB");
    let records = load_results(vec![
        file("p.json", parquet(Workload::ScanFull, 1)),
        file("l.json", lance(Workload::ScanFull, 1, "2.0")),
    ]);
    assert!(build_lance_layout_note(&records).is_none());
    let head = Some("headcommit".to_string());
    let text =
        render_report(&records, &rates(2), &sizes, &head, "results/json", "results/datasets")
            .unwrap();
    assert!(text.starts_with(
        "# Benchmark Report\n\n## Environment\n- OS: linux x86_64\n- CPU cores: 8\n- Rust: rustc 1.0\n- Commit (results): abc\n- Commit (repo HEAD at report generation): headcommit\n\n## Datasets (Local Inputs)\n\n"
    ));
    assert!(text.contains("#### Full scan\n\n- Query shape: "));
    assert!(text.contains("| FineWeb | parquet | 100 | 0.500 ms | 1 ms | 2 ms |"));
    assert!(text.contains("| FineWeb | lance@2.0 | 100 |"));
    assert!(text.contains("- JSON results: `results/json`\n- Engine outputs: `results/datasets`\n"));
}

#[test]
fn plots_have_bars() {
    let records = load_plot_results(vec![
        file("p.json", parquet(Workload::ScanFull, 1)),
        file("l.json", lance(Workload::ScanFull, 1, "2.0")),
        file("i.json", parquet(Workload::Ingest, 1)),
    ]);
    let engines = engines_for_report(&records);
    assert!(engines.len() >= 2);
    let parquet_spec = engines.iter().find(|e| e.engine == EngineName::Parquet).unwrap();
    let lance_spec = engines.iter().find(|e| e.engine == EngineName::Lance).unwrap();
    assert_ne!(engine_color(parquet_spec), engine_color(lance_spec));
    let all = charts();
    assert_eq!(all.len(), 10);
    assert_eq!(all[0].file, "ingest.time_ms.svg");
    assert_eq!(bar_value(&records, DatasetName::FineWeb, parquet_spec, &all[0]), Some(2));
    assert_eq!(bar_value(&records, DatasetName::FineWeb, lance_spec, &all[0]), None);
    assert_eq!(bar_value(&records, DatasetName::FineWeb, lance_spec, &all[2]), Some(500));
    assert_eq!(bar_value(&records, DatasetName::OpenVid, lance_spec, &all[2]), None);
}
