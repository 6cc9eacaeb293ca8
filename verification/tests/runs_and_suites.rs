//! Results of runs, and suites of runs.
use storage_bench::args::{DatasetArg, EngineArg, LanceWriteModeArg, ScanModeArg};
use storage_bench::metrics::{LatencySummary, Timing};
use storage_bench::params::Params;
use storage_bench::report::failure_tag;
use storage_bench::runs::{
    broken_probe_result, engine_version, evolve_expr, evolve_result, failure_result,
    ingest_result, make_meta, maybe_add_lance_index_params, needs_blob_probe, random_result,
    rewrite_path, scan_result, size_result, smoke_result, EvolveRun, IngestRun, LanceFacts,
    RandomRun, RandomTarget, RunEnv, RunStart, RunSubject, ScanRun, SizeRun,
};
use storage_bench::scans::scan_filter;
use storage_bench::suite::{
    datasets_or_all, default_suite_limit_rows, parse_versions_csv, plan_suite, ListError,
    SuiteCase, SuiteConfig, SuiteOp,
};
use storage_bench::workload::{DatasetName, EngineName, Workload};

fn some(s: &str) -> Option<String> {
    Some(s.to_string())
}

fn strings(items: &[&str]) -> Vec<String> {
    items.iter().map(|s| s.to_string()).collect()
}

fn env() -> RunEnv {
    RunEnv {
        bench_version: "0.1.0".to_string(),
        git_commit: "abc".to_string(),
        os: "linux".to_string(),
        arch: "x86_64".to_string(),
        cpu_count: 8,
        rustc: "rustc 1.0".to_string(),
    }
}

fn start() -> RunStart {
    RunStart { seed: 7, started_at_unix_ms: 1234 }
}

fn timing() -> Timing {
    Timing { wall_time_us: 1500, wall_time_ms: 1, repeat_wall_time_us: None }
}

fn latency() -> LatencySummary {
    LatencySummary { p50_us: 1, p95_us: 2, p99_us: 3 }
}

fn pairs(params: &Params) -> Vec<(String, String)> {
    (0..params.len())
        .map(|i| {
            let (name, value) = params.entry(i);
            (name.clone(), value.clone())
        })
        .collect()
}

fn expect(params: &Params, expected: &[(&str, &str)]) {
    let expected: Vec<(String, String)> =
        expected.iter().map(|(n, v)| (n.to_string(), v.to_string())).collect();
    assert_eq!(pairs(params), expected);
}

#[test]
fn params_are_sorted_and_unique() {
    let mut params = Params::new();
    assert_eq!(params.len(), 0);
    params.insert("b", "1".to_string());
    params.insert("a", "2".to_string());
    params.insert("b", "3".to_string());
    params.insert_opt("c", None);
    params.insert_opt("d", some("4"));
    expect(&params, &[("a", "2"), ("b", "3"), ("d", "4")]);
    assert_eq!(params.get("b"), Some(&"3".to_string()));
    assert_eq!(params.get("c"), None);
    expect(&params.clone(), &[("a", "2"), ("b", "3"), ("d", "4")]);
}

#[test]
fn metadata_describes_the_run() {
    assert_eq!(engine_version(EngineName::Parquet), "adapter=0.1.0 dep=58.3.0");
    assert_eq!(engine_version(EngineName::Lance), "adapter=0.1.0 dep=09174bc");
    assert_eq!(engine_version(EngineName::LanceFragment), "adapter=0.1.0 dep=09174bc");
    assert_eq!(engine_version(EngineName::Unknown), "unknown");
    let subject = RunSubject {
        engine: EngineName::Parquet,
        dataset: DatasetName::OpenVid,
        workload: Workload::Size,
        seed: 5,
        started_at_unix_ms: 6,
    };
    let meta = make_meta(&env(), subject, Params::new());
    assert_eq!(meta.git_commit, "abc");
    assert_eq!(meta.engine_version, "adapter=0.1.0 dep=58.3.0");
    assert_eq!((meta.seed, meta.started_at_unix_ms, meta.cpu_count), (5, 6, 8));
    let mut params = Params::new();
    maybe_add_lance_index_params(EngineName::LanceFragment, "x.index", &mut params);
    maybe_add_lance_index_params(EngineName::Lance, "x", &mut params);
    assert_eq!(params.len(), 0);
    maybe_add_lance_index_params(EngineName::Lance, "x.index", &mut params);
    expect(&params, &[("lance_index_columns", "bench_small_u64")]);
}

fn ingest(engine: EngineArg) -> IngestRun {
    IngestRun {
        engine,
        dataset: DatasetArg::FineWeb,
        input: "in".to_string(),
        out: "out".to_string(),
        batch_size: 100,
        limit_rows: Some(9),
        row_id_offset: 0,
        stored_version: some("2.1"),
        asked_version: some("stable"),
        index_columns: some("a,b"),
        write_mode: Some(LanceWriteModeArg::Create),
        max_rows_per_file: Some(11),
        max_bytes_per_file: None,
        schema_fields: 4,
        rows: 3,
        bytes: 5,
    }
}

#[test]
fn ingests_are_recorded() {
    let result = ingest_result(&env(), start(), &ingest(EngineArg::Lance), timing());
    assert_eq!(result.meta.engine, EngineName::Lance);
    assert_eq!(result.meta.workload, Workload::Ingest);
    assert_eq!((result.rows, result.bytes), (Some(3), Some(5)));
    assert!(result.latency.is_none() && result.notes.is_empty());
    expect(
        &result.meta.params,
        &[
            ("batch_size", "100"),
            ("bytes", "5"),
            ("dataset_out", "out"),
            ("input", "in"),
            ("lance_file_version", "2.1"),
            ("lance_file_version_requested", "stable"),
            ("lance_index_columns", "a,b"),
            ("lance_max_rows_per_file", "11"),
            ("lance_write_mode", "create"),
            ("limit_rows", "9"),
            ("row_id_offset", "0"),
            ("rows", "3"),
            ("schema_fields", "4"),
        ],
    );
    let mut plain = ingest(EngineArg::Parquet);
    plain.limit_rows = None;
    let result = ingest_result(&env(), start(), &plain, timing());
    expect(
        &result.meta.params,
        &[
            ("batch_size", "100"),
            ("bytes", "5"),
            ("dataset_out", "out"),
            ("input", "in"),
            ("row_id_offset", "0"),
            ("rows", "3"),
            ("schema_fields", "4"),
        ],
    );
    let mut empty = ingest(EngineArg::Lance);
    empty.index_columns = some("");
    let result = ingest_result(&env(), start(), &empty, timing());
    assert_eq!(result.meta.params.get("lance_index_columns"), None);
}

#[test]
fn scans_are_recorded() {
    let run = ScanRun {
        engine: EngineArg::Lance,
        dataset: DatasetArg::Laion10m,
        path: "d.index".to_string(),
        workload: Workload::ScanFilterLow,
        projection: strings(&["a", "b"]),
        threshold: Some(12),
        limit_rows: Some(1),
        row_offset: None,
        repeats: 3,
        lance: Some(LanceFacts {
            file_version: "2.0".to_string(),
            fragment_count: 4,
            data_file_count: None,
        }),
        rows: 10,
        bytes: 20,
        latency: latency(),
    };
    let result = scan_result(&env(), start(), &run, timing());
    assert_eq!(result.meta.workload, Workload::ScanFilterLow);
    assert_eq!(result.latency, Some(latency()));
    expect(
        &result.meta.params,
        &[
            ("filter", "bench_small_u64 < 12"),
            ("lance_file_version", "2.0"),
            ("lance_fragment_count", "4"),
            ("lance_index_columns", "bench_small_u64"),
            ("limit_rows", "1"),
            ("path", "d.index"),
            ("projection", "a,b"),
            ("repeats", "3"),
        ],
    );
}

fn random(target: RandomTarget) -> RandomRun {
    RandomRun {
        engine: EngineArg::Lance,
        dataset: DatasetArg::OpenVid,
        path: "p".to_string(),
        iters: 6,
        row_count: 60,
        target,
        lance_file_version: some("2.2"),
    }
}

#[test]
fn random_reads_are_recorded() {
    let take = random(RandomTarget::Columns(strings(&["x"])));
    let result = random_result(&env(), start(), &take, timing(), None, Some(latency()));
    assert_eq!(result.meta.workload, Workload::RandomTake);
    assert_eq!((result.rows, result.bytes), (Some(6), None));
    expect(
        &result.meta.params,
        &[
            ("iters", "6"),
            ("lance_file_version", "2.2"),
            ("path", "p"),
            ("projection", "x"),
            ("row_count", "60"),
        ],
    );
    let blob = random(RandomTarget::Blob("video_blob".to_string()));
    let result = broken_probe_result(&env(), start(), &blob, timing(), "task 3 panicked");
    assert_eq!(result.meta.workload, Workload::RandomBlob);
    assert_eq!((result.bytes, result.latency), (Some(0), None));
    assert_eq!(result.notes, strings(&["panic: task 3 panicked"]));
    assert_eq!(result.meta.params.get("column"), Some(&"video_blob".to_string()));
    assert!(needs_blob_probe(EngineArg::Lance, &some("2.2")));
    assert!(!needs_blob_probe(EngineArg::Lance, &some("2.1")));
    assert!(!needs_blob_probe(EngineArg::Lance, &None));
    assert!(!needs_blob_probe(EngineArg::Parquet, &some("2.2")));
}

fn evolve(engine: EngineArg) -> EvolveRun {
    EvolveRun {
        engine,
        dataset: DatasetArg::FineWeb,
        path: "p".to_string(),
        new_column: "n".to_string(),
        out: None,
        expr: None,
        lance_file_version: some("2.0"),
        base_size_bytes: 100,
        evolved_size_bytes: 130,
    }
}

#[test]
fn evolutions_are_recorded() {
    let lance = evolve_result(&env(), start(), &evolve(EngineArg::Lance), timing());
    assert_eq!(lance.bytes, Some(30));
    expect(
        &lance.meta.params,
        &[
            ("base_size_bytes", "100"),
            ("evolved_size_bytes", "130"),
            ("expr", "bench_row_id + 1"),
            ("lance_file_version", "2.0"),
            ("new_column", "n"),
            ("path", "p"),
        ],
    );
    let mut shrunk = evolve(EngineArg::Lance);
    shrunk.base_size_bytes = 200;
    assert_eq!(evolve_result(&env(), start(), &shrunk, timing()).bytes, Some(0));
    let parquet = evolve_result(&env(), start(), &evolve(EngineArg::Parquet), timing());
    assert_eq!(parquet.bytes, Some(130));
    assert_eq!(
        parquet.meta.params.get("rewrite_out"),
        Some(&"p.evolved.parquet".to_string())
    );
    assert_eq!(parquet.meta.params.get("lance_file_version"), None);
    assert_eq!(rewrite_path("p", &some("q")), "q");
    assert_eq!(evolve_expr(&some("e")), "e");
}

#[test]
fn sizes_and_smoke_checks_are_recorded() {
    let run = SizeRun {
        engine: None,
        dataset: None,
        path: "p".to_string(),
        lance_file_version: some("2.0"),
        bytes: 77,
    };
    let result = size_result(&env(), start(), &run, timing());
    assert_eq!(result.meta.engine, EngineName::Unknown);
    assert_eq!(result.meta.dataset, DatasetName::Unknown);
    assert_eq!(result.bytes, Some(77));
    expect(&result.meta.params, &[("path", "p")]);
    let smoke = smoke_result(&env(), start(), EngineArg::Parquet, timing());
    assert_eq!(smoke.notes, strings(&["Smoke check only"]));
    assert_eq!(smoke.meta.dataset, DatasetName::LeRobotPushT);
    expect(&smoke.meta.params, &[("smoke", "true")]);
}

#[test]
fn failures_are_marked() {
    let subject = RunSubject {
        engine: EngineName::Lance,
        dataset: DatasetName::OpenVid,
        workload: Workload::ScanFull,
        seed: 1,
        started_at_unix_ms: 2,
    };
    let mut params = Params::new();
    params.insert("path", "p".to_string());
    let result = failure_result(&env(), subject, params.clone(), "no such file", timing());
    assert_eq!(result.notes, strings(&["error: no such file"]));
    assert_eq!(failure_tag(&result.notes), Some("ERROR"));
    expect(&result.meta.params, &[("error", "no such file"), ("path", "p")]);
    assert!(result.rows.is_none() && result.bytes.is_none());
    let result = failure_result(&env(), subject, params, "task 1 panicked at x", timing());
    assert_eq!(failure_tag(&result.notes), Some("PANIC"));
    assert_eq!(failure_tag(&strings(&["fine"])), None);
}

fn config() -> SuiteConfig {
    SuiteConfig {
        data_dir: "data".to_string(),
        out_root: "results".to_string(),
        run_id: "r1".to_string(),
        datasets: vec![DatasetArg::FineWeb, DatasetArg::OpenVid],
        versions: strings(&["2.0", "2.1"]),
        batch_size: 1000,
        limit_rows: None,
        scan_repeats: 5,
        take_iters: 10,
        blob_iters: 20,
        evolve_new_column: "n".to_string(),
        evolve_expr: None,
    }
}

fn path_of(op: &SuiteOp) -> String {
    match op {
        SuiteOp::Ingest { out, .. } => out.clone(),
        SuiteOp::Size { path } => path.clone(),
        SuiteOp::Scan { path, .. } => path.clone(),
        SuiteOp::Take { path, .. } => path.clone(),
        SuiteOp::Blob { path, .. } => path.clone(),
        SuiteOp::Evolve { path, .. } => path.clone(),
    }
}

#[test]
fn suites_read_what_they_wrote() {
    let cases = plan_suite(&config());
    // Per dataset: three ingests, three sizes, and per stored dataset four scans, a take and an
    // evolution; the second dataset has blobs.
    assert_eq!(cases.len(), (3 + 3 + 3 * 6) + (3 + 3 + 3 * 7));
    for (i, case) in cases.iter().enumerate() {
        if !matches!(case.op, SuiteOp::Ingest { .. }) {
            assert!(cases[..i].iter().any(|c| matches!(c.op, SuiteOp::Ingest { .. })
                && path_of(&c.op) == path_of(&case.op)
                && c.engine == case.engine));
        }
    }
}

#[test]
fn suite_results_are_apart() {
    let cases = plan_suite(&config());
    for (i, a) in cases.iter().enumerate() {
        for b in &cases[i + 1..] {
            assert_ne!(a.result_out, b.result_out);
        }
    }
    assert_eq!(cases[0].result_out, "results/runs/r1/json/ingest.fineweb.parquet.json");
    assert_eq!(path_of(&cases[1].op), "results/runs/r1/datasets/fineweb/fineweb.lance.v2_0");
    let same_tag = SuiteConfig { versions: strings(&["2.0", "2_0"]), ..config() };
    let cases = plan_suite(&same_tag);
    assert_eq!(cases[1].result_out, cases[2].result_out);
    assert_eq!(path_of(&cases[1].op), path_of(&cases[2].op));
}

#[test]
fn suite_cases_name_their_filter() {
    let cases = plan_suite(&config());
    let filtered: Vec<&SuiteCase> = cases
        .iter()
        .filter(|c| c.workload == Workload::ScanFilterLow || c.workload == Workload::ScanFilterHigh)
        .collect();
    assert_eq!(filtered.len(), 12);
    for case in filtered {
        let mode = match &case.op {
            SuiteOp::Scan { mode, repeats: 5, .. } => *mode,
            _ => unreachable!(),
        };
        assert!(mode == ScanModeArg::FilterLow || mode == ScanModeArg::FilterHigh);
        assert_eq!(
            case.params.get("filter"),
            Some(&scan_filter(mode).unwrap().sql_text())
        );
    }
}

#[test]
fn suite_cases_carry_their_params() {
    let cases = plan_suite(&config());
    expect(
        &cases[1].params,
        &[
            ("batch_size", "1000"),
            ("dataset_out", "results/runs/r1/datasets/fineweb/fineweb.lance.v2_0"),
            ("input", "data/fineweb"),
            ("lance_file_version", "2.0"),
            ("lance_file_version_requested", "2.0"),
            ("limit_rows", "10000000"),
        ],
    );
    let blob = cases.iter().find(|c| c.workload == Workload::RandomBlob).unwrap();
    expect(
        &blob.params,
        &[
            ("column", "video_blob"),
            ("iters", "20"),
            ("path", "results/runs/r1/datasets/openvid/openvid.parquet"),
        ],
    );
    let evolve = cases.iter().find(|c| c.workload == Workload::EvolutionBackfill).unwrap();
    expect(
        &evolve.params,
        &[
            ("new_column", "n"),
            ("path", "results/runs/r1/datasets/fineweb/fineweb.parquet"),
            ("rewrite_out", "results/runs/r1/tmp/fineweb.parquet.evolved.parquet"),
        ],
    );
}

#[test]
fn suites_are_configured() {
    assert_eq!(parse_versions_csv("2.0, ,2.1").unwrap(), strings(&["2.0", "2.1"]));
    let error = parse_versions_csv(" ,").unwrap_err();
    assert_eq!(error, ListError::NoVersions);
    assert_eq!(error.message(), "version list must not be empty");
    assert_eq!(default_suite_limit_rows(DatasetArg::Laion10m, None), Some(200_000));
    assert_eq!(default_suite_limit_rows(DatasetArg::OpenVid, Some(5)), Some(5));
    assert_eq!(default_suite_limit_rows(DatasetArg::LeRobotPushT, None), None);
    assert_eq!(datasets_or_all(vec![]).len(), 5);
    assert_eq!(datasets_or_all(vec![DatasetArg::OpenVid]), vec![DatasetArg::OpenVid]);
    assert_eq!(config().run_dir(), "results/runs/r1");
    assert_eq!(config().report_path(), "results/runs/r1/REPORT.md");
    assert_eq!(
        config().dirs(),
        strings(&[
            "results/runs/r1/datasets",
            "results/runs/r1/json",
            "results/runs/r1/plots",
            "results/runs/r1/tmp"
        ])
    );
}

#[test]
fn suites_cover_every_workload() {
    let cases = plan_suite(&config());
    let count = |dataset: DatasetArg, workload: Workload| {
        cases.iter().filter(|c| c.dataset == dataset && c.workload == workload).count()
    };
    for dataset in [DatasetArg::FineWeb, DatasetArg::OpenVid] {
        for workload in [
            Workload::Ingest,
            Workload::Size,
            Workload::ScanFull,
            Workload::ScanProject,
            Workload::ScanFilterLow,
            Workload::ScanFilterHigh,
            Workload::RandomTake,
            Workload::EvolutionBackfill,
        ] {
            assert_eq!(count(dataset, workload), 3);
        }
    }
    assert_eq!(count(DatasetArg::FineWeb, Workload::RandomBlob), 0);
    assert_eq!(count(DatasetArg::OpenVid, Workload::RandomBlob), 3);
    assert_eq!(cases.len(), 51);
}
