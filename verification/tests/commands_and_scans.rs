//! Commands, scans and the Lance engine's decisions.
use std::time::Duration;

use storage_bench::args::{
    blob_columns, scan_workload, write_mode_name, DatasetArg, EngineArg, LanceWriteModeArg,
    ScanModeArg, WorkloadArg,
};
use storage_bench::commands::{
    check_whole_dataset, dispatch, download_args, download_dir, download_settings, index_request,
    openvid_rows, plan_version_ingests, CommandError, VersionIngest, WorkloadRun,
};
use storage_bench::lance::{
    bench_target_partition, blob_cell, check_fragment_filter, empty_scan, fragment_order,
    index_name, ingest_options, plan_indices, scan_window, BlobCell, FragmentScanError, IndexError,
    IndexPlan, IngestOptions, LanceEngine, FILE_SCAN_BATCH_SIZE,
};
use storage_bench::measure::{
    at_least_one, latency_sample, Latencies, RandomTally, RepeatMeter, RowPicker, ScanCount,
};
use storage_bench::metrics::{Timing, WallTimer};
use storage_bench::query::Filter;
use storage_bench::scans::{
    full_projection, parse_projection, scan_columns, scan_filter, scan_threshold,
    selectivity_threshold_u64, take_columns, ScanColumns,
};
use storage_bench::workload::{DatasetName, EngineName, Workload};

fn strings(items: &[&str]) -> Vec<String> {
    items.iter().map(|s| s.to_string()).collect()
}

fn some(s: &str) -> Option<String> {
    Some(s.to_string())
}

#[test]
fn workloads_are_dispatched() {
    let none: Option<String> = None;
    assert_eq!(
        dispatch(EngineArg::LanceFragment, WorkloadArg::ScanFilterLow, &none, &none),
        Ok(WorkloadRun::Scan(ScanModeArg::FilterLow))
    );
    assert_eq!(
        dispatch(EngineArg::LanceFragment, WorkloadArg::Size, &none, &none),
        Err(CommandError::FragmentsOnlyScan)
    );
    assert_eq!(
        dispatch(EngineArg::Lance, WorkloadArg::RandomTake, &none, &none),
        Ok(WorkloadRun::Take)
    );
    assert_eq!(
        dispatch(EngineArg::Lance, WorkloadArg::RandomBlob, &none, &some("x")),
        Err(CommandError::NoBlobColumn)
    );
    assert_eq!(
        dispatch(EngineArg::Lance, WorkloadArg::RandomBlob, &some("image"), &none),
        Ok(WorkloadRun::Blob { column: "image".to_string() })
    );
    assert_eq!(
        dispatch(EngineArg::Parquet, WorkloadArg::EvolutionBackfill, &some("x"), &none),
        Err(CommandError::NoNewColumn)
    );
    assert_eq!(
        dispatch(EngineArg::Parquet, WorkloadArg::EvolutionBackfill, &none, &some("c")),
        Ok(WorkloadRun::Evolve { new_column: "c".to_string() })
    );
    assert_eq!(
        dispatch(EngineArg::Parquet, WorkloadArg::Size, &none, &none),
        Ok(WorkloadRun::Size)
    );
}

#[test]
fn errors_have_words() {
    assert_eq!(
        check_whole_dataset(EngineArg::LanceFragment).unwrap_err().message(),
        "engine lance-fragment supports scan workloads only"
    );
    assert_eq!(check_whole_dataset(EngineArg::Lance), Ok(()));
    assert_eq!(CommandError::NoBlobColumn.message(), "--column is required for random-blob");
    assert_eq!(
        CommandError::NoNewColumn.message(),
        "--new-column is required for evolution-backfill"
    );
    assert_eq!(CommandError::NoShards.message(), "LAION_SHARDS must be >= 1 (got 0)");
    assert_eq!(CommandError::NoFileVersions.message(), "--lance-file-versions must not be empty");
}

#[test]
fn index_requests_are_checked() {
    assert_eq!(index_request(EngineArg::Lance, " a, b"), Ok(strings(&["a", "b"])));
    assert_eq!(index_request(EngineArg::LanceFragment, "a"), Ok(strings(&["a"])));
    assert_eq!(index_request(EngineArg::Parquet, "a"), Err(CommandError::IndexNeedsLance));
    let empty = index_request(EngineArg::Parquet, " ,");
    assert_eq!(empty, Err(CommandError::NoIndexColumns));
    assert_eq!(empty.unwrap_err().message(), "--columns must not be empty");
    assert_eq!(
        CommandError::IndexNeedsLance.message(),
        "create-index supports lance datasets only"
    );
}

#[test]
fn version_ingests_are_planned() {
    let plan = plan_version_ingests(
        DatasetArg::FineWeb,
        "out",
        "res",
        "2.0, 2.1",
        true,
        " a ,b,",
    )
    .unwrap();
    let ingest = |version: &str, out: &str, result_out: &str, index: Option<&str>| VersionIngest {
        version: version.to_string(),
        out: out.to_string(),
        result_out: result_out.to_string(),
        index_columns: index.map(|s| s.to_string()),
    };
    assert_eq!(
        plan,
        vec![
            ingest("2.0", "out/fineweb.lance.v2_0", "res/ingest.fineweb.lance.v2_0.json", None),
            ingest(
                "2.0",
                "out/fineweb.lance.v2_0.index",
                "res/ingest.fineweb.lance.v2_0.index.json",
                Some("a,b")
            ),
            ingest("2.1", "out/fineweb.lance.v2_1", "res/ingest.fineweb.lance.v2_1.json", None),
            ingest(
                "2.1",
                "out/fineweb.lance.v2_1.index",
                "res/ingest.fineweb.lance.v2_1.index.json",
                Some("a,b")
            ),
        ]
    );
    let plain = plan_version_ingests(DatasetArg::OpenVid, "o", "r", "stable", false, "a").unwrap();
    assert_eq!(
        plain,
        vec![ingest("stable", "o/openvid.lance.vstable", "r/ingest.openvid.lance.vstable.json", None)]
    );
    assert_eq!(
        plan_version_ingests(DatasetArg::OpenVid, "o", "r", " , ", true, "a"),
        Err(CommandError::NoFileVersions)
    );
}

#[test]
fn downloads_have_arguments() {
    assert_eq!(
        download_args(DatasetArg::Laion10m, &some("2"), "data/laion10m").unwrap(),
        strings(&[
            "download",
            "Leonardo6/laion10m",
            ".gitattributes",
            "00000.tar",
            "00001.tar",
            "--repo-type",
            "dataset",
            "--max-workers",
            "1",
            "--local-dir",
            "data/laion10m"
        ])
    );
    assert_eq!(download_args(DatasetArg::Laion10m, &some("0"), "x"), Err(CommandError::NoShards));
    assert_eq!(download_args(DatasetArg::Laion10m, &some("many"), "x").unwrap().len(), 10);
    assert_eq!(
        download_args(DatasetArg::FineWeb, &some("0"), "x").unwrap()[1..3],
        strings(&["HuggingFaceFW/fineweb", "sample/10BT/000_00000.parquet"])[..]
    );
    assert_eq!(download_args(DatasetArg::LeRobotPushT, &None, "x").unwrap()[1], "lerobot/pusht");
    assert_eq!(
        download_args(DatasetArg::LeRobotPushTImage, &None, "x").unwrap()[1],
        "lerobot/pusht_image"
    );
    let openvid = download_args(DatasetArg::OpenVid, &None, "x").unwrap();
    assert_eq!(openvid[1], "nkp37/OpenVid-1M");
    assert_eq!(openvid[2], "data/train/OpenVid-1M.csv");
    assert_eq!(openvid.last().unwrap(), "x/_raw");
    assert_eq!(download_dir(DatasetArg::FineWeb, "x"), "x");
    assert_eq!(openvid_rows(&None), 1_000_000);
    assert_eq!(openvid_rows(&some("12")), 12);
    assert_eq!(openvid_rows(&some("a")), 1_000_000);
    assert_eq!(download_settings()[1], ("HF_HUB_DOWNLOAD_TIMEOUT", "600"));
}

#[test]
fn shard_names_grow_beyond_five_digits() {
    let args = download_args(DatasetArg::Laion10m, &some("100001"), "x").unwrap();
    assert_eq!(args[3 + 99_999], "99999.tar");
    assert_eq!(args[3 + 100_000], "100000.tar");
}

#[test]
fn arguments_have_names() {
    assert_eq!(EngineName::from(EngineArg::LanceFragment), EngineName::LanceFragment);
    assert_eq!(EngineName::from(EngineArg::Parquet), EngineName::Parquet);
    assert_eq!(DatasetName::from(DatasetArg::LeRobotPushT), DatasetName::LeRobotPushT);
    assert_eq!(DatasetArg::LeRobotPushTImage.id(), "lerobot-pusht_image");
    assert_eq!(DatasetArg::Laion10m.default_out_dir(), "data/laion10m");
    assert_eq!(scan_workload(ScanModeArg::FilterHigh), Workload::ScanFilterHigh);
    assert_eq!(write_mode_name(LanceWriteModeArg::Overwrite), "overwrite");
    assert_eq!(blob_columns(DatasetName::Laion10m), vec!["image"]);
    assert_eq!(blob_columns(DatasetName::OpenVid), vec!["video_blob"]);
    assert!(blob_columns(DatasetName::FineWeb).is_empty());
}

#[test]
fn thresholds_fall() {
    assert_eq!(selectivity_threshold_u64(0), u64::MAX);
    assert_eq!(selectivity_threshold_u64(1), u64::MAX);
    assert_eq!(selectivity_threshold_u64(2), 9223372036854775807);
    assert_eq!(selectivity_threshold_u64(100), 184467440737095516);
    assert_eq!(scan_threshold(ScanModeArg::FilterLow), Some(184467440737095516));
    assert_eq!(scan_threshold(ScanModeArg::Project), None);
}

#[test]
fn scans_read_columns() {
    assert_eq!(parse_projection(&None), None);
    assert_eq!(parse_projection(&some(" a,,b ")), Some(strings(&["a", "b"])));
    assert_eq!(parse_projection(&some("")), Some(strings(&[])));
    assert_eq!(scan_columns(ScanModeArg::Full, &None), ScanColumns::AllButBlobs);
    assert_eq!(
        scan_columns(ScanModeArg::Full, &some("a")),
        ScanColumns::These(strings(&["a"]))
    );
    assert_eq!(
        scan_columns(ScanModeArg::FilterLow, &None),
        ScanColumns::These(strings(&["bench_small_u64"]))
    );
    assert_eq!(take_columns(&None), strings(&["bench_small_u64"]));
    assert_eq!(take_columns(&some("x,y")), strings(&["x", "y"]));
    assert_eq!(
        full_projection(DatasetName::Laion10m, &strings(&["key", "image", "caption", "image"])),
        strings(&["key", "caption"])
    );
    assert_eq!(
        full_projection(DatasetName::FineWeb, &strings(&["image", "text"])),
        strings(&["image", "text"])
    );
}

#[test]
fn filter_column_is_read() {
    let filter = scan_filter(ScanModeArg::FilterHigh).unwrap();
    assert_eq!(filter, Filter::lt_u64("bench_small_u64".to_string(), 9223372036854775807));
    assert_eq!(filter.sql_text(), "bench_small_u64 < 9223372036854775807");
    assert_eq!(scan_filter(ScanModeArg::Full), None);
    let columns = match scan_columns(ScanModeArg::FilterHigh, &None) {
        ScanColumns::These(columns) => columns,
        ScanColumns::AllButBlobs => unreachable!(),
    };
    assert!(check_fragment_filter(&Some(filter), &Some(columns)).is_ok());
}

#[test]
fn fragment_filters_need_their_column() {
    let filter = Some(Filter::lt_u64("x".to_string(), 1));
    assert!(check_fragment_filter(&filter, &None).is_ok());
    assert!(check_fragment_filter(&None, &Some(strings(&["y"]))).is_ok());
    assert!(check_fragment_filter(&filter, &Some(strings(&["y", "x"]))).is_ok());
    let error = check_fragment_filter(&filter, &Some(strings(&["y"]))).unwrap_err();
    assert!(matches!(&error, FragmentScanError::FilterColumnNotProjected(c) if c == "x"));
    assert_eq!(error.message(), "projection must include filter column x");
}

#[test]
fn partitions_are_read() {
    assert_eq!(bench_target_partition(&None), Some(1));
    assert_eq!(bench_target_partition(&some("0")), None);
    assert_eq!(bench_target_partition(&some("8")), Some(8));
    assert_eq!(bench_target_partition(&some("eight")), Some(1));
    let _engine = LanceEngine::new();
    assert_eq!(FILE_SCAN_BATCH_SIZE, 8192);
}

#[test]
fn ingest_options_are_chosen() {
    let default = IngestOptions::default();
    assert!(default.max_rows_per_file.is_none() && default.index_columns.is_empty());
    let web = ingest_options(DatasetArg::FineWeb, None, None, &some("2.1"), None, &None);
    assert_eq!(web.max_rows_per_file, Some(usize::MAX));
    assert_eq!(web.max_bytes_per_file, Some(usize::MAX));
    assert_eq!(web.data_storage_version, some("2.1"));
    let limited = ingest_options(
        DatasetArg::FineWeb,
        Some(7),
        None,
        &None,
        Some(LanceWriteModeArg::Append),
        &some("a, b"),
    );
    assert_eq!(limited.max_rows_per_file, Some(7));
    assert_eq!(limited.max_bytes_per_file, None);
    assert_eq!(limited.write_mode, some("append"));
    assert_eq!(limited.index_columns, strings(&["a", "b"]));
    let other = ingest_options(DatasetArg::OpenVid, None, Some(9), &None, None, &None);
    assert_eq!(other.max_rows_per_file, None);
    assert_eq!(other.max_bytes_per_file, Some(9));
}

#[test]
fn indices_are_planned_once() {
    let columns = strings(&["a", "b", "c"]);
    let fields = strings(&["a", "b", "c", "d"]);
    assert_eq!(index_name("a"), "a_btree");
    let plan = plan_indices(&columns, &fields, &strings(&["b_btree"]));
    assert_eq!(plan, IndexPlan { columns: strings(&["a", "c"]), missing: None });
    let after = strings(&["b_btree", "a_btree", "c_btree"]);
    assert_eq!(
        plan_indices(&columns, &fields, &after),
        IndexPlan { columns: strings(&[]), missing: None }
    );
    let stopped = plan_indices(&strings(&["a", "x", "b"]), &fields, &strings(&[]));
    assert_eq!(stopped, IndexPlan { columns: strings(&["a"]), missing: some("x") });
    assert_eq!(
        IndexError::MissingColumn("x".to_string()).message(),
        "index column not found in schema: x"
    );
}

#[test]
fn scan_windows_are_capped() {
    assert_eq!(scan_window(None, None), None);
    assert_eq!(scan_window(Some(5), None), Some((Some(5), None)));
    assert_eq!(
        scan_window(Some(u64::MAX), Some(i64::MAX as u64)),
        Some((Some(i64::MAX), Some(i64::MAX)))
    );
}

#[test]
fn fragments_are_ordered_by_id() {
    assert_eq!(fragment_order(&vec![3, 1, 2, 1]), vec![1, 3, 2, 0]);
    assert_eq!(fragment_order(&vec![1, 2, 3]), vec![0, 1, 2]);
    assert_eq!(fragment_order(&vec![]), Vec::<usize>::new());
}

#[test]
fn empty_scans_take_no_time() {
    let (timing, latency) = empty_scan(3);
    assert_eq!(timing.repeat_wall_time_us, Some(vec![0, 0, 0]));
    assert_eq!(timing.wall_time_ms, 0);
    assert_eq!(latency.p99_us, 0);
    assert_eq!(empty_scan(0).0.repeat_wall_time_us, Some(vec![0]));
}

#[test]
fn blob_cells_are_told_apart() {
    assert_eq!(blob_cell(None), BlobCell::Null);
    assert_eq!(blob_cell(Some(0)), BlobCell::Empty);
    assert_eq!(blob_cell(Some(1)), BlobCell::Bytes);
}

#[test]
fn samples_are_wall_times() {
    assert_eq!(latency_sample(Duration::from_nanos(1999)), 1);
    assert_eq!(latency_sample(Duration::MAX), u64::MAX);
    let meter = RepeatMeter::new().unwrap();
    let meter = meter.record(Duration::from_micros(1500)).unwrap();
    let meter = meter.record(Duration::from_nanos(2_000_999)).unwrap();
    let measured = meter.finish(Timing::from_duration(Duration::from_micros(4_567)));
    assert_eq!(measured.timing.wall_time_us, 4567);
    assert_eq!(measured.timing.wall_time_ms, 4);
    assert_eq!(measured.timing.repeat_wall_time_us, Some(vec![1500, 2000]));
    let histogram = &measured.latencies.histogram().inner;
    assert_eq!(histogram.len(), 2);
    assert_eq!(histogram.min(), 1500);
    assert_eq!(histogram.max(), histogram.highest_equivalent(2000));
    assert!(measured.latencies.any());
}

#[test]
fn histograms_take_every_value() {
    let latencies = Latencies::new().unwrap();
    assert!(!latencies.any());
    let latencies = latencies.record(Duration::MAX).unwrap();
    let latencies = latencies.record(Duration::ZERO).unwrap();
    assert!(latencies.any());
    assert_eq!(latencies.histogram().inner.len(), 2);
    assert_eq!(latencies.histogram().inner.max(), u64::MAX);
}

#[test]
fn counts_add_up() {
    assert_eq!(at_least_one(0), 1);
    assert_eq!(at_least_one(4), 4);
    let mut scan = ScanCount::new();
    scan.add_batch(3, u64::MAX - 1);
    scan.add_batch(4, 5);
    assert_eq!((scan.rows, scan.bytes), (7, u64::MAX));
    let mut all = ScanCount::new();
    all.add_scan(scan);
    assert_eq!(all, scan);
    all.pass_batch(1, 2);
    assert_eq!((all.rows, all.bytes), (8, 1));
}

#[test]
fn repeats_multiply_the_counts() {
    for (repeats, times) in [(0, 1), (1, 1), (5, 5)] {
        let mut batch_by_batch = ScanCount::new();
        let mut scan_by_scan = ScanCount::new();
        for _ in 0..at_least_one(repeats) {
            let mut scan = ScanCount::new();
            for (rows, bytes) in [(3, 30), (4, 50)] {
                batch_by_batch.add_batch(rows, bytes);
                scan.add_batch(rows, bytes);
            }
            scan_by_scan.add_scan(scan);
        }
        assert_eq!((scan_by_scan.rows, scan_by_scan.bytes), (7 * times, 80 * times));
        assert_eq!(batch_by_batch, scan_by_scan);
    }
}

#[test]
fn random_reads_are_tallied() {
    let (bytes, latencies) = RandomTally::new().unwrap().finish();
    assert_eq!(bytes, 0);
    assert!(latencies.is_none());
    let tally = RandomTally::new().unwrap();
    let tally = tally.record(Duration::from_micros(7), 40).unwrap();
    let tally = tally.record(Duration::from_micros(9), 2).unwrap();
    assert_eq!(tally.bytes, 42);
    let tally = tally.record(Duration::from_micros(8), u64::MAX).unwrap();
    let (bytes, latencies) = tally.finish();
    assert_eq!(bytes, u64::MAX);
    let latencies = latencies.unwrap();
    assert_eq!(latencies.histogram().inner.len(), 3);
    assert_eq!(latencies.histogram().inner.max(), 9);
    assert_eq!(latencies.histogram().inner.min(), 7);
}

#[test]
fn rows_are_picked_within_bounds() {
    let mut picker = RowPicker::new(42, 7);
    let mut seen = [false; 7];
    for _ in 0..500 {
        seen[picker.next_row() as usize] = true;
    }
    assert_eq!(seen, [true; 7]);
    let picks = |seed: u64, row_count: u64| {
        let mut picker = RowPicker::new(seed, row_count);
        (0..20).map(|_| picker.next_row()).collect::<Vec<u64>>()
    };
    assert_eq!(picks(42, 1_000_000), picks(42, 1_000_000));
    assert_ne!(picks(42, 1_000_000), picks(43, 1_000_000));
    let mut empty = RowPicker::new(1, 0);
    for _ in 0..10 {
        assert_eq!(empty.next_row(), 0);
    }
}

#[test]
fn timings_cut_to_whole_units() {
    let timing = Timing::from_duration(Duration::from_nanos(1_999_999));
    assert_eq!(timing.wall_time_us, 1999);
    assert_eq!(timing.wall_time_ms, 1);
    assert_eq!(timing.repeat_wall_time_us, None);
    let timer = WallTimer::start();
    let timing = timer.stop();
    assert_eq!(timing.wall_time_ms, timing.wall_time_us / 1000);
}
