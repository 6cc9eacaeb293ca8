//! The benchmark suite: which runs it makes, in what order, and where their results go.
use vstd::prelude::*;

use crate::args::{
    blob_column_of, blob_columns, dataset_id, dataset_named, scan_workload, scan_workload_of,
    DatasetArg, EngineArg, ScanModeArg,
};
use crate::numbers::{decimal, opt_decimal, opt_u64_text, u64_text, usize_text};
use crate::params::{put_opt, Params};
use crate::paths::{join_path, path_join};
use crate::text::{clone_opt, list_items, opt_view, parse_list, replace_char, replaced, views};
use crate::workload::{DatasetName, Workload};

verus! {

/// Why a command cannot be run.
#[derive(Debug, Clone, Copy, PartialEq, Eq, Structural)]
pub enum ListError {
    NoVersions,
}

impl ListError {
    /// The message for the user.
    pub fn message(&self) -> (text: &'static str)
        ensures
            text@ == "version list must not be empty"@,
    {
        "version list must not be empty"
    }
}

/// Reads a list of file versions. An empty list is an error.
pub fn parse_versions_csv(input: &str) -> (versions: Result<Vec<String>, ListError>)
    ensures
        match versions {
            Ok(v) => views(v@) == list_items(input@) && v.len() > 0,
            Err(e) => e == ListError::NoVersions && list_items(input@).len() == 0,
        },
{
    let versions = parse_list(input);
    assert(views(versions@).len() == versions@.len());
    if versions.len() == 0 {
        Err(ListError::NoVersions)
    } else {
        Ok(versions)
    }
}

/// How many rows the suite takes of a dataset, unless the user says otherwise.
pub open spec fn suite_limit(dataset: DatasetArg, limit: Option<u64>) -> Option<u64> {
    if limit is Some {
        limit
    } else {
        match dataset {
            DatasetArg::FineWeb => Some(10_000_000),
            DatasetArg::OpenVid => Some(1_000_000),
            DatasetArg::Laion10m => Some(200_000),
            DatasetArg::LeRobotPushT | DatasetArg::LeRobotPushTImage => None,
        }
    }
}

/// How many rows the suite takes of a dataset.
pub fn default_suite_limit_rows(dataset: DatasetArg, override_limit_rows: Option<u64>) -> (limit:
    Option<u64>)
    ensures
        limit == suite_limit(dataset, override_limit_rows),
{
    if override_limit_rows.is_some() {
        return override_limit_rows;
    }
    match dataset {
        DatasetArg::FineWeb => Some(10_000_000),
        DatasetArg::OpenVid => Some(1_000_000),
        DatasetArg::Laion10m => Some(200_000),
        DatasetArg::LeRobotPushT | DatasetArg::LeRobotPushTImage => None,
    }
}

/// The datasets of a suite: the chosen ones, or all.
pub open spec fn suite_datasets(chosen: Seq<DatasetArg>) -> Seq<DatasetArg> {
    if chosen.len() == 0 {
        seq![
            DatasetArg::FineWeb,
            DatasetArg::OpenVid,
            DatasetArg::Laion10m,
            DatasetArg::LeRobotPushT,
            DatasetArg::LeRobotPushTImage,
        ]
    } else {
        chosen
    }
}

/// The datasets of a suite.
pub fn datasets_or_all(chosen: Vec<DatasetArg>) -> (datasets: Vec<DatasetArg>)
    ensures
        datasets@ == suite_datasets(chosen@),
{
    if chosen.len() == 0 {
        let all = vec![
            DatasetArg::FineWeb,
            DatasetArg::OpenVid,
            DatasetArg::Laion10m,
            DatasetArg::LeRobotPushT,
            DatasetArg::LeRobotPushTImage,
        ];
        assert(all@ =~= suite_datasets(chosen@));
        all
    } else {
        chosen
    }
}

/// What a suite is run with.
#[derive(Debug)]
pub struct SuiteConfig {
    pub data_dir: String,
    pub out_root: String,
    pub run_id: String,
    pub datasets: Vec<DatasetArg>,
    pub versions: Vec<String>,
    pub batch_size: usize,
    pub limit_rows: Option<u64>,
    pub scan_repeats: u32,
    pub take_iters: u64,
    pub blob_iters: u64,
    pub evolve_new_column: String,
    pub evolve_expr: Option<String>,
}

/// What a run of the suite does.
#[derive(Debug)]
pub enum SuiteOp {
    Ingest {
        input: String,
        out: String,
        batch_size: usize,
        limit_rows: Option<u64>,
        version: Option<String>,
    },
    Size { path: String },
    Scan { path: String, mode: ScanModeArg, repeats: u32 },
    Take { path: String, iters: u64 },
    Blob { path: String, column: String, iters: u64 },
    Evolve { path: String, new_column: String, rewrite_out: Option<String>, expr: Option<String> },
}

/// A run of the suite: what it does, where its result goes, and the parameters to record should
/// it fail.
#[derive(Debug)]
pub struct SuiteCase {
    pub engine: EngineArg,
    pub dataset: DatasetArg,
    pub workload: Workload,
    pub params: Params,
    pub result_out: String,
    pub op: SuiteOp,
}

/// The contents of a [`SuiteOp`].
#[verifier::ext_equal]
pub enum PlannedOp {
    Ingest {
        input: Seq<char>,
        out: Seq<char>,
        batch_size: usize,
        limit_rows: Option<u64>,
        version: Option<Seq<char>>,
    },
    Size { path: Seq<char> },
    Scan { path: Seq<char>, mode: ScanModeArg, repeats: u32 },
    Take { path: Seq<char>, iters: u64 },
    Blob { path: Seq<char>, column: Seq<char>, iters: u64 },
    Evolve {
        path: Seq<char>,
        new_column: Seq<char>,
        rewrite_out: Option<Seq<char>>,
        expr: Option<Seq<char>>,
    },
}

/// The contents of a [`SuiteCase`].
#[verifier::ext_equal]
pub struct PlannedCase {
    pub engine: EngineArg,
    pub dataset: DatasetArg,
    pub workload: Workload,
    pub params: Map<Seq<char>, Seq<char>>,
    pub result_out: Seq<char>,
    pub op: PlannedOp,
}

impl View for SuiteOp {
    type V = PlannedOp;

    open spec fn view(&self) -> PlannedOp {
        match self {
            SuiteOp::Ingest { input, out, batch_size, limit_rows, version } => PlannedOp::Ingest {
                input: input@,
                out: out@,
                batch_size: *batch_size,
                limit_rows: *limit_rows,
                version: opt_view(*version),
            },
            SuiteOp::Size { path } => PlannedOp::Size { path: path@ },
            SuiteOp::Scan { path, mode, repeats } => PlannedOp::Scan {
                path: path@,
                mode: *mode,
                repeats: *repeats,
            },
            SuiteOp::Take { path, iters } => PlannedOp::Take { path: path@, iters: *iters },
            SuiteOp::Blob { path, column, iters } => PlannedOp::Blob {
                path: path@,
                column: column@,
                iters: *iters,
            },
            SuiteOp::Evolve { path, new_column, rewrite_out, expr } => PlannedOp::Evolve {
                path: path@,
                new_column: new_column@,
                rewrite_out: opt_view(*rewrite_out),
                expr: opt_view(*expr),
            },
        }
    }
}

impl View for SuiteCase {
    type V = PlannedCase;

    open spec fn view(&self) -> PlannedCase {
        PlannedCase {
            engine: self.engine,
            dataset: self.dataset,
            workload: self.workload,
            params: self.params@,
            result_out: self.result_out@,
            op: self.op@,
        }
    }
}

/// The contents of a list of runs.
pub open spec fn plan_view(cases: Seq<SuiteCase>) -> Seq<PlannedCase> {
    Seq::new(cases.len(), |i: int| cases[i]@)
}

// ---------------------------------------------------------------------------
// Names. A run is of Parquet, or of Lance in some file version.
// ---------------------------------------------------------------------------

/// The engine that stores a version.
pub open spec fn engine_for(version: Option<Seq<char>>) -> EngineArg {
    match version {
        Some(_) => EngineArg::Lance,
        None => EngineArg::Parquet,
    }
}

/// The engine and version as part of a file name.
pub open spec fn engine_tag(version: Option<Seq<char>>) -> Seq<char> {
    match version {
        Some(v) => "lance.v"@ + replaced(v, '.', '_'),
        None => "parquet"@,
    }
}

impl SuiteConfig {
    /// The directory of the run.
    pub open spec fn run_root(self) -> Seq<char> {
        path_join(path_join(self.out_root@, "runs"@), self.run_id@)
    }

    /// The stored dataset of an engine and version.
    pub open spec fn data_path(self, dataset: DatasetArg, version: Option<Seq<char>>) -> Seq<char> {
        path_join(
            path_join(path_join(self.run_root(), "datasets"@), dataset_id(dataset)),
            dataset_id(dataset) + "."@ + engine_tag(version),
        )
    }

    /// The result file of a workload.
    pub open spec fn result_path(
        self,
        kind: Seq<char>,
        dataset: DatasetArg,
        version: Option<Seq<char>>,
    ) -> Seq<char> {
        path_join(
            path_join(self.run_root(), "json"@),
            kind + "."@ + dataset_id(dataset) + "."@ + engine_tag(version) + ".json"@,
        )
    }

    /// The file that a rewrite goes to; only Parquet rewrites.
    pub open spec fn rewrite_path(self, dataset: DatasetArg, version: Option<Seq<char>>) -> Option<
        Seq<char>,
    > {
        match version {
            Some(_) => None,
            None => Some(
                path_join(
                    path_join(self.run_root(), "tmp"@),
                    dataset_id(dataset) + "."@ + engine_tag(version) + ".evolved.parquet"@,
                ),
            ),
        }
    }

    /// The directory of the run.
    pub fn run_dir(&self) -> (dir: String)
        ensures
            dir@ == self.run_root(),
    {
        let runs = join_path(self.out_root.as_str(), "runs");
        join_path(runs.as_str(), self.run_id.as_str())
    }

    /// The directories that a suite needs: for datasets, results, plots and rewritten files.
    pub fn dirs(&self) -> (dirs: Vec<String>)
        ensures
            views(dirs@) == seq![
                path_join(self.run_root(), "datasets"@),
                path_join(self.run_root(), "json"@),
                path_join(self.run_root(), "plots"@),
                path_join(self.run_root(), "tmp"@),
            ],
    {
        let root = self.run_dir();
        let dirs = vec![
            join_path(root.as_str(), "datasets"),
            join_path(root.as_str(), "json"),
            join_path(root.as_str(), "plots"),
            join_path(root.as_str(), "tmp"),
        ];
        assert(views(dirs@) =~= seq![
            path_join(self.run_root(), "datasets"@),
            path_join(self.run_root(), "json"@),
            path_join(self.run_root(), "plots"@),
            path_join(self.run_root(), "tmp"@),
        ]);
        dirs
    }

    /// The report that ends a suite.
    pub fn report_path(&self) -> (path: String)
        ensures
            path@ == path_join(self.run_root(), "REPORT.md"@),
    {
        let root = self.run_dir();
        join_path(root.as_str(), "REPORT.md")
    }
}

// ---------------------------------------------------------------------------
// The runs.
// ---------------------------------------------------------------------------

/// The name of a scan in file names.
pub open spec fn scan_kind(mode: ScanModeArg) -> Seq<char> {
    match mode {
        ScanModeArg::Full => "scan-full"@,
        ScanModeArg::Project => "scan-project"@,
        ScanModeArg::FilterLow => "scan-filter-low"@,
        ScanModeArg::FilterHigh => "scan-filter-high"@,
    }
}

/// The predicate of a scan, as the suite records it.
pub open spec fn suite_filter(mode: ScanModeArg) -> Option<Seq<char>> {
    match mode {
        ScanModeArg::FilterLow => Some("bench_small_u64 < 184467440737095516"@),
        ScanModeArg::FilterHigh => Some("bench_small_u64 < 9223372036854775807"@),
        _ => None,
    }
}

/// The ingest of a dataset.
pub open spec fn ingest_case(
    cfg: SuiteConfig,
    dataset: DatasetArg,
    version: Option<Seq<char>>,
) -> PlannedCase {
    let input = path_join(cfg.data_dir@, dataset_id(dataset));
    let out = cfg.data_path(dataset, version);
    let limit = suite_limit(dataset, cfg.limit_rows);
    let base = Map::<Seq<char>, Seq<char>>::empty().insert("input"@, input).insert(
        "dataset_out"@,
        out,
    ).insert("batch_size"@, decimal(cfg.batch_size as nat));
    PlannedCase {
        engine: engine_for(version),
        dataset,
        workload: Workload::Ingest,
        params: put_opt(
            put_opt(
                put_opt(base, "lance_file_version_requested"@, version),
                "lance_file_version"@,
                version,
            ),
            "limit_rows"@,
            opt_decimal(limit),
        ),
        result_out: cfg.result_path("ingest"@, dataset, version),
        op: PlannedOp::Ingest {
            input,
            out,
            batch_size: cfg.batch_size,
            limit_rows: limit,
            version,
        },
    }
}

/// The size measurement of a dataset.
pub open spec fn size_case(
    cfg: SuiteConfig,
    dataset: DatasetArg,
    version: Option<Seq<char>>,
) -> PlannedCase {
    let path = cfg.data_path(dataset, version);
    PlannedCase {
        engine: engine_for(version),
        dataset,
        workload: Workload::Size,
        params: put_opt(
            Map::<Seq<char>, Seq<char>>::empty().insert("path"@, path),
            "lance_file_version"@,
            version,
        ),
        result_out: cfg.result_path("size"@, dataset, version),
        op: PlannedOp::Size { path },
    }
}

/// A scan of a dataset.
pub open spec fn scan_case(
    cfg: SuiteConfig,
    dataset: DatasetArg,
    version: Option<Seq<char>>,
    mode: ScanModeArg,
) -> PlannedCase {
    let path = cfg.data_path(dataset, version);
    let base = Map::<Seq<char>, Seq<char>>::empty().insert("path"@, path).insert(
        "repeats"@,
        decimal(cfg.scan_repeats as nat),
    );
    PlannedCase {
        engine: engine_for(version),
        dataset,
        workload: scan_workload_of(mode),
        params: put_opt(
            put_opt(base, "lance_file_version"@, version),
            "filter"@,
            suite_filter(mode),
        ),
        result_out: cfg.result_path(scan_kind(mode), dataset, version),
        op: PlannedOp::Scan { path, mode, repeats: cfg.scan_repeats },
    }
}

/// The random row access to a dataset.
pub open spec fn take_case(
    cfg: SuiteConfig,
    dataset: DatasetArg,
    version: Option<Seq<char>>,
) -> PlannedCase {
    let path = cfg.data_path(dataset, version);
    let base = Map::<Seq<char>, Seq<char>>::empty().insert("path"@, path).insert(
        "iters"@,
        decimal(cfg.take_iters as nat),
    );
    PlannedCase {
        engine: engine_for(version),
        dataset,
        workload: Workload::RandomTake,
        params: put_opt(base, "lance_file_version"@, version),
        result_out: cfg.result_path("take"@, dataset, version),
        op: PlannedOp::Take { path, iters: cfg.take_iters },
    }
}

/// The random blob access to a dataset.
pub open spec fn blob_case(
    cfg: SuiteConfig,
    dataset: DatasetArg,
    version: Option<Seq<char>>,
    column: Seq<char>,
) -> PlannedCase {
    let path = cfg.data_path(dataset, version);
    let base = Map::<Seq<char>, Seq<char>>::empty().insert("path"@, path).insert(
        "iters"@,
        decimal(cfg.blob_iters as nat),
    ).insert("column"@, column);
    PlannedCase {
        engine: engine_for(version),
        dataset,
        workload: Workload::RandomBlob,
        params: put_opt(base, "lance_file_version"@, version),
        result_out: cfg.result_path("blob"@, dataset, version),
        op: PlannedOp::Blob { path, column, iters: cfg.blob_iters },
    }
}

/// The schema evolution of a dataset.
pub open spec fn evolve_case(
    cfg: SuiteConfig,
    dataset: DatasetArg,
    version: Option<Seq<char>>,
) -> PlannedCase {
    let path = cfg.data_path(dataset, version);
    let expr = opt_view(cfg.evolve_expr);
    let out = cfg.rewrite_path(dataset, version);
    let base = Map::<Seq<char>, Seq<char>>::empty().insert("path"@, path).insert(
        "new_column"@,
        cfg.evolve_new_column@,
    );
    PlannedCase {
        engine: engine_for(version),
        dataset,
        workload: Workload::EvolutionBackfill,
        params: put_opt(
            put_opt(put_opt(base, "lance_file_version"@, version), "expr"@, expr),
            "rewrite_out"@,
            out,
        ),
        result_out: cfg.result_path("evolve"@, dataset, version),
        op: PlannedOp::Evolve { path, new_column: cfg.evolve_new_column@, rewrite_out: out, expr },
    }
}

/// The runs that read a stored dataset: the scans, row access, blob access where the dataset has
/// blobs, and last the schema evolution.
pub open spec fn reading_cases(
    cfg: SuiteConfig,
    dataset: DatasetArg,
    version: Option<Seq<char>>,
) -> Seq<PlannedCase> {
    seq![
        scan_case(cfg, dataset, version, ScanModeArg::Full),
        scan_case(cfg, dataset, version, ScanModeArg::Project),
        scan_case(cfg, dataset, version, ScanModeArg::FilterLow),
        scan_case(cfg, dataset, version, ScanModeArg::FilterHigh),
        take_case(cfg, dataset, version),
    ] + match blob_column_of(dataset_named(dataset)) {
        Some(column) => seq![blob_case(cfg, dataset, version, column)],
        None => Seq::<PlannedCase>::empty(),
    } + seq![evolve_case(cfg, dataset, version)]
}

/// The ingests of a dataset in some file versions.
pub open spec fn ingest_cases(
    cfg: SuiteConfig,
    dataset: DatasetArg,
    versions: Seq<Seq<char>>,
) -> Seq<PlannedCase> {
    Seq::new(versions.len(), |i: int| ingest_case(cfg, dataset, Some(versions[i])))
}

/// The size measurements of a dataset in some file versions.
pub open spec fn size_cases(
    cfg: SuiteConfig,
    dataset: DatasetArg,
    versions: Seq<Seq<char>>,
) -> Seq<PlannedCase> {
    Seq::new(versions.len(), |i: int| size_case(cfg, dataset, Some(versions[i])))
}

/// The reading runs of a dataset in some file versions.
pub open spec fn all_reading_cases(
    cfg: SuiteConfig,
    dataset: DatasetArg,
    versions: Seq<Seq<char>>,
) -> Seq<PlannedCase>
    decreases versions.len(),
{
    if versions.len() == 0 {
        Seq::empty()
    } else {
        all_reading_cases(cfg, dataset, versions.drop_last()) + reading_cases(
            cfg,
            dataset,
            Some(versions.last()),
        )
    }
}

/// The runs of a dataset: all ingests, then all sizes, then what reads the stored data; Parquet
/// before Lance, and Lance by version.
pub open spec fn dataset_plan(cfg: SuiteConfig, dataset: DatasetArg) -> Seq<PlannedCase> {
    let versions = views(cfg.versions@);
    seq![ingest_case(cfg, dataset, None)] + ingest_cases(cfg, dataset, versions) + seq![
        size_case(cfg, dataset, None),
    ] + size_cases(cfg, dataset, versions) + reading_cases(cfg, dataset, None) + all_reading_cases(
        cfg,
        dataset,
        versions,
    )
}

/// The runs of some datasets.
pub open spec fn suite_plan(cfg: SuiteConfig, datasets: Seq<DatasetArg>) -> Seq<PlannedCase>
    decreases datasets.len(),
{
    if datasets.len() == 0 {
        Seq::empty()
    } else {
        suite_plan(cfg, datasets.drop_last()) + dataset_plan(cfg, datasets.last())
    }
}

// ---------------------------------------------------------------------------
// Making the plan.
// ---------------------------------------------------------------------------

fn make_engine(version: &Option<String>) -> (engine: EngineArg)
    ensures
        engine == engine_for(opt_view(*version)),
{
    match version {
        Some(_) => EngineArg::Lance,
        None => EngineArg::Parquet,
    }
}

fn make_tag(version: &Option<String>) -> (tag: String)
    ensures
        tag@ == engine_tag(opt_view(*version)),
{
    match version {
        Some(v) => {
            let mut tag = "lance.v".to_owned();
            tag.append(replace_char(v.as_str(), '.', '_').as_str());
            tag
        },
        None => "parquet".to_owned(),
    }
}

fn make_data_path(cfg: &SuiteConfig, dataset: DatasetArg, version: &Option<String>) -> (path: String)
    ensures
        path@ == cfg.data_path(dataset, opt_view(*version)),
{
    let root = cfg.run_dir();
    let datasets = join_path(root.as_str(), "datasets");
    let dir = join_path(datasets.as_str(), dataset.id());
    let mut name = dataset.id().to_owned();
    name.append(".");
    name.append(make_tag(version).as_str());
    join_path(dir.as_str(), name.as_str())
}

fn make_result_path(
    cfg: &SuiteConfig,
    kind: &str,
    dataset: DatasetArg,
    version: &Option<String>,
) -> (path: String)
    ensures
        path@ == cfg.result_path(kind@, dataset, opt_view(*version)),
{
    let root = cfg.run_dir();
    let json = join_path(root.as_str(), "json");
    let mut name = kind.to_owned();
    name.append(".");
    name.append(dataset.id());
    name.append(".");
    name.append(make_tag(version).as_str());
    name.append(".json");
    join_path(json.as_str(), name.as_str())
}

fn make_rewrite_path(cfg: &SuiteConfig, dataset: DatasetArg, version: &Option<String>) -> (path:
    Option<String>)
    ensures
        opt_view(path) == cfg.rewrite_path(dataset, opt_view(*version)),
{
    match version {
        Some(_) => None,
        None => {
            let root = cfg.run_dir();
            let tmp = join_path(root.as_str(), "tmp");
            let mut name = dataset.id().to_owned();
            name.append(".");
            name.append(make_tag(version).as_str());
            name.append(".evolved.parquet");
            Some(join_path(tmp.as_str(), name.as_str()))
        },
    }
}

fn make_ingest(cfg: &SuiteConfig, dataset: DatasetArg, version: &Option<String>) -> (case: SuiteCase)
    ensures
        case@ == ingest_case(*cfg, dataset, opt_view(*version)),
{
    let input = join_path(cfg.data_dir.as_str(), dataset.id());
    let out = make_data_path(cfg, dataset, version);
    let limit_rows = default_suite_limit_rows(dataset, cfg.limit_rows);
    let mut params = Params::new();
    params.insert("input", input.clone());
    params.insert("dataset_out", out.clone());
    params.insert("batch_size", usize_text(cfg.batch_size));
    params.insert_opt("lance_file_version_requested", clone_opt(version));
    params.insert_opt("lance_file_version", clone_opt(version));
    params.insert_opt("limit_rows", opt_u64_text(limit_rows));
    SuiteCase {
        engine: make_engine(version),
        dataset,
        workload: Workload::Ingest,
        params,
        result_out: make_result_path(cfg, "ingest", dataset, version),
        op: SuiteOp::Ingest {
            input,
            out,
            batch_size: cfg.batch_size,
            limit_rows,
            version: clone_opt(version),
        },
    }
}

fn make_size(cfg: &SuiteConfig, dataset: DatasetArg, version: &Option<String>) -> (case: SuiteCase)
    ensures
        case@ == size_case(*cfg, dataset, opt_view(*version)),
{
    let path = make_data_path(cfg, dataset, version);
    let mut params = Params::new();
    params.insert("path", path.clone());
    params.insert_opt("lance_file_version", clone_opt(version));
    SuiteCase {
        engine: make_engine(version),
        dataset,
        workload: Workload::Size,
        params,
        result_out: make_result_path(cfg, "size", dataset, version),
        op: SuiteOp::Size { path },
    }
}

fn make_scan(
    cfg: &SuiteConfig,
    dataset: DatasetArg,
    version: &Option<String>,
    mode: ScanModeArg,
) -> (case: SuiteCase)
    ensures
        case@ == scan_case(*cfg, dataset, opt_view(*version), mode),
{
    let path = make_data_path(cfg, dataset, version);
    let mut params = Params::new();
    params.insert("path", path.clone());
    params.insert("repeats", u64_text(cfg.scan_repeats as u64));
    params.insert_opt("lance_file_version", clone_opt(version));
    let kind = match mode {
        ScanModeArg::Full => "scan-full",
        ScanModeArg::Project => "scan-project",
        ScanModeArg::FilterLow => "scan-filter-low",
        ScanModeArg::FilterHigh => "scan-filter-high",
    };
    let filter = match mode {
        ScanModeArg::FilterLow => Some("bench_small_u64 < 184467440737095516".to_owned()),
        ScanModeArg::FilterHigh => Some("bench_small_u64 < 9223372036854775807".to_owned()),
        _ => None,
    };
    params.insert_opt("filter", filter);
    SuiteCase {
        engine: make_engine(version),
        dataset,
        workload: scan_workload(mode),
        params,
        result_out: make_result_path(cfg, kind, dataset, version),
        op: SuiteOp::Scan { path, mode, repeats: cfg.scan_repeats },
    }
}

fn make_take(cfg: &SuiteConfig, dataset: DatasetArg, version: &Option<String>) -> (case: SuiteCase)
    ensures
        case@ == take_case(*cfg, dataset, opt_view(*version)),
{
    let path = make_data_path(cfg, dataset, version);
    let mut params = Params::new();
    params.insert("path", path.clone());
    params.insert("iters", u64_text(cfg.take_iters));
    params.insert_opt("lance_file_version", clone_opt(version));
    SuiteCase {
        engine: make_engine(version),
        dataset,
        workload: Workload::RandomTake,
        params,
        result_out: make_result_path(cfg, "take", dataset, version),
        op: SuiteOp::Take { path, iters: cfg.take_iters },
    }
}

fn make_blob(
    cfg: &SuiteConfig,
    dataset: DatasetArg,
    version: &Option<String>,
    column: &str,
) -> (case: SuiteCase)
    ensures
        case@ == blob_case(*cfg, dataset, opt_view(*version), column@),
{
    let path = make_data_path(cfg, dataset, version);
    let mut params = Params::new();
    params.insert("path", path.clone());
    params.insert("iters", u64_text(cfg.blob_iters));
    params.insert("column", column.to_owned());
    params.insert_opt("lance_file_version", clone_opt(version));
    SuiteCase {
        engine: make_engine(version),
        dataset,
        workload: Workload::RandomBlob,
        params,
        result_out: make_result_path(cfg, "blob", dataset, version),
        op: SuiteOp::Blob { path, column: column.to_owned(), iters: cfg.blob_iters },
    }
}

fn make_evolve(cfg: &SuiteConfig, dataset: DatasetArg, version: &Option<String>) -> (case: SuiteCase)
    ensures
        case@ == evolve_case(*cfg, dataset, opt_view(*version)),
{
    let path = make_data_path(cfg, dataset, version);
    let out = make_rewrite_path(cfg, dataset, version);
    let mut params = Params::new();
    params.insert("path", path.clone());
    params.insert("new_column", cfg.evolve_new_column.clone());
    params.insert_opt("lance_file_version", clone_opt(version));
    params.insert_opt("expr", clone_opt(&cfg.evolve_expr));
    params.insert_opt("rewrite_out", clone_opt(&out));
    SuiteCase {
        engine: make_engine(version),
        dataset,
        workload: Workload::EvolutionBackfill,
        params,
        result_out: make_result_path(cfg, "evolve", dataset, version),
        op: SuiteOp::Evolve {
            path,
            new_column: cfg.evolve_new_column.clone(),
            rewrite_out: out,
            expr: clone_opt(&cfg.evolve_expr),
        },
    }
}

fn push_case(cases: &mut Vec<SuiteCase>, case: SuiteCase)
    ensures
        plan_view(final(cases)@) == plan_view(old(cases)@).push(case@),
{
    cases.push(case);
    assert(plan_view(cases@) =~= plan_view(old(cases)@).push(case@));
}

fn push_reading(
    cases: &mut Vec<SuiteCase>,
    cfg: &SuiteConfig,
    dataset: DatasetArg,
    version: &Option<String>,
)
    ensures
        plan_view(final(cases)@) == plan_view(old(cases)@) + reading_cases(
            *cfg,
            dataset,
            opt_view(*version),
        ),
{
    push_case(cases, make_scan(cfg, dataset, version, ScanModeArg::Full));
    push_case(cases, make_scan(cfg, dataset, version, ScanModeArg::Project));
    push_case(cases, make_scan(cfg, dataset, version, ScanModeArg::FilterLow));
    push_case(cases, make_scan(cfg, dataset, version, ScanModeArg::FilterHigh));
    push_case(cases, make_take(cfg, dataset, version));
    let columns = blob_columns(DatasetName::from(dataset));
    if columns.len() > 0 {
        push_case(cases, make_blob(cfg, dataset, version, columns[0]));
    }
    push_case(cases, make_evolve(cfg, dataset, version));
    assert(plan_view(cases@) =~= plan_view(old(cases)@) + reading_cases(
        *cfg,
        dataset,
        opt_view(*version),
    ));
}

fn push_dataset(cases: &mut Vec<SuiteCase>, cfg: &SuiteConfig, dataset: DatasetArg)
    ensures
        plan_view(final(cases)@) == plan_view(old(cases)@) + dataset_plan(*cfg, dataset),
{
    let ghost versions = views(cfg.versions@);
    let ghost start = plan_view(cases@);
    let none: Option<String> = None;
    push_case(cases, make_ingest(cfg, dataset, &none));
    let ghost first = seq![ingest_case(*cfg, dataset, None)];
    let mut i: usize = 0;
    assert(plan_view(cases@) =~= start + first + ingest_cases(*cfg, dataset, versions).take(0));
    while i < cfg.versions.len()
        invariant
            i <= cfg.versions.len(),
            versions == views(cfg.versions@),
            plan_view(cases@) == start + first + ingest_cases(*cfg, dataset, versions).take(
                i as int,
            ),
        decreases cfg.versions.len() - i,
    {
        let version = Some(cfg.versions[i].clone());
        push_case(cases, make_ingest(cfg, dataset, &version));
        i += 1;
        assert(plan_view(cases@) =~= start + first + ingest_cases(*cfg, dataset, versions).take(
            i as int,
        ));
    }
    push_case(cases, make_size(cfg, dataset, &none));
    let ghost second = first + ingest_cases(*cfg, dataset, versions) + seq![
        size_case(*cfg, dataset, None),
    ];
    let mut j: usize = 0;
    assert(plan_view(cases@) =~= start + second + size_cases(*cfg, dataset, versions).take(0));
    while j < cfg.versions.len()
        invariant
            j <= cfg.versions.len(),
            versions == views(cfg.versions@),
            plan_view(cases@) == start + second + size_cases(*cfg, dataset, versions).take(
                j as int,
            ),
        decreases cfg.versions.len() - j,
    {
        let version = Some(cfg.versions[j].clone());
        push_case(cases, make_size(cfg, dataset, &version));
        j += 1;
        assert(plan_view(cases@) =~= start + second + size_cases(*cfg, dataset, versions).take(
            j as int,
        ));
    }
    push_reading(cases, cfg, dataset, &none);
    let ghost third = second + size_cases(*cfg, dataset, versions) + reading_cases(
        *cfg,
        dataset,
        None,
    );
    let mut k: usize = 0;
    assert(versions.take(0) =~= Seq::<Seq<char>>::empty());
    assert(plan_view(cases@) =~= start + third + all_reading_cases(
        *cfg,
        dataset,
        versions.take(0),
    ));
    while k < cfg.versions.len()
        invariant
            k <= cfg.versions.len(),
            versions == views(cfg.versions@),
            plan_view(cases@) == start + third + all_reading_cases(
                *cfg,
                dataset,
                versions.take(k as int),
            ),
        decreases cfg.versions.len() - k,
    {
        let version = Some(cfg.versions[k].clone());
        assert(versions.take(k as int + 1).drop_last() =~= versions.take(k as int));
        push_reading(cases, cfg, dataset, &version);
        k += 1;
        assert(plan_view(cases@) =~= start + third + all_reading_cases(
            *cfg,
            dataset,
            versions.take(k as int),
        ));
    }
    assert(versions.take(versions.len() as int) =~= versions);
    assert(plan_view(cases@) =~= start + dataset_plan(*cfg, dataset));
}

/// All runs of a suite, in order.
pub fn plan_suite(cfg: &SuiteConfig) -> (cases: Vec<SuiteCase>)
    ensures
        plan_view(cases@) == suite_plan(*cfg, cfg.datasets@),
{
    let mut cases: Vec<SuiteCase> = Vec::new();
    let ghost datasets = cfg.datasets@;
    let mut i: usize = 0;
    assert(datasets.take(0) =~= Seq::<DatasetArg>::empty());
    assert(plan_view(cases@) =~= Seq::<PlannedCase>::empty());
    while i < cfg.datasets.len()
        invariant
            i <= cfg.datasets.len(),
            datasets == cfg.datasets@,
            plan_view(cases@) == suite_plan(*cfg, datasets.take(i as int)),
        decreases cfg.datasets.len() - i,
    {
        assert(datasets.take(i as int + 1).drop_last() =~= datasets.take(i as int));
        push_dataset(&mut cases, cfg, cfg.datasets[i]);
        i += 1;
    }
    assert(datasets.take(datasets.len() as int) =~= datasets);
    cases
}

} // verus!
