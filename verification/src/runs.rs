//! The results of runs: what is recorded of each.
use vstd::prelude::*;

use crate::args::{
    dataset_named, engine_named, write_mode_name, write_mode_word, DatasetArg, EngineArg,
    LanceWriteModeArg,
};
use crate::lance::LANCE_DEP_VERSION;
use crate::metrics::{LatencySummary, Timing};
use crate::numbers::{decimal, opt_decimal, opt_u64_text, u64_text, usize_text};
use crate::params::{put_opt, Params};
use crate::parquet_options::{ENGINE_ADAPTER_VERSION, PARQUET_DEP_VERSION};
use crate::query::Filter;
use crate::records::{recorded_key, KeyView};
use crate::report::failure_word;
use crate::result::{RunMetadata, RunResult};
use crate::schemas::{BENCH_ROW_ID, BENCH_SMALL_U64};
use crate::text::{clone_opt, contains_text, has_part, join, joined, opt_view, text_eq, views};
use crate::workload::{DatasetName, EngineName, Workload};

verus! {

// ---------------------------------------------------------------------------
// Metadata.
// ---------------------------------------------------------------------------

/// Where runs take place.
#[derive(Debug)]
pub struct RunEnv {
    pub bench_version: String,
    pub git_commit: String,
    pub os: String,
    pub arch: String,
    pub cpu_count: u64,
    pub rustc: String,
}

/// The version of an engine: that of its adapter and that of what it is built on.
pub open spec fn engine_version_of(engine: EngineName) -> Seq<char> {
    match engine {
        EngineName::Parquet => "adapter="@ + ENGINE_ADAPTER_VERSION@ + " dep="@
            + PARQUET_DEP_VERSION@,
        EngineName::Lance | EngineName::LanceFragment => "adapter="@ + ENGINE_ADAPTER_VERSION@
            + " dep="@ + LANCE_DEP_VERSION@,
        EngineName::Unknown => "unknown"@,
    }
}

fn version_text(dep: &str) -> (out: String)
    ensures
        out@ == "adapter="@ + ENGINE_ADAPTER_VERSION@ + " dep="@ + dep@,
{
    let mut out = "adapter=".to_owned();
    out.append(ENGINE_ADAPTER_VERSION);
    out.append(" dep=");
    out.append(dep);
    out
}

/// The version of an engine.
pub fn engine_version(engine: EngineName) -> (version: String)
    ensures
        version@ == engine_version_of(engine),
{
    match engine {
        EngineName::Parquet => version_text(PARQUET_DEP_VERSION),
        EngineName::Lance => version_text(LANCE_DEP_VERSION),
        EngineName::LanceFragment => version_text(LANCE_DEP_VERSION),
        EngineName::Unknown => "unknown".to_owned(),
    }
}

/// What is run, and when.
#[derive(Debug, Clone, Copy)]
pub struct RunSubject {
    pub engine: EngineName,
    pub dataset: DatasetName,
    pub workload: Workload,
    pub seed: u64,
    pub started_at_unix_ms: u128,
}

/// Whether metadata describes a run with these parameters.
pub open spec fn describes(
    meta: RunMetadata,
    env: RunEnv,
    subject: RunSubject,
    params: Map<Seq<char>, Seq<char>>,
) -> bool {
    &&& meta.bench_version@ == env.bench_version@
    &&& meta.git_commit@ == env.git_commit@
    &&& meta.os@ == env.os@
    &&& meta.arch@ == env.arch@
    &&& meta.cpu_count == env.cpu_count
    &&& meta.engine_version@ == engine_version_of(subject.engine)
    &&& meta.engine == subject.engine
    &&& meta.dataset == subject.dataset
    &&& meta.workload == subject.workload
    &&& meta.seed == subject.seed
    &&& meta.started_at_unix_ms == subject.started_at_unix_ms
    &&& meta.rustc@ == env.rustc@
    &&& meta.params@ == params
}

/// The metadata of a run.
pub fn make_meta(env: &RunEnv, subject: RunSubject, params: Params) -> (meta: RunMetadata)
    ensures
        describes(meta, *env, subject, params@),
{
    RunMetadata {
        bench_version: env.bench_version.clone(),
        git_commit: env.git_commit.clone(),
        os: env.os.clone(),
        arch: env.arch.clone(),
        cpu_count: env.cpu_count,
        engine_version: engine_version(subject.engine),
        engine: subject.engine,
        dataset: subject.dataset,
        workload: subject.workload,
        seed: subject.seed,
        started_at_unix_ms: subject.started_at_unix_ms,
        rustc: env.rustc.clone(),
        params,
    }
}

/// Whether an engine reads Lance datasets.
pub open spec fn reads_lance(engine: EngineName) -> bool {
    engine == EngineName::Lance || engine == EngineName::LanceFragment
}

fn is_lance(engine: EngineName) -> (yes: bool)
    ensures
        yes == reads_lance(engine),
{
    matches!(engine, EngineName::Lance | EngineName::LanceFragment)
}

/// The parameters with the path of a dataset, and with the columns of its index where the path
/// tells of one.
pub open spec fn path_params(engine: EngineName, path: Seq<char>) -> Map<Seq<char>, Seq<char>> {
    let params = Map::<Seq<char>, Seq<char>>::empty().insert("path"@, path);
    if engine == EngineName::Lance && has_part(path, ".index"@) {
        params.insert("lance_index_columns"@, BENCH_SMALL_U64@)
    } else {
        params
    }
}

/// Names the columns of an index where the path of a Lance dataset tells of one.
pub fn maybe_add_lance_index_params(engine: EngineName, path: &str, params: &mut Params)
    ensures
        final(params)@ == if engine == EngineName::Lance && has_part(path@, ".index"@) {
            old(params)@.insert("lance_index_columns"@, BENCH_SMALL_U64@)
        } else {
            old(params)@
        },
{
    if engine != EngineName::Lance {
        return;
    }
    if contains_text(path, ".index") {
        params.insert("lance_index_columns", BENCH_SMALL_U64.to_owned());
    }
}

fn with_path(engine: EngineName, path: &str) -> (params: Params)
    ensures
        params@ == path_params(engine, path@),
{
    let mut params = Params::new();
    params.insert("path", path.to_owned());
    maybe_add_lance_index_params(engine, path, &mut params);
    params
}

/// The seed of a run and when it started.
#[derive(Debug, Clone, Copy)]
pub struct RunStart {
    pub seed: u64,
    pub started_at_unix_ms: u128,
}

/// What is run, from the start of the run.
pub open spec fn subject_of(
    engine: EngineName,
    dataset: DatasetName,
    workload: Workload,
    start: RunStart,
) -> RunSubject {
    RunSubject {
        engine,
        dataset,
        workload,
        seed: start.seed,
        started_at_unix_ms: start.started_at_unix_ms,
    }
}

fn subject(
    engine: EngineName,
    dataset: DatasetName,
    workload: Workload,
    start: RunStart,
) -> (subject: RunSubject)
    ensures
        subject == subject_of(engine, dataset, workload, start),
{
    RunSubject {
        engine,
        dataset,
        workload,
        seed: start.seed,
        started_at_unix_ms: start.started_at_unix_ms,
    }
}

/// Whether a result measures this, without notes.
pub open spec fn measures(
    result: RunResult,
    timing: Timing,
    rows: Option<u64>,
    bytes: Option<u64>,
    latency: Option<LatencySummary>,
) -> bool {
    &&& result.timing == timing
    &&& result.rows == rows
    &&& result.bytes == bytes
    &&& result.latency == latency
    &&& result.notes@.len() == 0
}

// ---------------------------------------------------------------------------
// Ingest.
// ---------------------------------------------------------------------------

/// A dataset that was written.
#[derive(Debug)]
pub struct IngestRun {
    pub engine: EngineArg,
    pub dataset: DatasetArg,
    pub input: String,
    pub out: String,
    pub batch_size: usize,
    pub limit_rows: Option<u64>,
    pub row_id_offset: u64,
    /// The format version that a Lance dataset was written in.
    pub stored_version: Option<String>,
    /// The format version that was asked for.
    pub asked_version: Option<String>,
    pub index_columns: Option<String>,
    pub write_mode: Option<LanceWriteModeArg>,
    pub max_rows_per_file: Option<usize>,
    pub max_bytes_per_file: Option<usize>,
    pub schema_fields: usize,
    pub rows: u64,
    pub bytes: u64,
}

/// The decimal text of a number, where there is one.
pub open spec fn opt_size(n: Option<usize>) -> Option<Seq<char>> {
    match n {
        Some(n) => Some(decimal(n as nat)),
        None => None,
    }
}

fn opt_size_text(n: Option<usize>) -> (out: Option<String>)
    ensures
        opt_view(out) == opt_size(n),
{
    match n {
        Some(n) => Some(usize_text(n)),
        None => None,
    }
}

/// A text, unless it is empty.
pub open spec fn unless_empty(text: Option<Seq<char>>) -> Option<Seq<char>> {
    match text {
        Some(t) => if t.len() == 0 {
            None
        } else {
            Some(t)
        },
        None => None,
    }
}

/// What is recorded of an ingest into a Lance dataset.
pub open spec fn lance_ingest_params(
    params: Map<Seq<char>, Seq<char>>,
    run: IngestRun,
) -> Map<Seq<char>, Seq<char>> {
    let params = put_opt(params, "lance_file_version"@, opt_view(run.stored_version));
    let params = put_opt(params, "lance_file_version_requested"@, opt_view(run.asked_version));
    let params = put_opt(
        params,
        "lance_index_columns"@,
        unless_empty(opt_view(run.index_columns)),
    );
    let params = put_opt(
        params,
        "lance_write_mode"@,
        match run.write_mode {
            Some(mode) => Some(write_mode_word(mode)),
            None => None,
        },
    );
    let params = put_opt(params, "lance_max_rows_per_file"@, opt_size(run.max_rows_per_file));
    put_opt(params, "lance_max_bytes_per_file"@, opt_size(run.max_bytes_per_file))
}

/// What is recorded of an ingest.
pub open spec fn ingest_params_of(run: IngestRun) -> Map<Seq<char>, Seq<char>> {
    let params = Map::<Seq<char>, Seq<char>>::empty().insert("input"@, run.input@).insert(
        "dataset_out"@,
        run.out@,
    ).insert("batch_size"@, decimal(run.batch_size as nat));
    let params = put_opt(params, "limit_rows"@, opt_decimal(run.limit_rows)).insert(
        "row_id_offset"@,
        decimal(run.row_id_offset as nat),
    );
    let params = if reads_lance(engine_named(run.engine)) {
        lance_ingest_params(params, run)
    } else {
        params
    };
    params.insert("schema_fields"@, decimal(run.schema_fields as nat)).insert(
        "rows"@,
        decimal(run.rows as nat),
    ).insert("bytes"@, decimal(run.bytes as nat))
}

fn ingest_params(run: &IngestRun) -> (params: Params)
    ensures
        params@ == ingest_params_of(*run),
{
    let mut params = Params::new();
    params.insert("input", run.input.clone());
    params.insert("dataset_out", run.out.clone());
    params.insert("batch_size", usize_text(run.batch_size));
    params.insert_opt("limit_rows", opt_u64_text(run.limit_rows));
    params.insert("row_id_offset", u64_text(run.row_id_offset));
    let engine: EngineName = EngineName::from(run.engine);
    if is_lance(engine) {
        params.insert_opt("lance_file_version", clone_opt(&run.stored_version));
        params.insert_opt("lance_file_version_requested", clone_opt(&run.asked_version));
        match &run.index_columns {
            Some(columns) => {
                proof {
                    reveal_strlit("");
                    assert(columns@.len() == 0 ==> columns@ =~= ""@);
                }
                if !text_eq(columns.as_str(), "") {
                    params.insert("lance_index_columns", columns.clone());
                }
            },
            None => {},
        }
        match run.write_mode {
            Some(mode) => params.insert("lance_write_mode", write_mode_name(mode).to_owned()),
            None => {},
        }
        params.insert_opt("lance_max_rows_per_file", opt_size_text(run.max_rows_per_file));
        params.insert_opt("lance_max_bytes_per_file", opt_size_text(run.max_bytes_per_file));
    }
    params.insert("schema_fields", usize_text(run.schema_fields));
    params.insert("rows", u64_text(run.rows));
    params.insert("bytes", u64_text(run.bytes));
    params
}

/// The result of an ingest.
pub fn ingest_result(
    env: &RunEnv,
    start: RunStart,
    run: &IngestRun,
    timing: Timing,
) -> (result: RunResult)
    ensures
        describes(
            result.meta,
            *env,
            subject_of(
                engine_named(run.engine),
                dataset_named(run.dataset),
                Workload::Ingest,
                start,
            ),
            ingest_params_of(*run),
        ),
        measures(result, timing, Some(run.rows), Some(run.bytes), None),
{
    let engine: EngineName = EngineName::from(run.engine);
    let dataset: DatasetName = DatasetName::from(run.dataset);
    RunResult {
        meta: make_meta(
            env,
            subject(engine, dataset, Workload::Ingest, start),
            ingest_params(run),
        ),
        timing,
        rows: Some(run.rows),
        bytes: Some(run.bytes),
        latency: None,
        notes: Vec::new(),
    }
}

// ---------------------------------------------------------------------------
// Scan.
// ---------------------------------------------------------------------------

/// What a Lance dataset is made of.
#[derive(Debug)]
pub struct LanceFacts {
    pub file_version: String,
    pub fragment_count: u64,
    /// How many data files there are, where they can be counted.
    pub data_file_count: Option<u64>,
}

/// A dataset that was scanned.
#[derive(Debug)]
pub struct ScanRun {
    pub engine: EngineArg,
    pub dataset: DatasetArg,
    pub path: String,
    pub workload: Workload,
    pub projection: Vec<String>,
    pub threshold: Option<u64>,
    pub limit_rows: Option<u64>,
    pub row_offset: Option<u64>,
    pub repeats: u32,
    /// What a Lance dataset is made of.
    pub lance: Option<LanceFacts>,
    pub rows: u64,
    pub bytes: u64,
    pub latency: LatencySummary,
}

/// The words of the filter of a scan.
pub open spec fn filter_words(threshold: Option<u64>) -> Option<Seq<char>> {
    match threshold {
        Some(n) => Some(BENCH_SMALL_U64@ + " < "@ + decimal(n as nat)),
        None => None,
    }
}

fn filter_text(threshold: Option<u64>) -> (out: Option<String>)
    ensures
        opt_view(out) == filter_words(threshold),
{
    match threshold {
        Some(n) => {
            let filter = Filter::lt_u64(BENCH_SMALL_U64.to_owned(), n);
            Some(filter.sql_text())
        },
        None => None,
    }
}

/// What is recorded of a scan.
pub open spec fn scan_params_of(run: ScanRun) -> Map<Seq<char>, Seq<char>> {
    let engine = engine_named(run.engine);
    let params = path_params(engine, run.path@).insert(
        "projection"@,
        joined(views(run.projection@), ","@),
    );
    let params = put_opt(params, "filter"@, filter_words(run.threshold)).insert(
        "repeats"@,
        decimal(run.repeats as nat),
    );
    let params = put_opt(params, "limit_rows"@, opt_decimal(run.limit_rows));
    let params = put_opt(params, "row_offset"@, opt_decimal(run.row_offset));
    match run.lance {
        Some(facts) => if reads_lance(engine) {
            put_opt(
                params.insert("lance_file_version"@, facts.file_version@).insert(
                    "lance_fragment_count"@,
                    decimal(facts.fragment_count as nat),
                ),
                "lance_data_file_count"@,
                opt_decimal(facts.data_file_count),
            )
        } else {
            params
        },
        None => params,
    }
}

fn scan_params(run: &ScanRun) -> (params: Params)
    ensures
        params@ == scan_params_of(*run),
{
    let engine: EngineName = EngineName::from(run.engine);
    let mut params = with_path(engine, run.path.as_str());
    params.insert("projection", join(&run.projection, ","));
    params.insert_opt("filter", filter_text(run.threshold));
    params.insert("repeats", u64_text(run.repeats as u64));
    params.insert_opt("limit_rows", opt_u64_text(run.limit_rows));
    params.insert_opt("row_offset", opt_u64_text(run.row_offset));
    match &run.lance {
        Some(facts) => if is_lance(engine) {
            params.insert("lance_file_version", facts.file_version.clone());
            params.insert("lance_fragment_count", u64_text(facts.fragment_count));
            params.insert_opt("lance_data_file_count", opt_u64_text(facts.data_file_count));
        },
        None => {},
    }
    params
}

/// The result of a scan.
pub fn scan_result(
    env: &RunEnv,
    start: RunStart,
    run: &ScanRun,
    timing: Timing,
) -> (result: RunResult)
    ensures
        describes(
            result.meta,
            *env,
            subject_of(
                engine_named(run.engine),
                dataset_named(run.dataset),
                run.workload,
                start,
            ),
            scan_params_of(*run),
        ),
        measures(result, timing, Some(run.rows), Some(run.bytes), Some(run.latency)),
{
    let engine: EngineName = EngineName::from(run.engine);
    let dataset: DatasetName = DatasetName::from(run.dataset);
    RunResult {
        meta: make_meta(env, subject(engine, dataset, run.workload, start), scan_params(run)),
        timing,
        rows: Some(run.rows),
        bytes: Some(run.bytes),
        latency: Some(run.latency),
        notes: Vec::new(),
    }
}

// ---------------------------------------------------------------------------
// Random reads.
// ---------------------------------------------------------------------------

/// What a random read reads of a row.
#[derive(Debug)]
pub enum RandomTarget {
    /// Some columns.
    Columns(Vec<String>),
    /// One blob.
    Blob(String),
}

/// A dataset that was read at random.
#[derive(Debug)]
pub struct RandomRun {
    pub engine: EngineArg,
    pub dataset: DatasetArg,
    pub path: String,
    pub iters: u64,
    pub row_count: u64,
    pub target: RandomTarget,
    pub lance_file_version: Option<String>,
}

/// What is recorded of a random read.
pub open spec fn random_params_of(run: RandomRun) -> Map<Seq<char>, Seq<char>> {
    let params = path_params(engine_named(run.engine), run.path@).insert(
        "iters"@,
        decimal(run.iters as nat),
    ).insert("row_count"@, decimal(run.row_count as nat));
    let params = match run.target {
        RandomTarget::Columns(columns) => params.insert(
            "projection"@,
            joined(views(columns@), ","@),
        ),
        RandomTarget::Blob(column) => params.insert("column"@, column@),
    };
    put_opt(params, "lance_file_version"@, opt_view(run.lance_file_version))
}

fn random_params(run: &RandomRun) -> (params: Params)
    ensures
        params@ == random_params_of(*run),
{
    let engine: EngineName = EngineName::from(run.engine);
    let mut params = with_path(engine, run.path.as_str());
    params.insert("iters", u64_text(run.iters));
    params.insert("row_count", u64_text(run.row_count));
    match &run.target {
        RandomTarget::Columns(columns) => params.insert("projection", join(columns, ",")),
        RandomTarget::Blob(column) => params.insert("column", column.clone()),
    }
    params.insert_opt("lance_file_version", clone_opt(&run.lance_file_version));
    params
}

/// The workload of a random read.
pub open spec fn random_workload(target: RandomTarget) -> Workload {
    match target {
        RandomTarget::Columns(_) => Workload::RandomTake,
        RandomTarget::Blob(_) => Workload::RandomBlob,
    }
}

fn random_meta(env: &RunEnv, start: RunStart, run: &RandomRun) -> (meta: RunMetadata)
    ensures
        describes(
            meta,
            *env,
            subject_of(
                engine_named(run.engine),
                dataset_named(run.dataset),
                random_workload(run.target),
                start,
            ),
            random_params_of(*run),
        ),
{
    let engine: EngineName = EngineName::from(run.engine);
    let dataset: DatasetName = DatasetName::from(run.dataset);
    let workload = match &run.target {
        RandomTarget::Columns(_) => Workload::RandomTake,
        RandomTarget::Blob(_) => Workload::RandomBlob,
    };
    make_meta(env, subject(engine, dataset, workload, start), random_params(run))
}

/// The result of a random read. The latency is left out where nothing was measured.
pub fn random_result(
    env: &RunEnv,
    start: RunStart,
    run: &RandomRun,
    timing: Timing,
    bytes: Option<u64>,
    latency: Option<LatencySummary>,
) -> (result: RunResult)
    ensures
        describes(
            result.meta,
            *env,
            subject_of(
                engine_named(run.engine),
                dataset_named(run.dataset),
                random_workload(run.target),
                start,
            ),
            random_params_of(*run),
        ),
        measures(result, timing, Some(run.iters), bytes, latency),
{
    RunResult {
        meta: random_meta(env, start, run),
        timing,
        rows: Some(run.iters),
        bytes,
        latency,
        notes: Vec::new(),
    }
}

/// Whether blobs of a dataset are read once, apart, before they are measured.
pub fn needs_blob_probe(engine: EngineArg, lance_file_version: &Option<String>) -> (needed: bool)
    ensures
        needed == (engine == EngineArg::Lance && opt_view(*lance_file_version) == Some("2.2"@)),
{
    match engine {
        EngineArg::Lance => match lance_file_version {
            Some(version) => text_eq(version.as_str(), "2.2"),
            None => false,
        },
        _ => false,
    }
}

/// The result of a random read that broke down before it was measured: no bytes, no latency and
/// the failure as a note.
pub fn broken_probe_result(
    env: &RunEnv,
    start: RunStart,
    run: &RandomRun,
    timing: Timing,
    failure: &str,
) -> (result: RunResult)
    ensures
        describes(
            result.meta,
            *env,
            subject_of(
                engine_named(run.engine),
                dataset_named(run.dataset),
                random_workload(run.target),
                start,
            ),
            random_params_of(*run),
        ),
        result.timing == timing,
        result.rows == Some(run.iters),
        result.bytes == Some(0u64),
        result.latency is None,
        views(result.notes@) == seq!["panic: "@ + failure@],
{
    RunResult {
        meta: random_meta(env, start, run),
        timing,
        rows: Some(run.iters),
        bytes: Some(0),
        latency: None,
        notes: one_note("panic: ", failure),
    }
}

fn one_note(kind: &str, text: &str) -> (notes: Vec<String>)
    ensures
        views(notes@) == seq![kind@ + text@],
{
    let mut note = kind.to_owned();
    note.append(text);
    let notes = vec![note];
    assert(views(notes@) =~= seq![kind@ + text@]);
    notes
}

// ---------------------------------------------------------------------------
// Evolution.
// ---------------------------------------------------------------------------

/// Where a Parquet file goes when a column is added.
pub open spec fn rewrite_path_of(path: Seq<char>, out: Option<Seq<char>>) -> Seq<char> {
    match out {
        Some(o) => o,
        None => path + ".evolved.parquet"@,
    }
}

/// Where a Parquet file goes when a column is added.
pub fn rewrite_path(path: &str, out: &Option<String>) -> (target: String)
    ensures
        target@ == rewrite_path_of(path@, opt_view(*out)),
{
    match out {
        Some(o) => o.clone(),
        None => {
            let mut target = path.to_owned();
            target.append(".evolved.parquet");
            target
        },
    }
}

/// The expression of the column that is added to a Lance dataset.
pub open spec fn evolve_expr_of(expr: Option<Seq<char>>) -> Seq<char> {
    match expr {
        Some(e) => e,
        None => BENCH_ROW_ID@ + " + 1"@,
    }
}

/// The expression of the column that is added to a Lance dataset.
pub fn evolve_expr(expr: &Option<String>) -> (words: String)
    ensures
        words@ == evolve_expr_of(opt_view(*expr)),
{
    match expr {
        Some(e) => e.clone(),
        None => {
            let mut words = BENCH_ROW_ID.to_owned();
            words.append(" + 1");
            words
        },
    }
}

/// A dataset that a column was added to.
#[derive(Debug)]
pub struct EvolveRun {
    pub engine: EngineArg,
    pub dataset: DatasetArg,
    pub path: String,
    pub new_column: String,
    pub out: Option<String>,
    pub expr: Option<String>,
    pub lance_file_version: Option<String>,
    pub base_size_bytes: u64,
    pub evolved_size_bytes: u64,
}

/// What is recorded of an evolution.
pub open spec fn evolve_params_of(run: EvolveRun) -> Map<Seq<char>, Seq<char>> {
    let engine = engine_named(run.engine);
    let params = path_params(engine, run.path@).insert("new_column"@, run.new_column@);
    let params = if reads_lance(engine) {
        put_opt(params, "lance_file_version"@, opt_view(run.lance_file_version))
    } else {
        params
    };
    let params = params.insert("base_size_bytes"@, decimal(run.base_size_bytes as nat));
    let params = if reads_lance(engine) {
        params.insert("expr"@, evolve_expr_of(opt_view(run.expr)))
    } else {
        params.insert("rewrite_out"@, rewrite_path_of(run.path@, opt_view(run.out)))
    };
    params.insert("evolved_size_bytes"@, decimal(run.evolved_size_bytes as nat))
}

fn evolve_params(run: &EvolveRun) -> (params: Params)
    ensures
        params@ == evolve_params_of(*run),
{
    let engine: EngineName = EngineName::from(run.engine);
    let mut params = with_path(engine, run.path.as_str());
    params.insert("new_column", run.new_column.clone());
    if is_lance(engine) {
        params.insert_opt("lance_file_version", clone_opt(&run.lance_file_version));
    }
    params.insert("base_size_bytes", u64_text(run.base_size_bytes));
    if is_lance(engine) {
        params.insert("expr", evolve_expr(&run.expr));
    } else {
        params.insert("rewrite_out", rewrite_path(run.path.as_str(), &run.out));
    }
    params.insert("evolved_size_bytes", u64_text(run.evolved_size_bytes));
    params
}

/// The bytes that an evolution wrote: what a Lance dataset grew by, and the whole of a Parquet
/// file.
pub open spec fn bytes_written_of(run: EvolveRun) -> u64 {
    if !reads_lance(engine_named(run.engine)) {
        run.evolved_size_bytes
    } else if run.evolved_size_bytes < run.base_size_bytes {
        0
    } else {
        (run.evolved_size_bytes - run.base_size_bytes) as u64
    }
}

/// The result of an evolution.
pub fn evolve_result(
    env: &RunEnv,
    start: RunStart,
    run: &EvolveRun,
    timing: Timing,
) -> (result: RunResult)
    ensures
        describes(
            result.meta,
            *env,
            subject_of(
                engine_named(run.engine),
                dataset_named(run.dataset),
                Workload::EvolutionBackfill,
                start,
            ),
            evolve_params_of(*run),
        ),
        measures(result, timing, None, Some(bytes_written_of(*run)), None),
{
    let engine: EngineName = EngineName::from(run.engine);
    let dataset: DatasetName = DatasetName::from(run.dataset);
    let bytes: u64 = if is_lance(engine) {
        run.evolved_size_bytes.saturating_sub(run.base_size_bytes)
    } else {
        run.evolved_size_bytes
    };
    RunResult {
        meta: make_meta(
            env,
            subject(engine, dataset, Workload::EvolutionBackfill, start),
            evolve_params(run),
        ),
        timing,
        rows: None,
        bytes: Some(bytes),
        latency: None,
        notes: Vec::new(),
    }
}

// ---------------------------------------------------------------------------
// Size.
// ---------------------------------------------------------------------------

/// A dataset whose size was taken.
#[derive(Debug)]
pub struct SizeRun {
    pub engine: Option<EngineArg>,
    pub dataset: Option<DatasetArg>,
    pub path: String,
    pub lance_file_version: Option<String>,
    pub bytes: u64,
}

/// The engine of a run that may not name one.
pub open spec fn engine_or_unknown(engine: Option<EngineArg>) -> EngineName {
    match engine {
        Some(arg) => engine_named(arg),
        None => EngineName::Unknown,
    }
}

/// The dataset of a run that may not name one.
pub open spec fn dataset_or_unknown(dataset: Option<DatasetArg>) -> DatasetName {
    match dataset {
        Some(arg) => dataset_named(arg),
        None => DatasetName::Unknown,
    }
}

/// What is recorded of a size.
pub open spec fn size_params_of(run: SizeRun) -> Map<Seq<char>, Seq<char>> {
    let engine = engine_or_unknown(run.engine);
    let params = path_params(engine, run.path@);
    if reads_lance(engine) {
        put_opt(params, "lance_file_version"@, opt_view(run.lance_file_version))
    } else {
        params
    }
}

/// The result of a size.
pub fn size_result(
    env: &RunEnv,
    start: RunStart,
    run: &SizeRun,
    timing: Timing,
) -> (result: RunResult)
    ensures
        describes(
            result.meta,
            *env,
            subject_of(
                engine_or_unknown(run.engine),
                dataset_or_unknown(run.dataset),
                Workload::Size,
                start,
            ),
            size_params_of(*run),
        ),
        measures(result, timing, None, Some(run.bytes), None),
{
    let engine: EngineName = match run.engine {
        Some(arg) => EngineName::from(arg),
        None => EngineName::Unknown,
    };
    let dataset: DatasetName = match run.dataset {
        Some(arg) => DatasetName::from(arg),
        None => DatasetName::Unknown,
    };
    let mut params = with_path(engine, run.path.as_str());
    if is_lance(engine) {
        params.insert_opt("lance_file_version", clone_opt(&run.lance_file_version));
    }
    RunResult {
        meta: make_meta(env, subject(engine, dataset, Workload::Size, start), params),
        timing,
        rows: None,
        bytes: Some(run.bytes),
        latency: None,
        notes: Vec::new(),
    }
}

// ---------------------------------------------------------------------------
// Smoke checks and failures.
// ---------------------------------------------------------------------------

/// The result of a check that an engine is there.
pub fn smoke_result(
    env: &RunEnv,
    start: RunStart,
    engine: EngineArg,
    timing: Timing,
) -> (result: RunResult)
    ensures
        describes(
            result.meta,
            *env,
            subject_of(
                engine_named(engine),
                DatasetName::LeRobotPushT,
                Workload::Ingest,
                start,
            ),
            Map::<Seq<char>, Seq<char>>::empty().insert("smoke"@, "true"@),
        ),
        result.timing == timing,
        result.rows is None,
        result.bytes is None,
        result.latency is None,
        views(result.notes@) == seq!["Smoke check only"@],
{
    let name: EngineName = EngineName::from(engine);
    let mut params = Params::new();
    params.insert("smoke", "true".to_owned());
    let notes = vec!["Smoke check only".to_owned()];
    assert(views(notes@) =~= seq!["Smoke check only"@]);
    RunResult {
        meta: make_meta(
            env,
            subject(name, DatasetName::LeRobotPushT, Workload::Ingest, start),
            params,
        ),
        timing,
        rows: None,
        bytes: None,
        latency: None,
        notes,
    }
}

/// The note of a failure: whether it broke down or gave an error.
pub open spec fn failure_note(error: Seq<char>) -> Seq<char> {
    if has_part(error, "panicked"@) || has_part(error, "JoinError"@) {
        "panic: "@ + error
    } else {
        "error: "@ + error
    }
}

/// The result of a run that failed: its parameters with the error, and nothing measured.
pub fn failure_result(
    env: &RunEnv,
    subject: RunSubject,
    params: Params,
    error: &str,
    timing: Timing,
) -> (result: RunResult)
    ensures
        describes(result.meta, *env, subject, params@.insert("error"@, error@)),
        result.timing == timing,
        result.rows is None,
        result.bytes is None,
        result.latency is None,
        views(result.notes@) == seq![failure_note(error@)],
{
    let mut params = params;
    params.insert("error", error.to_owned());
    let notes = if contains_text(error, "panicked") || contains_text(error, "JoinError") {
        one_note("panic: ", error)
    } else {
        one_note("error: ", error)
    };
    RunResult {
        meta: make_meta(env, subject, params),
        timing,
        rows: None,
        bytes: None,
        latency: None,
        notes,
    }
}

// ---------------------------------------------------------------------------
// What reports make of results.
// ---------------------------------------------------------------------------

/// A run that failed is marked as failed in a report, by how it failed.
pub proof fn law_failures_are_marked(error: Seq<char>)
    ensures
        failure_word(seq![failure_note(error)]) == Some(
            if has_part(error, "panicked"@) || has_part(error, "JoinError"@) {
                "PANIC"@
            } else {
                "ERROR"@
            },
        ),
{
    reveal_strlit("panic: ");
    reveal_strlit("panic:");
    reveal_strlit("error: ");
    reveal_strlit("error:");
    let note = failure_note(error);
    let notes = seq![note];
    assert(notes[0] == note);
    if has_part(error, "panicked"@) || has_part(error, "JoinError"@) {
        assert(note.subrange(0, 6) =~= "panic:"@);
    } else {
        assert(note.subrange(0, 6) =~= "error:"@);
        assert(note[0] == 'e');
        assert(note.subrange(0, 6)[0] != "panic:"@[0]);
    }
}

proof fn lemma_params_differ()
    ensures
        "lance_disable_compression"@ != "lance_file_version"@,
        "lance_disable_compression"@ != "lance_fragment_count"@,
        "lance_disable_compression"@ != "lance_data_file_count"@,
        "lance_disable_compression"@ != "lance_index_columns"@,
        "lance_disable_compression"@ != "path"@,
        "lance_disable_compression"@ != "projection"@,
        "lance_disable_compression"@ != "filter"@,
        "lance_disable_compression"@ != "repeats"@,
        "lance_disable_compression"@ != "limit_rows"@,
        "lance_disable_compression"@ != "row_offset"@,
        "lance_file_version"@ != "lance_fragment_count"@,
        "lance_file_version"@ != "lance_data_file_count"@,
        "lance_index_columns"@ != "lance_file_version"@,
        "lance_index_columns"@ != "lance_fragment_count"@,
        "lance_index_columns"@ != "lance_data_file_count"@,
        "lance_index_columns"@ != "path"@,
        "lance_index_columns"@ != "projection"@,
        "lance_index_columns"@ != "filter"@,
        "lance_index_columns"@ != "repeats"@,
        "lance_index_columns"@ != "limit_rows"@,
        "lance_index_columns"@ != "row_offset"@,
{
    reveal_strlit("lance_disable_compression");
    reveal_strlit("lance_file_version");
    reveal_strlit("lance_fragment_count");
    reveal_strlit("lance_data_file_count");
    reveal_strlit("lance_index_columns");
    reveal_strlit("path");
    reveal_strlit("projection");
    reveal_strlit("filter");
    reveal_strlit("repeats");
    reveal_strlit("limit_rows");
    reveal_strlit("row_offset");
    assert("lance_disable_compression"@.len() == 25);
    assert("lance_file_version"@.len() == 18);
    assert("lance_fragment_count"@.len() == 20);
    assert("lance_data_file_count"@.len() == 21);
    assert("lance_index_columns"@.len() == 19);
    assert("path"@.len() == 4);
    assert("projection"@.len() == 10);
    assert("filter"@.len() == 6);
    assert("repeats"@.len() == 7);
    assert("limit_rows"@.len() == 10);
    assert("row_offset"@.len() == 10);
}

/// A report files the scan of a Lance dataset under the dataset's format version, and under the
/// small number where the path of the dataset tells of an index.
pub proof fn law_scans_are_filed_by_version(
    env: RunEnv,
    start: RunStart,
    run: ScanRun,
    meta: RunMetadata,
)
    requires
        run.engine == EngineArg::Lance,
        run.lance is Some,
        describes(
            meta,
            env,
            subject_of(EngineName::Lance, dataset_named(run.dataset), run.workload, start),
            scan_params_of(run),
        ),
    ensures
        recorded_key(meta) == (KeyView {
            dataset: dataset_named(run.dataset),
            engine: EngineName::Lance,
            version: Some(run.lance->0.file_version@),
            disable_compression: false,
            index_columns: if has_part(run.path@, ".index"@) {
                Some(BENCH_SMALL_U64@)
            } else {
                None
            },
            workload: run.workload,
        }),
{
    lemma_params_differ();
}

} // verus!
