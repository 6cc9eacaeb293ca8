//! What holds of the records of runs.
use vstd::prelude::*;

use crate::args::{dataset_named, engine_named, write_mode_word, DatasetArg, EngineArg};
use crate::lance::LANCE_DEP_VERSION;
use crate::metrics::Timing;
use crate::numbers::decimal;
use crate::parquet_options::{ENGINE_ADAPTER_VERSION, PARQUET_DEP_VERSION};
use crate::records::RunRecord;
use crate::report_laws::{count_of, was_repeated, went_well};
use crate::result::RunMetadata;
use crate::runs::{
    bytes_written_of, dataset_or_unknown, describes, engine_or_unknown, engine_version_of,
    evolve_params_of, failure_note, ingest_params_of, measures, random_params_of,
    random_workload, rewrite_path_of, scan_params_of, size_params_of, subject_of, EvolveRun,
    IngestRun, RandomRun, RandomTarget, RunEnv, RunStart, ScanRun, SizeRun,
};
use crate::text::{has_part, has_prefix, joined, opt_view, views};
use crate::workload::{DatasetName, EngineName, Workload};

verus! {

/// Whether the parameters have a value under a name, or nothing where there is none.
pub open spec fn tells(
    params: Map<Seq<char>, Seq<char>>,
    name: Seq<char>,
    value: Option<Seq<char>>,
) -> bool {
    match value {
        Some(v) => params.contains_key(name) && params[name] == v,
        None => !params.contains_key(name),
    }
}

/// The text of a number.
pub open spec fn number_text(n: Option<u64>) -> Option<Seq<char>> {
    match n {
        Some(v) => Some(decimal(v as nat)),
        None => None,
    }
}

/// The text of a size.
pub open spec fn size_text(n: Option<usize>) -> Option<Seq<char>> {
    match n {
        Some(v) => Some(decimal(v as nat)),
        None => None,
    }
}

/// The index that a path stands for: only Lance datasets under `.index` have one.
pub open spec fn index_at(engine: EngineArg, path: Seq<char>) -> Option<Seq<char>> {
    if engine == EngineArg::Lance && has_part(path, ".index"@) {
        Some("bench_small_u64"@)
    } else {
        None
    }
}

proof fn lemma_ingest_names()
    ensures
        "input"@.len() == 5 && "input"@[0] == 'i',
        "bytes"@.len() == 5 && "bytes"@[0] == 'b',
        "rows"@.len() == 4,
        "batch_size"@.len() == 10 && "batch_size"@[0] == 'b',
        "limit_rows"@.len() == 10 && "limit_rows"@[0] == 'l',
        "dataset_out"@.len() == 11,
        "row_id_offset"@.len() == 13 && "row_id_offset"@[0] == 'r',
        "schema_fields"@.len() == 13 && "schema_fields"@[0] == 's',
        "lance_write_mode"@.len() == 16,
        "lance_file_version"@.len() == 18,
        "lance_index_columns"@.len() == 19,
        "lance_max_rows_per_file"@.len() == 23,
        "lance_max_bytes_per_file"@.len() == 24,
        "lance_file_version_requested"@.len() == 28,
{
    reveal_strlit("input");
    reveal_strlit("bytes");
    reveal_strlit("rows");
    reveal_strlit("batch_size");
    reveal_strlit("limit_rows");
    reveal_strlit("dataset_out");
    reveal_strlit("row_id_offset");
    reveal_strlit("schema_fields");
    reveal_strlit("lance_write_mode");
    reveal_strlit("lance_file_version");
    reveal_strlit("lance_index_columns");
    reveal_strlit("lance_max_rows_per_file");
    reveal_strlit("lance_max_bytes_per_file");
    reveal_strlit("lance_file_version_requested");
}

/// The record of an ingest tells what was read, where it was written, and how: every setting under
/// its own name, the Lance settings for Lance only.
pub proof fn law_ingests_are_recorded(run: IngestRun)
    ensures
        ({
            let params = ingest_params_of(run);
            let lance = run.engine != EngineArg::Parquet;
            let index = opt_view(run.index_columns);
            &&& tells(params, "input"@, Some(run.input@))
            &&& tells(params, "dataset_out"@, Some(run.out@))
            &&& tells(params, "batch_size"@, Some(decimal(run.batch_size as nat)))
            &&& tells(params, "limit_rows"@, number_text(run.limit_rows))
            &&& tells(params, "row_id_offset"@, Some(decimal(run.row_id_offset as nat)))
            &&& tells(params, "schema_fields"@, Some(decimal(run.schema_fields as nat)))
            &&& tells(params, "rows"@, Some(decimal(run.rows as nat)))
            &&& tells(params, "bytes"@, Some(decimal(run.bytes as nat)))
            &&& lance ==> tells(params, "lance_file_version"@, opt_view(run.stored_version))
            &&& lance ==> tells(
                params,
                "lance_file_version_requested"@,
                opt_view(run.asked_version),
            )
            &&& lance && !(index matches Some(cols) && cols.len() == 0) ==> tells(
                params,
                "lance_index_columns"@,
                index,
            )
            &&& lance ==> tells(
                params,
                "lance_write_mode"@,
                match run.write_mode {
                    Some(mode) => Some(write_mode_word(mode)),
                    None => None,
                },
            )
            &&& lance ==> tells(params, "lance_max_rows_per_file"@, size_text(run.max_rows_per_file))
            &&& lance ==> tells(
                params,
                "lance_max_bytes_per_file"@,
                size_text(run.max_bytes_per_file),
            )
            &&& !lance || (index matches Some(cols) && cols.len() == 0) ==> tells(
                params,
                "lance_index_columns"@,
                None,
            )
            &&& !lance ==> tells(params, "lance_file_version"@, None)
        }),
{
    lemma_ingest_names();
}

proof fn lemma_scan_names()
    ensures
        "path"@.len() == 4,
        "filter"@.len() == 6,
        "repeats"@.len() == 7,
        "projection"@.len() == 10 && "projection"@[0] == 'p',
        "limit_rows"@.len() == 10 && "limit_rows"@[0] == 'l',
        "row_offset"@.len() == 10 && "row_offset"@[0] == 'r',
        "lance_file_version"@.len() == 18,
        "lance_index_columns"@.len() == 19,
        "lance_fragment_count"@.len() == 20,
        "lance_data_file_count"@.len() == 21,
{
    reveal_strlit("path");
    reveal_strlit("filter");
    reveal_strlit("repeats");
    reveal_strlit("projection");
    reveal_strlit("limit_rows");
    reveal_strlit("row_offset");
    reveal_strlit("lance_file_version");
    reveal_strlit("lance_index_columns");
    reveal_strlit("lance_fragment_count");
    reveal_strlit("lance_data_file_count");
}

/// The record of a scan tells what was scanned and how: every setting under its own name, the facts
/// of a Lance dataset for Lance only.
pub proof fn law_scans_are_recorded(run: ScanRun)
    ensures
        ({
            let params = scan_params_of(run);
            let lance = run.engine != EngineArg::Parquet && run.lance is Some;
            let facts = run.lance->0;
            &&& tells(params, "path"@, Some(run.path@))
            &&& tells(params, "projection"@, Some(joined(views(run.projection@), ","@)))
            &&& tells(
                params,
                "filter"@,
                match run.threshold {
                    Some(n) => Some("bench_small_u64"@ + " < "@ + decimal(n as nat)),
                    None => None,
                },
            )
            &&& tells(params, "repeats"@, Some(decimal(run.repeats as nat)))
            &&& tells(params, "limit_rows"@, number_text(run.limit_rows))
            &&& tells(params, "row_offset"@, number_text(run.row_offset))
            &&& tells(params, "lance_index_columns"@, index_at(run.engine, run.path@))
            &&& tells(
                params,
                "lance_file_version"@,
                if lance {
                    Some(facts.file_version@)
                } else {
                    None
                },
            )
            &&& tells(
                params,
                "lance_fragment_count"@,
                if lance {
                    Some(decimal(facts.fragment_count as nat))
                } else {
                    None
                },
            )
            &&& tells(
                params,
                "lance_data_file_count"@,
                if lance {
                    number_text(facts.data_file_count)
                } else {
                    None
                },
            )
        }),
{
    lemma_scan_names();
}

proof fn lemma_random_names()
    ensures
        "path"@.len() == 4,
        "iters"@.len() == 5,
        "column"@.len() == 6,
        "row_count"@.len() == 9,
        "projection"@.len() == 10,
        "lance_file_version"@.len() == 18,
        "lance_index_columns"@.len() == 19,
{
    reveal_strlit("path");
    reveal_strlit("iters");
    reveal_strlit("column");
    reveal_strlit("row_count");
    reveal_strlit("projection");
    reveal_strlit("lance_file_version");
    reveal_strlit("lance_index_columns");
}

/// The record of random reads tells where, how often and of how many rows they were; those of
/// columns are random row access and name the columns, those of a blob random blob access and name
/// its column.
pub proof fn law_random_reads_are_recorded(run: RandomRun)
    ensures
        ({
            let params = random_params_of(run);
            &&& tells(params, "path"@, Some(run.path@))
            &&& tells(params, "iters"@, Some(decimal(run.iters as nat)))
            &&& tells(params, "row_count"@, Some(decimal(run.row_count as nat)))
            &&& tells(params, "lance_file_version"@, opt_view(run.lance_file_version))
            &&& tells(params, "lance_index_columns"@, index_at(run.engine, run.path@))
            &&& match run.target {
                RandomTarget::Columns(columns) => {
                    &&& random_workload(run.target) == Workload::RandomTake
                    &&& tells(params, "projection"@, Some(joined(views(columns@), ","@)))
                    &&& tells(params, "column"@, None)
                },
                RandomTarget::Blob(column) => {
                    &&& random_workload(run.target) == Workload::RandomBlob
                    &&& tells(params, "column"@, Some(column@))
                    &&& tells(params, "projection"@, None)
                },
            }
        }),
{
    lemma_random_names();
}

proof fn lemma_evolve_names()
    ensures
        "path"@.len() == 4 && "path"@[0] == 'p',
        "expr"@.len() == 4 && "expr"@[0] == 'e',
        "new_column"@.len() == 10,
        "rewrite_out"@.len() == 11,
        "base_size_bytes"@.len() == 15,
        "lance_file_version"@.len() == 18 && "lance_file_version"@[0] == 'l',
        "evolved_size_bytes"@.len() == 18 && "evolved_size_bytes"@[0] == 'e',
        "lance_index_columns"@.len() == 19,
{
    reveal_strlit("path");
    reveal_strlit("expr");
    reveal_strlit("new_column");
    reveal_strlit("rewrite_out");
    reveal_strlit("base_size_bytes");
    reveal_strlit("lance_file_version");
    reveal_strlit("evolved_size_bytes");
    reveal_strlit("lance_index_columns");
}

/// The record of a schema evolution tells the column, the sizes before and after, and how the
/// column came: for Lance the expression, the row number plus one unless another was asked for;
/// for Parquet the file that was written.
pub proof fn law_evolutions_are_recorded(run: EvolveRun)
    ensures
        ({
            let params = evolve_params_of(run);
            let lance = run.engine != EngineArg::Parquet;
            &&& tells(params, "path"@, Some(run.path@))
            &&& tells(params, "new_column"@, Some(run.new_column@))
            &&& tells(params, "base_size_bytes"@, Some(decimal(run.base_size_bytes as nat)))
            &&& tells(params, "evolved_size_bytes"@, Some(decimal(run.evolved_size_bytes as nat)))
            &&& tells(params, "lance_index_columns"@, index_at(run.engine, run.path@))
            &&& lance ==> tells(params, "rewrite_out"@, None) && tells(
                params,
                "lance_file_version"@,
                opt_view(run.lance_file_version),
            )
            &&& lance && run.expr is Some ==> tells(params, "expr"@, opt_view(run.expr))
            &&& lance && run.expr is None ==> tells(params, "expr"@, Some("bench_row_id"@ + " + 1"@))
            &&& !lance ==> tells(params, "expr"@, None) && tells(params, "lance_file_version"@, None)
            &&& !lance && run.out is Some ==> tells(params, "rewrite_out"@, opt_view(run.out))
            &&& !lance && run.out is None ==> tells(
                params,
                "rewrite_out"@,
                Some(run.path@ + ".evolved.parquet"@),
            )
        }),
{
    lemma_evolve_names();
}

/// What an evolution wrote: Parquet writes the whole file again; Lance adds to the dataset, so that
/// the size before and what was written make the size after, where that has not shrunk.
pub proof fn law_written_bytes_are_the_growth(run: EvolveRun)
    ensures
        run.engine == EngineArg::Parquet ==> bytes_written_of(run) == run.evolved_size_bytes,
        run.engine != EngineArg::Parquet && run.base_size_bytes <= run.evolved_size_bytes
            ==> run.base_size_bytes + bytes_written_of(run) == run.evolved_size_bytes,
        run.engine != EngineArg::Parquet && run.base_size_bytes > run.evolved_size_bytes
            ==> bytes_written_of(run) == 0,
{
}

/// A rewritten file goes where it was asked for; else beside the file it was made of, never over it.
pub proof fn law_rewrites_keep_the_source(path: Seq<char>, out: Seq<char>)
    ensures
        rewrite_path_of(path, Some(out)) == out,
        rewrite_path_of(path, None) != path,
        rewrite_path_of(path, None).take(path.len() as int) == path,
{
    reveal_strlit(".evolved.parquet");
    assert(rewrite_path_of(path, None).len() > path.len());
    assert(rewrite_path_of(path, None).take(path.len() as int) =~= path);
}

/// The record of a size measurement tells where it was taken, and of Lance the file version.
pub proof fn law_sizes_are_recorded(run: SizeRun)
    ensures
        ({
            let params = size_params_of(run);
            let lance = run.engine == Some(EngineArg::Lance) || run.engine == Some(
                EngineArg::LanceFragment,
            );
            &&& tells(params, "path"@, Some(run.path@))
            &&& tells(
                params,
                "lance_file_version"@,
                if lance {
                    opt_view(run.lance_file_version)
                } else {
                    None
                },
            )
            &&& run.engine is Some ==> tells(
                params,
                "lance_index_columns"@,
                index_at(run.engine->0, run.path@),
            )
            &&& run.engine is None ==> tells(params, "lance_index_columns"@, None)
        }),
{
    lemma_random_names();
}

/// The metadata of a run are those of the machine, of what was run and of when: each in its field.
pub proof fn law_metadata_are_of_the_run(
    meta: RunMetadata,
    env: RunEnv,
    engine: EngineArg,
    dataset: DatasetArg,
    workload: Workload,
    start: RunStart,
    params: Map<Seq<char>, Seq<char>>,
)
    requires
        describes(
            meta,
            env,
            subject_of(engine_named(engine), dataset_named(dataset), workload, start),
            params,
        ),
    ensures
        meta.bench_version@ == env.bench_version@,
        meta.git_commit@ == env.git_commit@,
        meta.os@ == env.os@,
        meta.arch@ == env.arch@,
        meta.cpu_count == env.cpu_count,
        meta.rustc@ == env.rustc@,
        meta.engine == engine_named(engine),
        meta.dataset == dataset_named(dataset),
        meta.workload == workload,
        meta.seed == start.seed,
        meta.started_at_unix_ms == start.started_at_unix_ms,
        meta.params@ == params,
{
}

/// A scan that was repeated `r` times and read `n` rows and `b` bytes each time is recorded so that
/// the report shows it as one of `r` repeats with `n` rows and `b` bytes.
pub proof fn law_recorded_scans_can_be_shown(
    record: RunRecord,
    env: RunEnv,
    start: RunStart,
    run: ScanRun,
    timing: Timing,
    n: nat,
    b: nat,
)
    requires
        run.repeats >= 1,
        run.rows == run.repeats * n,
        run.bytes == run.repeats * b,
        describes(
            record.result.meta,
            env,
            subject_of(engine_named(run.engine), dataset_named(run.dataset), run.workload, start),
            scan_params_of(run),
        ),
        measures(record.result, timing, Some(run.rows), Some(run.bytes), Some(run.latency)),
    ensures
        went_well(record),
        was_repeated(record, run.repeats as nat),
        count_of(record.result.rows) == run.repeats * n,
        count_of(record.result.bytes) == run.repeats * b,
        record.result.timing == timing,
        record.result.latency == Some(run.latency),
{
    law_scans_are_recorded(run);
}

/// A size is filed under the engine and dataset that were named; where none were, under unknown.
pub proof fn law_unnamed_sizes_are_unknown(engine: EngineArg, dataset: DatasetArg)
    ensures
        engine_or_unknown(Some(engine)) == engine_named(engine),
        engine_or_unknown(None) == EngineName::Unknown,
        dataset_or_unknown(Some(dataset)) == dataset_named(dataset),
        dataset_or_unknown(None) == DatasetName::Unknown,
{
}

/// The note of a failed run ends with the whole error.
pub proof fn law_failures_keep_the_error(error: Seq<char>)
    ensures
        failure_note(error).len() == error.len() + 7,
        failure_note(error).skip(7) == error,
{
    reveal_strlit("panic: ");
    reveal_strlit("error: ");
    assert(failure_note(error).skip(7) =~= error);
}

/// The version of an engine names the release of the library that it uses; both ways to read Lance
/// use one.
pub proof fn law_engines_name_their_release(engine: EngineName)
    ensures
        engine_version_of(EngineName::Lance) == engine_version_of(EngineName::LanceFragment),
        engine == EngineName::Unknown ==> engine_version_of(engine) == "unknown"@,
        engine == EngineName::Lance ==> engine_version_of(engine).skip(
            engine_version_of(engine).len() - LANCE_DEP_VERSION@.len(),
        ) == LANCE_DEP_VERSION@,
        engine == EngineName::Parquet ==> engine_version_of(engine).skip(
            engine_version_of(engine).len() - PARQUET_DEP_VERSION@.len(),
        ) == PARQUET_DEP_VERSION@,
        engine != EngineName::Unknown ==> has_prefix(
            engine_version_of(engine),
            "adapter="@ + ENGINE_ADAPTER_VERSION@,
        ),
{
    let text = engine_version_of(engine);
    if engine == EngineName::Parquet {
        assert(text.skip(text.len() - PARQUET_DEP_VERSION@.len()) =~= PARQUET_DEP_VERSION@);
    }
    if engine == EngineName::Lance {
        assert(text.skip(text.len() - LANCE_DEP_VERSION@.len()) =~= LANCE_DEP_VERSION@);
    }
    if engine != EngineName::Unknown {
        let start = "adapter="@ + ENGINE_ADAPTER_VERSION@;
        assert(text.subrange(0, start.len() as int) =~= start);
    }
}

} // verus!
