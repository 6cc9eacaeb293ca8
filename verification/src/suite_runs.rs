//! What the runs of a suite do.
use vstd::prelude::*;

use crate::args::{
    blob_column_of, dataset_id, dataset_named, DatasetArg, EngineArg, ScanModeArg,
};
use crate::numbers::{decimal, opt_decimal};
use crate::paths::path_join;
use crate::suite::{
    all_reading_cases, blob_case, dataset_plan, evolve_case, ingest_case, ingest_cases,
    reading_cases, scan_case, size_case, size_cases, suite_plan, take_case, PlannedCase, PlannedOp,
    SuiteConfig,
};
use crate::suite_coverage::{is_case_of, is_suite_case, law_suite_covers_all};
use crate::suite_laws::{is_stored, path_read, path_used, path_written};
use crate::text::{opt_view, views};
use crate::workload::Workload;

verus! {

/// Whether what a run does is the workload that it is filed under.
pub open spec fn does_workload(op: PlannedOp, workload: Workload) -> bool {
    match workload {
        Workload::Ingest => op is Ingest,
        Workload::Size => op is Size,
        Workload::ScanFull => op matches PlannedOp::Scan { mode, .. } && mode is Full,
        Workload::ScanProject => op matches PlannedOp::Scan { mode, .. } && mode is Project,
        Workload::ScanFilterLow => op matches PlannedOp::Scan { mode, .. } && mode is FilterLow,
        Workload::ScanFilterHigh => op matches PlannedOp::Scan { mode, .. } && mode is FilterHigh,
        Workload::RandomTake => op is Take,
        Workload::RandomBlob => op is Blob,
        Workload::EvolutionBackfill => op is Evolve,
    }
}

/// Whether a run does what the user asks of a suite: from the data given, so many repeats and
/// reads, in batches of the size given, up to the limit given, and with the column and the
/// expression given.
pub open spec fn does_as_asked(cfg: SuiteConfig, case: PlannedCase) -> bool {
    match case.op {
        PlannedOp::Ingest { input, batch_size, limit_rows, version, .. } => {
            &&& input == path_join(cfg.data_dir@, dataset_id(case.dataset))
            &&& batch_size == cfg.batch_size
            &&& cfg.limit_rows is Some ==> limit_rows == cfg.limit_rows
            &&& match version {
                Some(v) => case.engine is Lance && views(cfg.versions@).contains(v),
                None => case.engine is Parquet,
            }
        },
        PlannedOp::Size { .. } => true,
        PlannedOp::Scan { repeats, .. } => repeats == cfg.scan_repeats,
        PlannedOp::Take { iters, .. } => iters == cfg.take_iters,
        PlannedOp::Blob { column, iters, .. } => iters == cfg.blob_iters && blob_column_of(
            dataset_named(case.dataset),
        ) == Some(column),
        PlannedOp::Evolve { path, new_column, rewrite_out, expr } => {
            &&& new_column == cfg.evolve_new_column@
            &&& expr == opt_view(cfg.evolve_expr)
            &&& rewrite_out is Some <==> case.engine is Parquet
        },
    }
}

/// Whether a parameter is recorded with a value, where there is one, and else not at all.
pub open spec fn records(
    params: Map<Seq<char>, Seq<char>>,
    name: Seq<char>,
    value: Option<Seq<char>>,
) -> bool {
    match value {
        Some(v) => params.contains_pair(name, v),
        None => !params.contains_key(name),
    }
}

/// Whether the parameters of a run tell what it does.
pub open spec fn tells_what_it_does(case: PlannedCase) -> bool {
    let params = case.params;
    match case.op {
        PlannedOp::Ingest { input, out, batch_size, limit_rows, version } => {
            &&& records(params, "input"@, Some(input))
            &&& records(params, "dataset_out"@, Some(out))
            &&& records(params, "batch_size"@, Some(decimal(batch_size as nat)))
            &&& records(params, "limit_rows"@, opt_decimal(limit_rows))
            &&& records(params, "lance_file_version"@, version)
        },
        PlannedOp::Size { path } => records(params, "path"@, Some(path)),
        PlannedOp::Scan { path, repeats, .. } => {
            &&& records(params, "path"@, Some(path))
            &&& records(params, "repeats"@, Some(decimal(repeats as nat)))
        },
        PlannedOp::Take { path, iters } => {
            &&& records(params, "path"@, Some(path))
            &&& records(params, "iters"@, Some(decimal(iters as nat)))
        },
        PlannedOp::Blob { path, column, iters } => {
            &&& records(params, "path"@, Some(path))
            &&& records(params, "column"@, Some(column))
            &&& records(params, "iters"@, Some(decimal(iters as nat)))
        },
        PlannedOp::Evolve { path, new_column, rewrite_out, expr } => {
            &&& records(params, "path"@, Some(path))
            &&& records(params, "new_column"@, Some(new_column))
            &&& records(params, "rewrite_out"@, rewrite_out)
            &&& records(params, "expr"@, expr)
        },
    }
}

proof fn lemma_names_differ()
    ensures
        "input"@.len() == 5,
        "dataset_out"@.len() == 11,
        "batch_size"@.len() == 10,
        "limit_rows"@.len() == 10,
        "limit_rows"@ != "batch_size"@,
        "lance_file_version"@.len() == 18,
        "lance_file_version_requested"@.len() == 28,
        "path"@.len() == 4,
        "repeats"@.len() == 7,
        "filter"@.len() == 6,
        "iters"@.len() == 5,
        "column"@.len() == 6,
        "new_column"@.len() == 10,
        "rewrite_out"@.len() == 11,
        "expr"@.len() == 4,
        "expr"@ != "path"@,
{
    reveal_strlit("input");
    reveal_strlit("dataset_out");
    reveal_strlit("batch_size");
    reveal_strlit("limit_rows");
    reveal_strlit("lance_file_version");
    reveal_strlit("lance_file_version_requested");
    reveal_strlit("path");
    reveal_strlit("repeats");
    reveal_strlit("filter");
    reveal_strlit("iters");
    reveal_strlit("column");
    reveal_strlit("new_column");
    reveal_strlit("rewrite_out");
    reveal_strlit("expr");
    assert("limit_rows"@[0] != "batch_size"@[0]);
    assert("expr"@[0] != "path"@[0]);
}

proof fn lemma_case(
    cfg: SuiteConfig,
    dataset: DatasetArg,
    version: Option<Seq<char>>,
    case: PlannedCase,
)
    requires
        is_stored(cfg, version),
        is_case_of(cfg, dataset, version, case),
    ensures
        case.dataset == dataset,
        does_workload(case.op, case.workload),
        does_as_asked(cfg, case),
        tells_what_it_does(case),
        records(case.params, "lance_file_version"@, version),
        case.engine is Lance <==> version is Some,
        case.engine is Parquet <==> version is None,
        path_used(case.op) == path_used(ingest_case(cfg, dataset, version).op),
{
    lemma_names_differ();
    if reading_cases(cfg, dataset, version).contains(case) {
        let cases = reading_cases(cfg, dataset, version);
        let k = choose|k: int| 0 <= k < cases.len() && cases[k] == case;
        let blobs = blob_column_of(dataset_named(dataset));
        assert(cases[0] == scan_case(cfg, dataset, version, ScanModeArg::Full));
        assert(cases[1] == scan_case(cfg, dataset, version, ScanModeArg::Project));
        assert(cases[2] == scan_case(cfg, dataset, version, ScanModeArg::FilterLow));
        assert(cases[3] == scan_case(cfg, dataset, version, ScanModeArg::FilterHigh));
        assert(cases[4] == take_case(cfg, dataset, version));
        if blobs is Some {
            assert(cases[5] == blob_case(cfg, dataset, version, blobs->0));
            assert(cases[6] == evolve_case(cfg, dataset, version));
            assert(cases.len() == 7);
        } else {
            assert(cases[5] == evolve_case(cfg, dataset, version));
            assert(cases.len() == 6);
        }
    }
}

/// Every run of a suite does the workload that it is filed under, on one of the chosen datasets,
/// as the user asks for it, and its parameters tell what it does. Lance runs are of a listed file
/// version, which is recorded; all others are of Parquet.
pub proof fn law_runs_do_what_they_say(cfg: SuiteConfig, datasets: Seq<DatasetArg>, i: int)
    requires
        0 <= i < suite_plan(cfg, datasets).len(),
    ensures
        ({
            let case = suite_plan(cfg, datasets)[i];
            &&& datasets.contains(case.dataset)
            &&& does_workload(case.op, case.workload)
            &&& does_as_asked(cfg, case)
            &&& tells_what_it_does(case)
            &&& match case.engine {
                EngineArg::Lance => exists|v: Seq<char>| #[trigger]
                    views(cfg.versions@).contains(v) && records(
                        case.params,
                        "lance_file_version"@,
                        Some(v),
                    ),
                EngineArg::Parquet => records(case.params, "lance_file_version"@, None),
                EngineArg::LanceFragment => false,
            }
        }),
{
    let case = suite_plan(cfg, datasets)[i];
    assert(suite_plan(cfg, datasets).contains(case));
    law_suite_covers_all(cfg, datasets, case);
    let (dataset, version) = choose|dataset: DatasetArg, version: Option<Seq<char>>| #[trigger]
        is_suite_case(cfg, datasets, dataset, version, case);
    lemma_case(cfg, dataset, version, case);
    if let Some(v) = version {
        assert(views(cfg.versions@).contains(v));
    }
}

/// Every run of a suite that reads a stored dataset reads what an ingest of the same dataset, by
/// the same engine and in the same file version, writes.
pub proof fn law_runs_read_their_own_dataset(cfg: SuiteConfig, datasets: Seq<DatasetArg>, i: int)
    requires
        0 <= i < suite_plan(cfg, datasets).len(),
        path_read(suite_plan(cfg, datasets)[i].op) is Some,
    ensures
        exists|j: int|
            0 <= j < suite_plan(cfg, datasets).len() && path_written(
                (#[trigger] suite_plan(cfg, datasets)[j]).op,
            ) == path_read(suite_plan(cfg, datasets)[i].op) && suite_plan(cfg, datasets)[j].dataset
                == suite_plan(cfg, datasets)[i].dataset && suite_plan(cfg, datasets)[j].engine
                == suite_plan(cfg, datasets)[i].engine && suite_plan(
                cfg,
                datasets,
            )[j].op->Ingest_version == if suite_plan(cfg, datasets)[i].params.contains_key(
                "lance_file_version"@,
            ) {
                Some(suite_plan(cfg, datasets)[i].params["lance_file_version"@])
            } else {
                None
            },
{
    let plan = suite_plan(cfg, datasets);
    let case = plan[i];
    assert(plan.contains(case));
    law_suite_covers_all(cfg, datasets, case);
    let (dataset, version) = choose|dataset: DatasetArg, version: Option<Seq<char>>| #[trigger]
        is_suite_case(cfg, datasets, dataset, version, case);
    lemma_case(cfg, dataset, version, case);
    let ingest = ingest_case(cfg, dataset, version);
    assert(is_suite_case(cfg, datasets, dataset, version, ingest));
    law_suite_covers_all(cfg, datasets, ingest);
    let j = choose|j: int| 0 <= j < plan.len() && plan[j] == ingest;
    assert(plan[j] == ingest);
}

/// Every chosen dataset is ingested into Parquet, and into Lance in every listed file version.
pub proof fn law_every_version_is_ingested(
    cfg: SuiteConfig,
    datasets: Seq<DatasetArg>,
    dataset: DatasetArg,
    wanted: Option<Seq<char>>,
)
    requires
        datasets.contains(dataset),
        wanted matches Some(v) ==> views(cfg.versions@).contains(v),
    ensures
        exists|j: int|
            0 <= j < suite_plan(cfg, datasets).len() && (#[trigger] suite_plan(
                cfg,
                datasets,
            )[j]).dataset == dataset && (suite_plan(cfg, datasets)[j].op matches PlannedOp::Ingest {
                version,
                ..
            } && version == wanted),
{
    let plan = suite_plan(cfg, datasets);
    let ingest = ingest_case(cfg, dataset, wanted);
    assert(is_suite_case(cfg, datasets, dataset, wanted, ingest));
    law_suite_covers_all(cfg, datasets, ingest);
    let j = choose|j: int| 0 <= j < plan.len() && plan[j] == ingest;
    assert(plan[j].dataset == dataset);
}

// ---------------------------------------------------------------------------
// How often.
// ---------------------------------------------------------------------------

/// How many runs are of some sort.
pub open spec fn how_many(plan: Seq<PlannedCase>, sort: spec_fn(PlannedCase) -> bool) -> nat
    decreases plan.len(),
{
    if plan.len() == 0 {
        0
    } else {
        how_many(plan.drop_last(), sort) + if sort(plan.last()) {
            1nat
        } else {
            0
        }
    }
}

/// The runs that ingest into a path.
pub open spec fn ingests_into(path: Seq<char>) -> spec_fn(PlannedCase) -> bool {
    |case: PlannedCase| case.op matches PlannedOp::Ingest { out, .. } && out == path
}

/// The runs that scan a path in some mode.
pub open spec fn scans_of(path: Seq<char>, wanted: ScanModeArg) -> spec_fn(PlannedCase) -> bool {
    |case: PlannedCase|
        case.op matches PlannedOp::Scan { path: p, mode, .. } && p == path && mode == wanted
}

/// The runs that measure the size of a path.
pub open spec fn sizes_of(path: Seq<char>) -> spec_fn(PlannedCase) -> bool {
    |case: PlannedCase| case.op matches PlannedOp::Size { path: p } && p == path
}

/// The runs that take random rows of a path.
pub open spec fn takes_of(path: Seq<char>) -> spec_fn(PlannedCase) -> bool {
    |case: PlannedCase| case.op matches PlannedOp::Take { path: p, .. } && p == path
}

/// The runs that add a column to a path.
pub open spec fn evolves_of(path: Seq<char>) -> spec_fn(PlannedCase) -> bool {
    |case: PlannedCase| case.op matches PlannedOp::Evolve { path: p, .. } && p == path
}

/// The runs that read random blobs of a path.
pub open spec fn blobs_of(path: Seq<char>) -> spec_fn(PlannedCase) -> bool {
    |case: PlannedCase| case.op matches PlannedOp::Blob { path: p, .. } && p == path
}

/// The runs that ingest a dataset with blobs into a path.
pub open spec fn blob_ingests_into(path: Seq<char>) -> spec_fn(PlannedCase) -> bool {
    |case: PlannedCase|
        case.op matches PlannedOp::Ingest { out, .. } && out == path && blob_column_of(
            dataset_named(case.dataset),
        ) is Some
}

proof fn lemma_how_many(a: Seq<PlannedCase>, b: Seq<PlannedCase>, sort: spec_fn(PlannedCase) -> bool)
    ensures
        how_many(a + b, sort) == how_many(a, sort) + how_many(b, sort),
    decreases b.len(),
{
    if b.len() == 0 {
        assert(a + b =~= a);
    } else {
        assert((a + b).drop_last() =~= a + b.drop_last());
        lemma_how_many(a, b.drop_last(), sort);
    }
}

/// How many of the runs that read a stored dataset are of some sort.
spec fn of_sort(case: PlannedCase, sort: spec_fn(PlannedCase) -> bool) -> nat {
    if sort(case) {
        1
    } else {
        0
    }
}

proof fn lemma_reading(
    cfg: SuiteConfig,
    dataset: DatasetArg,
    version: Option<Seq<char>>,
    sort: spec_fn(PlannedCase) -> bool,
)
    ensures
        how_many(reading_cases(cfg, dataset, version), sort) == of_sort(
            scan_case(cfg, dataset, version, ScanModeArg::Full),
            sort,
        ) + of_sort(scan_case(cfg, dataset, version, ScanModeArg::Project), sort) + of_sort(
            scan_case(cfg, dataset, version, ScanModeArg::FilterLow),
            sort,
        ) + of_sort(scan_case(cfg, dataset, version, ScanModeArg::FilterHigh), sort) + of_sort(
            take_case(cfg, dataset, version),
            sort,
        ) + (match blob_column_of(dataset_named(dataset)) {
            Some(column) => of_sort(blob_case(cfg, dataset, version, column), sort),
            None => 0,
        }) + of_sort(evolve_case(cfg, dataset, version), sort),
{
    reveal_with_fuel(how_many, 8);
    let scans = seq![
        scan_case(cfg, dataset, version, ScanModeArg::Full),
        scan_case(cfg, dataset, version, ScanModeArg::Project),
        scan_case(cfg, dataset, version, ScanModeArg::FilterLow),
        scan_case(cfg, dataset, version, ScanModeArg::FilterHigh),
        take_case(cfg, dataset, version),
    ];
    let blobs = match blob_column_of(dataset_named(dataset)) {
        Some(column) => seq![blob_case(cfg, dataset, version, column)],
        None => Seq::<PlannedCase>::empty(),
    };
    let last = seq![evolve_case(cfg, dataset, version)];
    lemma_how_many(scans + blobs, last, sort);
    lemma_how_many(scans, blobs, sort);
    let a = scans.drop_last();
    let b = a.drop_last();
    let c = b.drop_last();
    let d = c.drop_last();
    assert(d.drop_last() =~= Seq::<PlannedCase>::empty());
    assert(how_many(last, sort) == of_sort(last[0], sort));
    assert(how_many(scans, sort) == how_many(d.drop_last(), sort) + of_sort(d.last(), sort)
        + of_sort(c.last(), sort) + of_sort(b.last(), sort) + of_sort(a.last(), sort) + of_sort(
        scans.last(),
        sort,
    ));
}

/// Whether so many runs of a dataset in a version are of one sort as its ingest is of another.
spec fn pairs_up(
    cfg: SuiteConfig,
    dataset: DatasetArg,
    version: Option<Seq<char>>,
    sort: spec_fn(PlannedCase) -> bool,
    ingest: spec_fn(PlannedCase) -> bool,
) -> bool {
    &&& of_sort(ingest_case(cfg, dataset, version), ingest) == of_sort(
        size_case(cfg, dataset, version),
        sort,
    ) + how_many(reading_cases(cfg, dataset, version), sort)
    &&& !sort(ingest_case(cfg, dataset, version))
    &&& !ingest(size_case(cfg, dataset, version))
    &&& how_many(reading_cases(cfg, dataset, version), ingest) == 0
}

proof fn lemma_lists(
    cfg: SuiteConfig,
    dataset: DatasetArg,
    versions: Seq<Seq<char>>,
    sort: spec_fn(PlannedCase) -> bool,
    ingest: spec_fn(PlannedCase) -> bool,
)
    requires
        forall|v: Option<Seq<char>>| #[trigger] pairs_up(cfg, dataset, v, sort, ingest),
    ensures
        how_many(ingest_cases(cfg, dataset, versions), ingest) == how_many(
            size_cases(cfg, dataset, versions),
            sort,
        ) + how_many(all_reading_cases(cfg, dataset, versions), sort),
        how_many(ingest_cases(cfg, dataset, versions), sort) == 0,
        how_many(size_cases(cfg, dataset, versions), ingest) == 0,
        how_many(all_reading_cases(cfg, dataset, versions), ingest) == 0,
    decreases versions.len(),
{
    if versions.len() > 0 {
        let front = versions.drop_last();
        let last = Some(versions.last());
        lemma_lists(cfg, dataset, front, sort, ingest);
        assert(ingest_cases(cfg, dataset, versions).drop_last() =~= ingest_cases(
            cfg,
            dataset,
            front,
        ));
        assert(size_cases(cfg, dataset, versions).drop_last() =~= size_cases(cfg, dataset, front));
        assert(pairs_up(cfg, dataset, last, sort, ingest));
        lemma_how_many(
            all_reading_cases(cfg, dataset, front),
            reading_cases(cfg, dataset, last),
            sort,
        );
        lemma_how_many(
            all_reading_cases(cfg, dataset, front),
            reading_cases(cfg, dataset, last),
            ingest,
        );
    }
}

proof fn lemma_plan(
    cfg: SuiteConfig,
    datasets: Seq<DatasetArg>,
    sort: spec_fn(PlannedCase) -> bool,
    ingest: spec_fn(PlannedCase) -> bool,
)
    requires
        forall|d: DatasetArg, v: Option<Seq<char>>| #[trigger] pairs_up(cfg, d, v, sort, ingest),
    ensures
        how_many(suite_plan(cfg, datasets), sort) == how_many(suite_plan(cfg, datasets), ingest),
    decreases datasets.len(),
{
    if datasets.len() > 0 {
        let dataset = datasets.last();
        lemma_plan(cfg, datasets.drop_last(), sort, ingest);
        lemma_dataset(cfg, dataset, sort, ingest);
        lemma_how_many(
            suite_plan(cfg, datasets.drop_last()),
            dataset_plan(cfg, dataset),
            sort,
        );
        lemma_how_many(
            suite_plan(cfg, datasets.drop_last()),
            dataset_plan(cfg, dataset),
            ingest,
        );
    }
}

proof fn lemma_dataset(
    cfg: SuiteConfig,
    dataset: DatasetArg,
    sort: spec_fn(PlannedCase) -> bool,
    ingest: spec_fn(PlannedCase) -> bool,
)
    requires
        forall|v: Option<Seq<char>>| #[trigger] pairs_up(cfg, dataset, v, sort, ingest),
    ensures
        how_many(dataset_plan(cfg, dataset), sort) == how_many(dataset_plan(cfg, dataset), ingest),
{
    let versions = views(cfg.versions@);
    let a = seq![ingest_case(cfg, dataset, None)];
    let b = ingest_cases(cfg, dataset, versions);
    let c = seq![size_case(cfg, dataset, None)];
    let d = size_cases(cfg, dataset, versions);
    let e = reading_cases(cfg, dataset, None);
    let f = all_reading_cases(cfg, dataset, versions);
    lemma_lists(cfg, dataset, versions, sort, ingest);
    assert(pairs_up(cfg, dataset, None, sort, ingest));
    lemma_how_many(a, b, sort);
    lemma_how_many(a + b, c, sort);
    lemma_how_many(a + b + c, d, sort);
    lemma_how_many(a + b + c + d, e, sort);
    lemma_how_many(a + b + c + d + e, f, sort);
    lemma_how_many(a, b, ingest);
    lemma_how_many(a + b, c, ingest);
    lemma_how_many(a + b + c, d, ingest);
    lemma_how_many(a + b + c + d, e, ingest);
    lemma_how_many(a + b + c + d + e, f, ingest);
    assert(a.drop_last() =~= Seq::<PlannedCase>::empty());
    assert(c.drop_last() =~= Seq::<PlannedCase>::empty());
    reveal_with_fuel(how_many, 2);
}

/// A suite scans what it ingests once in every mode, measures its size once, takes random rows of
/// it once and adds a column to it once. It reads random blobs once where the dataset has some, and
/// else not at all.
pub proof fn law_everything_runs_once(
    cfg: SuiteConfig,
    datasets: Seq<DatasetArg>,
    path: Seq<char>,
    mode: ScanModeArg,
)
    ensures
        ({
            let plan = suite_plan(cfg, datasets);
            let times = how_many(plan, ingests_into(path));
            &&& how_many(plan, scans_of(path, mode)) == times
            &&& how_many(plan, sizes_of(path)) == times
            &&& how_many(plan, takes_of(path)) == times
            &&& how_many(plan, evolves_of(path)) == times
            &&& how_many(plan, blobs_of(path)) == how_many(plan, blob_ingests_into(path))
        }),
{
    let (ingest, blob_ingest) = (ingests_into(path), blob_ingests_into(path));
    assert forall|d: DatasetArg, v: Option<Seq<char>>| #[trigger]
        pairs_up(cfg, d, v, scans_of(path, mode), ingest) by {
        lemma_reading(cfg, d, v, scans_of(path, mode));
        lemma_reading(cfg, d, v, ingest);
    }
    assert forall|d: DatasetArg, v: Option<Seq<char>>| #[trigger]
        pairs_up(cfg, d, v, sizes_of(path), ingest) by {
        lemma_reading(cfg, d, v, sizes_of(path));
        lemma_reading(cfg, d, v, ingest);
    }
    assert forall|d: DatasetArg, v: Option<Seq<char>>| #[trigger]
        pairs_up(cfg, d, v, takes_of(path), ingest) by {
        lemma_reading(cfg, d, v, takes_of(path));
        lemma_reading(cfg, d, v, ingest);
    }
    assert forall|d: DatasetArg, v: Option<Seq<char>>| #[trigger]
        pairs_up(cfg, d, v, evolves_of(path), ingest) by {
        lemma_reading(cfg, d, v, evolves_of(path));
        lemma_reading(cfg, d, v, ingest);
    }
    assert forall|d: DatasetArg, v: Option<Seq<char>>| #[trigger]
        pairs_up(cfg, d, v, blobs_of(path), blob_ingest) by {
        lemma_reading(cfg, d, v, blobs_of(path));
        lemma_reading(cfg, d, v, blob_ingest);
    }
    lemma_plan(cfg, datasets, scans_of(path, mode), ingest);
    lemma_plan(cfg, datasets, sizes_of(path), ingest);
    lemma_plan(cfg, datasets, takes_of(path), ingest);
    lemma_plan(cfg, datasets, evolves_of(path), ingest);
    lemma_plan(cfg, datasets, blobs_of(path), blob_ingest);
}

} // verus!
