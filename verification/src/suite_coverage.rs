//! What a suite runs: every workload of every dataset and version, and nothing else.
use vstd::prelude::*;

use crate::args::{blob_column_of, dataset_named, DatasetArg};
use crate::suite::{
    all_reading_cases, dataset_plan, ingest_case, ingest_cases, reading_cases, size_case,
    size_cases, suite_plan, PlannedCase, SuiteConfig,
};
use crate::suite_laws::is_stored;
use crate::text::views;
use crate::workload::Workload;

verus! {

/// Whether a run is one of those of a dataset in a version: its ingest, its size, or one that
/// reads it.
pub open spec fn is_case_of(
    cfg: SuiteConfig,
    dataset: DatasetArg,
    version: Option<Seq<char>>,
    case: PlannedCase,
) -> bool {
    ||| case == ingest_case(cfg, dataset, version)
    ||| case == size_case(cfg, dataset, version)
    ||| reading_cases(cfg, dataset, version).contains(case)
}

/// Whether a run is one of those of a chosen dataset in a stored version.
pub open spec fn is_suite_case(
    cfg: SuiteConfig,
    datasets: Seq<DatasetArg>,
    dataset: DatasetArg,
    version: Option<Seq<char>>,
    case: PlannedCase,
) -> bool {
    datasets.contains(dataset) && is_stored(cfg, version) && is_case_of(cfg, dataset, version, case)
}

proof fn lemma_parts(a: Seq<PlannedCase>, b: Seq<PlannedCase>, case: PlannedCase)
    ensures
        (a + b).contains(case) <==> a.contains(case) || b.contains(case),
{
    if a.contains(case) {
        let i = choose|i: int| 0 <= i < a.len() && a[i] == case;
        assert((a + b)[i] == case);
    }
    if b.contains(case) {
        let i = choose|i: int| 0 <= i < b.len() && b[i] == case;
        assert((a + b)[a.len() + i] == case);
    }
    if (a + b).contains(case) {
        let i = choose|i: int| 0 <= i < (a + b).len() && (a + b)[i] == case;
        if i < a.len() {
            assert(a[i] == case);
        } else {
            assert(b[i - a.len()] == case);
        }
    }
}

/// Whether a run reads a dataset in one of some versions.
spec fn reads_one_of(
    cfg: SuiteConfig,
    dataset: DatasetArg,
    versions: Seq<Seq<char>>,
    case: PlannedCase,
) -> bool {
    exists|k: int|
        0 <= k < versions.len() && reading_cases(cfg, dataset, Some(#[trigger] versions[k])).contains(
            case,
        )
}

proof fn lemma_all_reading(
    cfg: SuiteConfig,
    dataset: DatasetArg,
    versions: Seq<Seq<char>>,
    case: PlannedCase,
)
    ensures
        all_reading_cases(cfg, dataset, versions).contains(case) <==> reads_one_of(
            cfg,
            dataset,
            versions,
            case,
        ),
    decreases versions.len(),
{
    if versions.len() > 0 {
        let front = versions.drop_last();
        let n = front.len() as int;
        lemma_all_reading(cfg, dataset, front, case);
        lemma_parts(
            all_reading_cases(cfg, dataset, front),
            reading_cases(cfg, dataset, Some(versions.last())),
            case,
        );
        if reads_one_of(cfg, dataset, front, case) {
            let k = choose|k: int|
                0 <= k < front.len() && reading_cases(
                    cfg,
                    dataset,
                    Some(#[trigger] front[k]),
                ).contains(case);
            assert(versions[k] == front[k]);
        }
        if reads_one_of(cfg, dataset, versions, case) {
            let k = choose|k: int|
                0 <= k < versions.len() && reading_cases(
                    cfg,
                    dataset,
                    Some(#[trigger] versions[k]),
                ).contains(case);
            if k < n {
                assert(front[k] == versions[k]);
            } else {
                assert(versions[k] == versions.last());
            }
        }
        if reading_cases(cfg, dataset, Some(versions.last())).contains(case) {
            assert(versions[n] == versions.last());
        }
    }
}

/// The runs of one dataset are those of its stored versions.
proof fn lemma_dataset_plan(cfg: SuiteConfig, dataset: DatasetArg, case: PlannedCase)
    ensures
        dataset_plan(cfg, dataset).contains(case) <==> exists|version: Option<Seq<char>>|
            is_stored(cfg, version) && #[trigger] is_case_of(cfg, dataset, version, case),
{
    let versions = views(cfg.versions@);
    let first = seq![ingest_case(cfg, dataset, None)];
    let ingests = ingest_cases(cfg, dataset, versions);
    let size = seq![size_case(cfg, dataset, None)];
    let sizes = size_cases(cfg, dataset, versions);
    let reads = reading_cases(cfg, dataset, None);
    let others = all_reading_cases(cfg, dataset, versions);
    lemma_parts(first, ingests, case);
    lemma_parts(first + ingests, size, case);
    lemma_parts(first + ingests + size, sizes, case);
    lemma_parts(first + ingests + size + sizes, reads, case);
    lemma_parts(first + ingests + size + sizes + reads, others, case);
    lemma_all_reading(cfg, dataset, versions, case);
    assert(first[0] == ingest_case(cfg, dataset, None));
    assert(size[0] == size_case(cfg, dataset, None));
    if dataset_plan(cfg, dataset).contains(case) {
        if first.contains(case) || size.contains(case) || reads.contains(case) {
            assert(is_stored(cfg, None) && is_case_of(cfg, dataset, None, case));
        } else if ingests.contains(case) {
            let k = choose|k: int| 0 <= k < ingests.len() && ingests[k] == case;
            assert(versions.contains(versions[k]));
            assert(is_stored(cfg, Some(versions[k])) && is_case_of(
                cfg,
                dataset,
                Some(versions[k]),
                case,
            ));
        } else if sizes.contains(case) {
            let k = choose|k: int| 0 <= k < sizes.len() && sizes[k] == case;
            assert(versions.contains(versions[k]));
            assert(is_stored(cfg, Some(versions[k])) && is_case_of(
                cfg,
                dataset,
                Some(versions[k]),
                case,
            ));
        } else {
            let k = choose|k: int|
                0 <= k < versions.len() && reading_cases(
                    cfg,
                    dataset,
                    Some(#[trigger] versions[k]),
                ).contains(case);
            assert(versions.contains(versions[k]));
            assert(is_stored(cfg, Some(versions[k])) && is_case_of(
                cfg,
                dataset,
                Some(versions[k]),
                case,
            ));
        }
    }
    assert forall|version: Option<Seq<char>>|
        is_stored(cfg, version) && #[trigger] is_case_of(cfg, dataset, version, case) implies
        dataset_plan(cfg, dataset).contains(case) by {
        if let Some(v) = version {
            let k = choose|k: int| 0 <= k < versions.len() && versions[k] == v;
            assert(ingests[k] == ingest_case(cfg, dataset, version));
            assert(sizes[k] == size_case(cfg, dataset, version));
            if reading_cases(cfg, dataset, version).contains(case) {
                assert(reading_cases(cfg, dataset, Some(versions[k])).contains(case));
            }
        }
    }
}

/// A suite runs, for every chosen dataset, in Parquet and in every listed version of Lance, the
/// ingest, the size measurement and all reading runs; and it runs nothing else.
pub proof fn law_suite_covers_all(cfg: SuiteConfig, datasets: Seq<DatasetArg>, case: PlannedCase)
    ensures
        suite_plan(cfg, datasets).contains(case) <==> exists|
            dataset: DatasetArg,
            version: Option<Seq<char>>,
        | #[trigger] is_suite_case(cfg, datasets, dataset, version, case),
    decreases datasets.len(),
{
    if datasets.len() > 0 {
        let front = datasets.drop_last();
        let last = datasets.last();
        law_suite_covers_all(cfg, front, case);
        lemma_parts(suite_plan(cfg, front), dataset_plan(cfg, last), case);
        lemma_dataset_plan(cfg, last, case);
        if suite_plan(cfg, front).contains(case) {
            let (dataset, version) = choose|dataset: DatasetArg, version: Option<Seq<char>>|
                #[trigger] is_suite_case(cfg, front, dataset, version, case);
            let k = choose|k: int| 0 <= k < front.len() && front[k] == dataset;
            assert(datasets[k] == dataset);
            assert(is_suite_case(cfg, datasets, dataset, version, case));
        }
        if dataset_plan(cfg, last).contains(case) {
            let version = choose|version: Option<Seq<char>>|
                is_stored(cfg, version) && #[trigger] is_case_of(cfg, last, version, case);
            assert(datasets[datasets.len() - 1] == last);
            assert(is_suite_case(cfg, datasets, last, version, case));
        }
        assert forall|dataset: DatasetArg, version: Option<Seq<char>>| #[trigger]
            is_suite_case(cfg, datasets, dataset, version, case) implies suite_plan(
            cfg,
            datasets,
        ).contains(case) by {
            let k = choose|k: int| 0 <= k < datasets.len() && datasets[k] == dataset;
            if k < front.len() {
                assert(front[k] == dataset);
                assert(is_suite_case(cfg, front, dataset, version, case));
            } else {
                assert(dataset == last);
                assert(is_case_of(cfg, last, version, case));
            }
        }
    }
}

/// The suite reads random blobs of exactly those datasets that have a blob column.
pub proof fn law_blobs_are_read_where_they_are(
    cfg: SuiteConfig,
    dataset: DatasetArg,
    version: Option<Seq<char>>,
)
    ensures
        (exists|k: int|
            0 <= k < reading_cases(cfg, dataset, version).len() && (#[trigger] reading_cases(
                cfg,
                dataset,
                version,
            )[k]).workload == Workload::RandomBlob) <==> blob_column_of(dataset_named(dataset)) is Some,
{
    let cases = reading_cases(cfg, dataset, version);
    if blob_column_of(dataset_named(dataset)) is Some {
        assert(cases[5].workload == Workload::RandomBlob);
    } else {
        assert(cases.len() == 6);
    }
}

} // verus!
