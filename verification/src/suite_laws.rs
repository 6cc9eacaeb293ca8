//! What holds of every suite.
use vstd::prelude::*;

use crate::args::{dataset_id, DatasetArg, ScanModeArg};
use crate::identity::law_current_run_round_trip;
use crate::numbers::decimal;
use crate::paths::{path_join, run_subdir, word_of};
use crate::runs::filter_words;
use crate::scans::scan_bound;
use crate::schemas::BENCH_SMALL_U64;
use crate::suite::{
    all_reading_cases, dataset_plan, engine_for, engine_tag, ingest_case, ingest_cases,
    reading_cases, size_case, size_cases, suite_datasets, suite_filter, suite_limit, suite_plan,
    PlannedCase, PlannedOp, SuiteConfig,
};
use crate::text::{replaced, trimmed, views};
use crate::workload::Workload;

verus! {

/// The stored dataset that a run writes.
pub open spec fn path_written(op: PlannedOp) -> Option<Seq<char>> {
    match op {
        PlannedOp::Ingest { out, .. } => Some(out),
        _ => None,
    }
}

/// The stored dataset that a run reads.
pub open spec fn path_read(op: PlannedOp) -> Option<Seq<char>> {
    match op {
        PlannedOp::Ingest { .. } => None,
        PlannedOp::Size { path } => Some(path),
        PlannedOp::Scan { path, .. } => Some(path),
        PlannedOp::Take { path, .. } => Some(path),
        PlannedOp::Blob { path, .. } => Some(path),
        PlannedOp::Evolve { path, .. } => Some(path),
    }
}

/// The stored dataset that a run writes or reads.
pub open spec fn path_used(op: PlannedOp) -> Seq<char> {
    match path_written(op) {
        Some(path) => path,
        None => path_read(op)->0,
    }
}

/// Whether some run before a place writes a stored dataset.
pub open spec fn written_before(plan: Seq<PlannedCase>, at: int, path: Seq<char>) -> bool {
    exists|j: int| 0 <= j < at && path_written((#[trigger] plan[j]).op) == Some(path)
}

/// Whether every run reads only what an earlier one writes.
pub open spec fn reads_what_was_written(plan: Seq<PlannedCase>) -> bool {
    forall|i: int|
        0 <= i < plan.len() && path_read((#[trigger] plan[i]).op) is Some ==> written_before(
            plan,
            i,
            path_read(plan[i].op)->0,
        )
}

proof fn lemma_written_later(plan: Seq<PlannedCase>, more: Seq<PlannedCase>, at: int, to: int, path: Seq<char>)
    requires
        written_before(plan, at, path),
        at <= plan.len(),
        at <= to,
    ensures
        written_before(plan + more, to, path),
{
    let j = choose|j: int| 0 <= j < at && path_written((#[trigger] plan[j]).op) == Some(path);
    assert((plan + more)[j] == plan[j]);
}

/// More runs that read what the first ones write.
proof fn lemma_append(plan: Seq<PlannedCase>, more: Seq<PlannedCase>)
    requires
        reads_what_was_written(plan),
        forall|i: int|
            0 <= i < more.len() && path_read((#[trigger] more[i]).op) is Some ==> written_before(
                plan,
                plan.len() as int,
                path_read(more[i].op)->0,
            ),
    ensures
        reads_what_was_written(plan + more),
{
    let all = plan + more;
    assert forall|i: int|
        0 <= i < all.len() && path_read((#[trigger] all[i]).op) is Some implies written_before(
        all,
        i,
        path_read(all[i].op)->0,
    ) by {
        if i < plan.len() {
            assert(all[i] == plan[i]);
            lemma_written_later(plan, more, i, i, path_read(all[i].op)->0);
        } else {
            assert(all[i] == more[i - plan.len()]);
            lemma_written_later(plan, more, plan.len() as int, i, path_read(all[i].op)->0);
        }
    }
}

/// Two plans one after the other.
proof fn lemma_follow(plan: Seq<PlannedCase>, next: Seq<PlannedCase>)
    requires
        reads_what_was_written(plan),
        reads_what_was_written(next),
    ensures
        reads_what_was_written(plan + next),
{
    let all = plan + next;
    assert forall|i: int|
        0 <= i < all.len() && path_read((#[trigger] all[i]).op) is Some implies written_before(
        all,
        i,
        path_read(all[i].op)->0,
    ) by {
        let path = path_read(all[i].op)->0;
        if i < plan.len() {
            assert(all[i] == plan[i]);
            lemma_written_later(plan, next, i, i, path);
        } else {
            let k = i - plan.len();
            assert(all[i] == next[k]);
            assert(written_before(next, k, path));
            let j = choose|j: int| 0 <= j < k && path_written((#[trigger] next[j]).op) == Some(
                path,
            );
            assert(all[j + plan.len()] == next[j]);
        }
    }
}

/// Whether a run uses the stored dataset of a version.
spec fn uses(cfg: SuiteConfig, dataset: DatasetArg, version: Option<Seq<char>>, case: PlannedCase) -> bool {
    &&& path_used(case.op) == cfg.data_path(dataset, version)
    &&& case.dataset == dataset
    &&& case.engine == engine_for(version)
    &&& case.result_out == cfg.result_path(kind_of(case.workload), dataset, version)
}

/// The name of a workload in file names.
pub open spec fn kind_of(workload: Workload) -> Seq<char> {
    match workload {
        Workload::Ingest => "ingest"@,
        Workload::ScanFull => "scan-full"@,
        Workload::ScanProject => "scan-project"@,
        Workload::ScanFilterLow => "scan-filter-low"@,
        Workload::ScanFilterHigh => "scan-filter-high"@,
        Workload::RandomTake => "take"@,
        Workload::RandomBlob => "blob"@,
        Workload::EvolutionBackfill => "evolve"@,
        Workload::Size => "size"@,
    }
}

/// Whether a version is stored: Parquet, or one of the file versions of Lance.
pub open spec fn is_stored(cfg: SuiteConfig, version: Option<Seq<char>>) -> bool {
    match version {
        Some(v) => views(cfg.versions@).contains(v),
        None => true,
    }
}

/// Whether every run uses a stored dataset, and only reads it.
spec fn all_read(cfg: SuiteConfig, dataset: DatasetArg, plan: Seq<PlannedCase>) -> bool {
    forall|i: int| 0 <= i < plan.len() ==> reads_stored(cfg, dataset, #[trigger] plan[i])
}

spec fn reads_stored(cfg: SuiteConfig, dataset: DatasetArg, case: PlannedCase) -> bool {
    &&& path_read(case.op) is Some
    &&& exists|version: Option<Seq<char>>|
        is_stored(cfg, version) && #[trigger] uses(cfg, dataset, version, case)
}

proof fn lemma_reading(cfg: SuiteConfig, dataset: DatasetArg, version: Option<Seq<char>>)
    requires
        is_stored(cfg, version),
    ensures
        all_read(cfg, dataset, reading_cases(cfg, dataset, version)),
{
    let plan = reading_cases(cfg, dataset, version);
    assert forall|i: int| 0 <= i < plan.len() implies reads_stored(
        cfg,
        dataset,
        #[trigger] plan[i],
    ) by {
        assert(uses(cfg, dataset, version, plan[i]));
    }
}

proof fn lemma_all_reading(cfg: SuiteConfig, dataset: DatasetArg, versions: Seq<Seq<char>>)
    requires
        forall|i: int| 0 <= i < versions.len() ==> is_stored(cfg, Some(#[trigger] versions[i])),
    ensures
        all_read(cfg, dataset, all_reading_cases(cfg, dataset, versions)),
    decreases versions.len(),
{
    if versions.len() > 0 {
        let front = versions.drop_last();
        assert forall|i: int| 0 <= i < front.len() implies is_stored(
            cfg,
            Some(#[trigger] front[i]),
        ) by {
            assert(front[i] == versions[i]);
        }
        lemma_all_reading(cfg, dataset, front);
        assert(is_stored(cfg, Some(versions[versions.len() - 1])));
        lemma_reading(cfg, dataset, Some(versions.last()));
        let a = all_reading_cases(cfg, dataset, front);
        let b = reading_cases(cfg, dataset, Some(versions.last()));
        assert forall|i: int| 0 <= i < (a + b).len() implies reads_stored(
            cfg,
            dataset,
            #[trigger] (a + b)[i],
        ) by {
            if i < a.len() {
                assert((a + b)[i] == a[i]);
            } else {
                assert((a + b)[i] == b[i - a.len()]);
            }
        }
    }
}

/// The runs of a dataset that write it.
spec fn writers(cfg: SuiteConfig, dataset: DatasetArg) -> Seq<PlannedCase> {
    seq![ingest_case(cfg, dataset, None)] + ingest_cases(cfg, dataset, views(cfg.versions@))
}

/// The runs of a dataset that read it.
spec fn readers(cfg: SuiteConfig, dataset: DatasetArg) -> Seq<PlannedCase> {
    let versions = views(cfg.versions@);
    seq![size_case(cfg, dataset, None)] + size_cases(cfg, dataset, versions) + reading_cases(
        cfg,
        dataset,
        None,
    ) + all_reading_cases(cfg, dataset, versions)
}

proof fn lemma_split(cfg: SuiteConfig, dataset: DatasetArg)
    ensures
        dataset_plan(cfg, dataset) == writers(cfg, dataset) + readers(cfg, dataset),
{
    assert(dataset_plan(cfg, dataset) =~= writers(cfg, dataset) + readers(cfg, dataset));
}

proof fn lemma_readers(cfg: SuiteConfig, dataset: DatasetArg)
    ensures
        all_read(cfg, dataset, readers(cfg, dataset)),
{
    let versions = views(cfg.versions@);
    assert forall|i: int| 0 <= i < versions.len() implies is_stored(
        cfg,
        Some(#[trigger] versions[i]),
    ) by {
        assert(versions.contains(versions[i]));
    }
    lemma_all_reading(cfg, dataset, versions);
    lemma_reading(cfg, dataset, None);
    let all = readers(cfg, dataset);
    let a = seq![size_case(cfg, dataset, None)];
    let b = size_cases(cfg, dataset, versions);
    let c = reading_cases(cfg, dataset, None);
    let d = all_reading_cases(cfg, dataset, versions);
    assert forall|i: int| 0 <= i < all.len() implies reads_stored(cfg, dataset, #[trigger] all[i]) by {
        if i < 1 {
            assert(all[i] == a[i]);
            assert(uses(cfg, dataset, None, all[i]));
        } else if i < 1 + b.len() {
            assert(all[i] == b[i - 1]);
            assert(is_stored(cfg, Some(versions[i - 1])));
            assert(uses(cfg, dataset, Some(versions[i - 1]), all[i]));
        } else if i < 1 + b.len() + c.len() {
            assert(all[i] == c[i - 1 - b.len()]);
        } else {
            assert(all[i] == d[i - 1 - b.len() - c.len()]);
        }
    }
}

proof fn lemma_writers(cfg: SuiteConfig, dataset: DatasetArg, version: Option<Seq<char>>)
    requires
        is_stored(cfg, version),
    ensures
        written_before(
            writers(cfg, dataset),
            writers(cfg, dataset).len() as int,
            cfg.data_path(dataset, version),
        ),
{
    let all = writers(cfg, dataset);
    let versions = views(cfg.versions@);
    match version {
        None => {
            assert(path_written(all[0].op) == Some(cfg.data_path(dataset, version)));
        },
        Some(v) => {
            let k = choose|k: int| 0 <= k < versions.len() && versions[k] == v;
            assert(all[k + 1] == ingest_cases(cfg, dataset, versions)[k]);
            assert(path_written(all[k + 1].op) == Some(cfg.data_path(dataset, version)));
        },
    }
}

proof fn lemma_dataset_plan(cfg: SuiteConfig, dataset: DatasetArg)
    ensures
        reads_what_was_written(dataset_plan(cfg, dataset)),
{
    lemma_split(cfg, dataset);
    lemma_readers(cfg, dataset);
    let a = writers(cfg, dataset);
    let b = readers(cfg, dataset);
    assert forall|i: int| 0 <= i < a.len() implies path_read((#[trigger] a[i]).op) is None by {
        if i > 0 {
            assert(a[i] == ingest_cases(cfg, dataset, views(cfg.versions@))[i - 1]);
        }
    }
    assert forall|i: int|
        0 <= i < b.len() && path_read((#[trigger] b[i]).op) is Some implies written_before(
        a,
        a.len() as int,
        path_read(b[i].op)->0,
    ) by {
        assert(reads_stored(cfg, dataset, b[i]));
        let version = choose|version: Option<Seq<char>>|
            is_stored(cfg, version) && #[trigger] uses(cfg, dataset, version, b[i]);
        lemma_writers(cfg, dataset, version);
    }
    lemma_append(a, b);
}

/// Every run of a suite that reads a stored dataset comes after the ingest that writes it.
pub proof fn law_reads_follow_ingests(cfg: SuiteConfig, datasets: Seq<DatasetArg>)
    ensures
        reads_what_was_written(suite_plan(cfg, datasets)),
    decreases datasets.len(),
{
    if datasets.len() > 0 {
        law_reads_follow_ingests(cfg, datasets.drop_last());
        lemma_dataset_plan(cfg, datasets.last());
        lemma_follow(
            suite_plan(cfg, datasets.drop_last()),
            dataset_plan(cfg, datasets.last()),
        );
    }
}

// ---------------------------------------------------------------------------
// Result files.
// ---------------------------------------------------------------------------

/// Whether a text has no dot.
spec fn dotless(s: Seq<char>) -> bool {
    forall|i: int| 0 <= i < s.len() ==> #[trigger] s[i] != '.'
}

proof fn lemma_up_to_dot(a: Seq<char>, b: Seq<char>, x: Seq<char>, y: Seq<char>)
    requires
        dotless(a),
        dotless(b),
        a + seq!['.'] + x == b + seq!['.'] + y,
    ensures
        a == b,
        x == y,
{
    let left = a + seq!['.'] + x;
    let right = b + seq!['.'] + y;
    assert(left[a.len() as int] == '.');
    assert(right[b.len() as int] == '.');
    if a.len() < b.len() {
        assert(right[a.len() as int] == b[a.len() as int]);
        assert(false);
    }
    if b.len() < a.len() {
        assert(left[b.len() as int] == a[b.len() as int]);
        assert(false);
    }
    assert forall|i: int| 0 <= i < a.len() implies a[i] == b[i] by {
        assert(left[i] == a[i]);
        assert(right[i] == b[i]);
    }
    assert(a =~= b);
    assert(left.len() == right.len());
    assert forall|i: int| 0 <= i < x.len() implies x[i] == y[i] by {
        assert(left[a.len() + 1 + i] == x[i]);
        assert(right[a.len() + 1 + i] == y[i]);
    }
    assert(x =~= y);
}

proof fn lemma_kinds(a: Workload, b: Workload)
    ensures
        dotless(kind_of(a)),
        kind_of(a).len() > 0,
        kind_of(a)[0] != '/',
        kind_of(a) == kind_of(b) ==> a == b,
{
    reveal_strlit("ingest");
    reveal_strlit("scan-full");
    reveal_strlit("scan-project");
    reveal_strlit("scan-filter-low");
    reveal_strlit("scan-filter-high");
    reveal_strlit("take");
    reveal_strlit("blob");
    reveal_strlit("evolve");
    reveal_strlit("size");
    if kind_of(a) == kind_of(b) {
        assert(kind_of(a).len() == kind_of(b).len());
        assert(kind_of(a)[0] == kind_of(b)[0]);
        assert(kind_of(a)[1] == kind_of(b)[1]);
    }
}

proof fn lemma_ids(a: DatasetArg, b: DatasetArg)
    ensures
        dotless(dataset_id(a)),
        dataset_id(a) == dataset_id(b) ==> a == b,
{
    reveal_strlit("laion10m");
    reveal_strlit("openvid");
    reveal_strlit("fineweb");
    reveal_strlit("lerobot-pusht");
    reveal_strlit("lerobot-pusht_image");
    if dataset_id(a) == dataset_id(b) {
        assert(dataset_id(a).len() == dataset_id(b).len());
        assert(dataset_id(a)[0] == dataset_id(b)[0]);
    }
}

proof fn lemma_tags(a: Option<Seq<char>>, b: Option<Seq<char>>)
    requires
        engine_tag(a) == engine_tag(b),
    ensures
        engine_for(a) == engine_for(b),
{
    reveal_strlit("lance.v");
    reveal_strlit("parquet");
    assert(engine_tag(a)[0] == if a is Some {
        'l'
    } else {
        'p'
    });
    assert(engine_tag(b)[0] == if b is Some {
        'l'
    } else {
        'p'
    });
}

proof fn lemma_join_injective(base: Seq<char>, a: Seq<char>, b: Seq<char>)
    requires
        a.len() > 0,
        a[0] != '/',
        b.len() > 0,
        b[0] != '/',
        path_join(base, a) == path_join(base, b),
    ensures
        a == b,
{
    let head = if base.len() == 0 || base.last() == '/' {
        base
    } else {
        base + "/"@
    };
    assert(path_join(base, a) =~= head + a);
    assert(path_join(base, b) =~= head + b);
    assert((head + a).len() == (head + b).len());
    assert forall|i: int| 0 <= i < a.len() implies a[i] == b[i] by {
        assert((head + a)[head.len() + i] == a[i]);
        assert((head + b)[head.len() + i] == b[i]);
    }
    assert(a =~= b);
}

/// A result file tells the workload, the dataset, the engine and the tag of the version.
proof fn lemma_result_path(
    cfg: SuiteConfig,
    w1: Workload,
    d1: DatasetArg,
    v1: Option<Seq<char>>,
    w2: Workload,
    d2: DatasetArg,
    v2: Option<Seq<char>>,
)
    requires
        cfg.result_path(kind_of(w1), d1, v1) == cfg.result_path(kind_of(w2), d2, v2),
    ensures
        w1 == w2,
        d1 == d2,
        engine_tag(v1) == engine_tag(v2),
        engine_for(v1) == engine_for(v2),
        cfg.data_path(d1, v1) == cfg.data_path(d2, v2),
{
    reveal_strlit(".");
    reveal_strlit(".json");
    assert("."@ =~= seq!['.']);
    lemma_kinds(w1, w2);
    lemma_kinds(w2, w1);
    lemma_ids(d1, d2);
    lemma_ids(d2, d1);
    let base = path_join(cfg.run_root(), "json"@);
    let tail1 = engine_tag(v1) + ".json"@;
    let tail2 = engine_tag(v2) + ".json"@;
    let rest1 = dataset_id(d1) + seq!['.'] + tail1;
    let rest2 = dataset_id(d2) + seq!['.'] + tail2;
    let name1 = kind_of(w1) + "."@ + dataset_id(d1) + "."@ + engine_tag(v1) + ".json"@;
    let name2 = kind_of(w2) + "."@ + dataset_id(d2) + "."@ + engine_tag(v2) + ".json"@;
    assert(name1[0] == kind_of(w1)[0]);
    assert(name2[0] == kind_of(w2)[0]);
    lemma_join_injective(base, name1, name2);
    assert(name1 =~= kind_of(w1) + seq!['.'] + rest1);
    assert(name2 =~= kind_of(w2) + seq!['.'] + rest2);
    lemma_up_to_dot(kind_of(w1), kind_of(w2), rest1, rest2);
    lemma_up_to_dot(dataset_id(d1), dataset_id(d2), tail1, tail2);
    assert(engine_tag(v1) =~= tail1.take(tail1.len() - 5));
    assert(engine_tag(v2) =~= tail2.take(tail2.len() - 5));
    lemma_tags(v1, v2);
}

/// Whether a run uses the stored dataset of some version.
spec fn placed(cfg: SuiteConfig, case: PlannedCase) -> bool {
    exists|version: Option<Seq<char>>| #[trigger] uses(cfg, case.dataset, version, case)
}

proof fn lemma_placed(cfg: SuiteConfig, datasets: Seq<DatasetArg>, i: int)
    requires
        0 <= i < suite_plan(cfg, datasets).len(),
    ensures
        placed(cfg, suite_plan(cfg, datasets)[i]),
    decreases datasets.len(),
{
    let front = suite_plan(cfg, datasets.drop_last());
    if i < front.len() {
        lemma_placed(cfg, datasets.drop_last(), i);
        assert(suite_plan(cfg, datasets)[i] == front[i]);
    } else {
        let dataset = datasets.last();
        let k = i - front.len();
        let case = dataset_plan(cfg, dataset)[k];
        assert(suite_plan(cfg, datasets)[i] == case);
        lemma_split(cfg, dataset);
        let a = writers(cfg, dataset);
        let b = readers(cfg, dataset);
        if k == 0 {
            assert(case == a[0]);
            assert(uses(cfg, dataset, None, case));
        } else if k < a.len() {
            let versions = views(cfg.versions@);
            assert(case == ingest_cases(cfg, dataset, versions)[k - 1]);
            assert(uses(cfg, dataset, Some(versions[k - 1]), case));
        } else {
            lemma_readers(cfg, dataset);
            assert(case == b[k - a.len()]);
            assert(reads_stored(cfg, dataset, case));
            let version = choose|version: Option<Seq<char>>|
                is_stored(cfg, version) && #[trigger] uses(cfg, dataset, version, case);
            assert(uses(cfg, dataset, version, case));
        }
    }
}

/// Two runs of a suite share a result file only where they are the same workload of the same
/// engine on the same stored dataset.
pub proof fn law_result_files_are_apart(
    cfg: SuiteConfig,
    datasets: Seq<DatasetArg>,
    i: int,
    j: int,
)
    requires
        0 <= i < suite_plan(cfg, datasets).len(),
        0 <= j < suite_plan(cfg, datasets).len(),
        suite_plan(cfg, datasets)[i].result_out == suite_plan(cfg, datasets)[j].result_out,
    ensures
        suite_plan(cfg, datasets)[i].workload == suite_plan(cfg, datasets)[j].workload,
        suite_plan(cfg, datasets)[i].dataset == suite_plan(cfg, datasets)[j].dataset,
        suite_plan(cfg, datasets)[i].engine == suite_plan(cfg, datasets)[j].engine,
        path_used(suite_plan(cfg, datasets)[i].op) == path_used(suite_plan(cfg, datasets)[j].op),
{
    let a = suite_plan(cfg, datasets)[i];
    let b = suite_plan(cfg, datasets)[j];
    lemma_placed(cfg, datasets, i);
    lemma_placed(cfg, datasets, j);
    let v = choose|version: Option<Seq<char>>| #[trigger] uses(cfg, a.dataset, version, a);
    let w = choose|version: Option<Seq<char>>| #[trigger] uses(cfg, b.dataset, version, b);
    lemma_result_path(cfg, a.workload, a.dataset, v, b.workload, b.dataset, w);
}

// ---------------------------------------------------------------------------
// Finding the results again.
// ---------------------------------------------------------------------------

/// Reports and plots read by default what the last suite wrote: with the default place for
/// results, the directory below that of the run.
pub proof fn law_last_suite_is_current(cfg: SuiteConfig, subdir: Seq<char>, fallback: Seq<char>)
    requires
        cfg.out_root@ == "results"@,
        trimmed(cfg.run_id@) == cfg.run_id@,
        cfg.run_id@.len() > 0,
    ensures
        run_subdir(Some(cfg.run_id@ + "\n"@), subdir, fallback) == path_join(
            cfg.run_root(),
            subdir,
        ),
{
    law_current_run_round_trip(cfg.run_id@);
    assert(word_of(Some(cfg.run_id@ + "\n"@)) == Some(cfg.run_id@));
    reveal_strlit("results");
    reveal_strlit("runs");
    reveal_strlit("/");
    reveal_strlit("results/runs");
    assert(path_join("results"@, "runs"@) =~= "results/runs"@);
}

proof fn lemma_low_bound()
    ensures
        BENCH_SMALL_U64@ + " < "@ + decimal(184467440737095516)
            == "bench_small_u64 < 184467440737095516"@,
{
    reveal_strlit("bench_small_u64 < 184467440737095516");
    reveal_strlit("bench_small_u64");
    reveal_strlit(" < ");
    assert(decimal(1) =~= seq!['1']);
    assert(decimal(18) =~= seq!['1', '8']);
    assert(decimal(184) =~= seq!['1', '8', '4']);
    assert(decimal(1844) =~= seq!['1', '8', '4', '4']);
    assert(decimal(18446) =~= seq!['1', '8', '4', '4', '6']);
    assert(decimal(184467) =~= seq!['1', '8', '4', '4', '6', '7']);
    assert(decimal(1844674) =~= seq!['1', '8', '4', '4', '6', '7', '4']);
    assert(decimal(18446744) =~= seq!['1', '8', '4', '4', '6', '7', '4', '4']);
    assert(decimal(184467440) =~= seq!['1', '8', '4', '4', '6', '7', '4', '4', '0']);
    assert(decimal(1844674407) =~= seq!['1', '8', '4', '4', '6', '7', '4', '4', '0', '7']);
    assert(decimal(18446744073) =~= seq!['1', '8', '4', '4', '6', '7', '4', '4', '0', '7', '3']);
    assert(decimal(184467440737) =~= seq!['1', '8', '4', '4', '6', '7', '4', '4', '0', '7', '3', '7']);
    assert(decimal(1844674407370) =~= seq!['1', '8', '4', '4', '6', '7', '4', '4', '0', '7', '3', '7', '0']);
    assert(decimal(18446744073709) =~= seq!['1', '8', '4', '4', '6', '7', '4', '4', '0', '7', '3', '7', '0', '9']);
    assert(decimal(184467440737095) =~= seq!['1', '8', '4', '4', '6', '7', '4', '4', '0', '7', '3', '7', '0', '9', '5']);
    assert(decimal(1844674407370955) =~= seq!['1', '8', '4', '4', '6', '7', '4', '4', '0', '7', '3', '7', '0', '9', '5', '5']);
    assert(decimal(18446744073709551) =~= seq!['1', '8', '4', '4', '6', '7', '4', '4', '0', '7', '3', '7', '0', '9', '5', '5', '1']);
    assert(decimal(184467440737095516) =~= seq!['1', '8', '4', '4', '6', '7', '4', '4', '0', '7', '3', '7', '0', '9', '5', '5', '1', '6']);
    assert(BENCH_SMALL_U64@ + " < "@ + decimal(184467440737095516)
        =~= "bench_small_u64 < 184467440737095516"@);
}

proof fn lemma_high_bound()
    ensures
        BENCH_SMALL_U64@ + " < "@ + decimal(9223372036854775807)
            == "bench_small_u64 < 9223372036854775807"@,
{
    reveal_strlit("bench_small_u64 < 9223372036854775807");
    reveal_strlit("bench_small_u64");
    reveal_strlit(" < ");
    assert(decimal(9) =~= seq!['9']);
    assert(decimal(92) =~= seq!['9', '2']);
    assert(decimal(922) =~= seq!['9', '2', '2']);
    assert(decimal(9223) =~= seq!['9', '2', '2', '3']);
    assert(decimal(92233) =~= seq!['9', '2', '2', '3', '3']);
    assert(decimal(922337) =~= seq!['9', '2', '2', '3', '3', '7']);
    assert(decimal(9223372) =~= seq!['9', '2', '2', '3', '3', '7', '2']);
    assert(decimal(92233720) =~= seq!['9', '2', '2', '3', '3', '7', '2', '0']);
    assert(decimal(922337203) =~= seq!['9', '2', '2', '3', '3', '7', '2', '0', '3']);
    assert(decimal(9223372036) =~= seq!['9', '2', '2', '3', '3', '7', '2', '0', '3', '6']);
    assert(decimal(92233720368) =~= seq!['9', '2', '2', '3', '3', '7', '2', '0', '3', '6', '8']);
    assert(decimal(922337203685) =~= seq!['9', '2', '2', '3', '3', '7', '2', '0', '3', '6', '8', '5']);
    assert(decimal(9223372036854) =~= seq!['9', '2', '2', '3', '3', '7', '2', '0', '3', '6', '8', '5', '4']);
    assert(decimal(92233720368547) =~= seq!['9', '2', '2', '3', '3', '7', '2', '0', '3', '6', '8', '5', '4', '7']);
    assert(decimal(922337203685477) =~= seq!['9', '2', '2', '3', '3', '7', '2', '0', '3', '6', '8', '5', '4', '7', '7']);
    assert(decimal(9223372036854775) =~= seq!['9', '2', '2', '3', '3', '7', '2', '0', '3', '6', '8', '5', '4', '7', '7', '5']);
    assert(decimal(92233720368547758) =~= seq!['9', '2', '2', '3', '3', '7', '2', '0', '3', '6', '8', '5', '4', '7', '7', '5', '8']);
    assert(decimal(922337203685477580) =~= seq!['9', '2', '2', '3', '3', '7', '2', '0', '3', '6', '8', '5', '4', '7', '7', '5', '8', '0']);
    assert(decimal(9223372036854775807) =~= seq!['9', '2', '2', '3', '3', '7', '2', '0', '3', '6', '8', '5', '4', '7', '7', '5', '8', '0', '7']);
    assert(BENCH_SMALL_U64@ + " < "@ + decimal(9223372036854775807)
        =~= "bench_small_u64 < 9223372036854775807"@);
}

/// What the suite records of a scan that failed names the filter that the scan would have used.
pub proof fn law_suite_names_the_filter(mode: ScanModeArg)
    ensures
        suite_filter(mode) == filter_words(scan_bound(mode)),
{
    lemma_low_bound();
    lemma_high_bound();
}

// ---------------------------------------------------------------------------
// Stored datasets.
// ---------------------------------------------------------------------------

proof fn lemma_ids_have_no_slash(a: DatasetArg, i: int)
    requires
        0 <= i < dataset_id(a).len(),
    ensures
        dataset_id(a).len() > 0,
        dataset_id(a)[i] != '/',
{
    reveal_strlit("laion10m");
    reveal_strlit("openvid");
    reveal_strlit("fineweb");
    reveal_strlit("lerobot-pusht");
    reveal_strlit("lerobot-pusht_image");
}

/// How the path of a stored dataset is made up.
proof fn lemma_data_path(cfg: SuiteConfig, dataset: DatasetArg, version: Option<Seq<char>>)
    ensures
        ({
            let root = path_join(cfg.run_root(), "datasets"@);
            cfg.data_path(dataset, version) == root + seq!['/'] + (dataset_id(dataset) + seq!['/']
                + dataset_id(dataset) + seq!['.'] + engine_tag(version))
        }),
{
    reveal_strlit("/");
    reveal_strlit(".");
    reveal_strlit("datasets");
    reveal_strlit("laion10m");
    reveal_strlit("openvid");
    reveal_strlit("fineweb");
    reveal_strlit("lerobot-pusht");
    reveal_strlit("lerobot-pusht_image");
    let root = path_join(cfg.run_root(), "datasets"@);
    let id = dataset_id(dataset);
    assert(id.len() > 0);
    lemma_ids_have_no_slash(dataset, 0);
    lemma_ids_have_no_slash(dataset, id.len() - 1);
    assert(root.last() == 's');
    let dir = path_join(root, id);
    assert(dir =~= root + seq!['/'] + id);
    assert(dir.last() == id.last());
    let name = id + "."@ + engine_tag(version);
    assert(name[0] == id[0]);
    assert(path_join(dir, name) =~= root + seq!['/'] + (id + seq!['/'] + id + seq!['.']
        + engine_tag(version)));
}

proof fn lemma_data_paths_differ(
    cfg: SuiteConfig,
    d1: DatasetArg,
    v1: Option<Seq<char>>,
    d2: DatasetArg,
    v2: Option<Seq<char>>,
)
    requires
        cfg.data_path(d1, v1) == cfg.data_path(d2, v2),
    ensures
        d1 == d2,
        engine_tag(v1) == engine_tag(v2),
        engine_for(v1) == engine_for(v2),
{
    lemma_data_path(cfg, d1, v1);
    lemma_data_path(cfg, d2, v2);
    let root = path_join(cfg.run_root(), "datasets"@);
    let (a, b) = (dataset_id(d1), dataset_id(d2));
    let s = a + seq!['/'] + a + seq!['.'] + engine_tag(v1);
    let t = b + seq!['/'] + b + seq!['.'] + engine_tag(v2);
    let n = root.len() as int + 1;
    assert((root + seq!['/'] + s).skip(n) =~= s);
    assert((root + seq!['/'] + t).skip(n) =~= t);
    assert(s == t);
    assert(s[a.len() as int] == '/' && t[b.len() as int] == '/');
    if a.len() < b.len() {
        lemma_ids_have_no_slash(d2, a.len() as int);
        assert(t[a.len() as int] == b[a.len() as int]);
    }
    if b.len() < a.len() {
        lemma_ids_have_no_slash(d1, b.len() as int);
        assert(s[b.len() as int] == a[b.len() as int]);
    }
    assert(s.take(a.len() as int) =~= a);
    assert(t.take(b.len() as int) =~= b);
    lemma_ids(d1, d2);
    let k = 2 * a.len() as int + 2;
    assert(s.skip(k) =~= engine_tag(v1));
    assert(t.skip(k) =~= engine_tag(v2));
    lemma_tags(v1, v2);
}

/// Different datasets and different engines are stored in different places: two runs of a suite use
/// the same stored dataset only where they are of the same dataset and engine.
pub proof fn law_stored_datasets_are_apart(
    cfg: SuiteConfig,
    datasets: Seq<DatasetArg>,
    i: int,
    j: int,
)
    requires
        0 <= i < suite_plan(cfg, datasets).len(),
        0 <= j < suite_plan(cfg, datasets).len(),
        path_used(suite_plan(cfg, datasets)[i].op) == path_used(suite_plan(cfg, datasets)[j].op),
    ensures
        suite_plan(cfg, datasets)[i].dataset == suite_plan(cfg, datasets)[j].dataset,
        suite_plan(cfg, datasets)[i].engine == suite_plan(cfg, datasets)[j].engine,
{
    let a = suite_plan(cfg, datasets)[i];
    let b = suite_plan(cfg, datasets)[j];
    lemma_placed(cfg, datasets, i);
    lemma_placed(cfg, datasets, j);
    let v = choose|version: Option<Seq<char>>| #[trigger] uses(cfg, a.dataset, version, a);
    let w = choose|version: Option<Seq<char>>| #[trigger] uses(cfg, b.dataset, version, b);
    lemma_data_paths_differ(cfg, a.dataset, v, b.dataset, w);
}

/// Versions of Lance that differ by more than dots and underscores are stored in different places.
pub proof fn law_stored_versions_are_apart(
    cfg: SuiteConfig,
    dataset: DatasetArg,
    a: Seq<char>,
    b: Seq<char>,
)
    requires
        replaced(a, '.', '_') != replaced(b, '.', '_'),
    ensures
        cfg.data_path(dataset, Some(a)) != cfg.data_path(dataset, Some(b)),
        cfg.data_path(dataset, Some(a)) != cfg.data_path(dataset, None),
{
    reveal_strlit("lance.v");
    let (x, y) = (replaced(a, '.', '_'), replaced(b, '.', '_'));
    if cfg.data_path(dataset, Some(a)) == cfg.data_path(dataset, Some(b)) {
        lemma_data_paths_differ(cfg, dataset, Some(a), dataset, Some(b));
        assert(engine_tag(Some(a)).skip(7) =~= x);
        assert(engine_tag(Some(b)).skip(7) =~= y);
    }
    if cfg.data_path(dataset, Some(a)) == cfg.data_path(dataset, None) {
        lemma_data_paths_differ(cfg, dataset, Some(a), dataset, None);
    }
}

/// What is rewritten goes to a place of its own: no stored dataset is overwritten by it.
pub proof fn law_rewrites_touch_no_stored_dataset(
    cfg: SuiteConfig,
    d1: DatasetArg,
    version: Option<Seq<char>>,
    d2: DatasetArg,
    other: Option<Seq<char>>,
)
    ensures
        version is Some ==> cfg.rewrite_path(d1, version) is None,
        version is None ==> cfg.rewrite_path(d1, version) is Some,
        cfg.rewrite_path(d1, version) != Some(cfg.data_path(d2, other)),
{
    lemma_data_path(cfg, d2, other);
    reveal_strlit("/");
    reveal_strlit("datasets");
    reveal_strlit("tmp");
    reveal_strlit("laion10m");
    reveal_strlit("openvid");
    reveal_strlit("fineweb");
    reveal_strlit("lerobot-pusht");
    reveal_strlit("lerobot-pusht_image");
    if version is None {
        let base = cfg.run_root();
        let tmp = path_join(base, "tmp"@);
        let stored = path_join(base, "datasets"@);
        let n: int = if base.len() == 0 || base.last() == '/' {
            base.len() as int
        } else {
            base.len() as int + 1
        };
        assert(tmp[n] == 't' && stored[n] == 'd');
        assert(tmp.last() == 'p');
        let name = dataset_id(d1) + "."@ + engine_tag(version) + ".evolved.parquet"@;
        lemma_ids_have_no_slash(d1, 0);
        assert(name[0] == dataset_id(d1)[0]);
        assert(path_join(tmp, name) == tmp + "/"@ + name);
        assert((cfg.rewrite_path(d1, version)->0)[n] == 't');
        assert(cfg.data_path(d2, other)[n] == 'd');
    }
}

/// Of the runs that read a stored dataset the one that changes it comes last.
pub proof fn law_evolution_comes_last(
    cfg: SuiteConfig,
    dataset: DatasetArg,
    version: Option<Seq<char>>,
    i: int,
)
    requires
        0 <= i < reading_cases(cfg, dataset, version).len(),
    ensures
        reading_cases(cfg, dataset, version)[i].op is Evolve <==> i == reading_cases(
            cfg,
            dataset,
            version,
        ).len() - 1,
{
}

// ---------------------------------------------------------------------------
// Defaults.
// ---------------------------------------------------------------------------

/// A limit that a user gives holds for every dataset. Without one the large datasets are cut and
/// the others are taken whole.
pub proof fn law_given_limits_hold(dataset: DatasetArg, limit: u64)
    ensures
        suite_limit(dataset, Some(limit)) == Some(limit),
        suite_limit(dataset, None) is None <==> dataset == DatasetArg::LeRobotPushT || dataset
            == DatasetArg::LeRobotPushTImage,
        suite_limit(DatasetArg::FineWeb, None) == Some(10_000_000u64),
        suite_limit(DatasetArg::OpenVid, None) == Some(1_000_000u64),
        suite_limit(DatasetArg::Laion10m, None) == Some(200_000u64),
{
}

/// The datasets that a user lists are run, in their order; where none are listed, every one once.
pub proof fn law_listed_datasets_are_run(chosen: Seq<DatasetArg>, dataset: DatasetArg)
    ensures
        chosen.len() > 0 ==> suite_datasets(chosen) == chosen,
        chosen.len() == 0 ==> suite_datasets(chosen).contains(dataset) && suite_datasets(
            chosen,
        ).no_duplicates(),
{
    if chosen.len() == 0 {
        let all = suite_datasets(chosen);
        assert(all[0] == DatasetArg::FineWeb && all[1] == DatasetArg::OpenVid && all[2]
            == DatasetArg::Laion10m && all[3] == DatasetArg::LeRobotPushT && all[4]
            == DatasetArg::LeRobotPushTImage);
    }
}

/// The engine and version as they stand in the names of files: Lance with its file version, the
/// dots of it as underscores.
pub open spec fn engine_words(version: Option<Seq<char>>) -> Seq<char> {
    match version {
        Some(v) => "lance.v"@ + replaced(v, '.', '_'),
        None => "parquet"@,
    }
}

/// The place of a run is below the root of the outputs, under its number. There a stored dataset is
/// named after the dataset, the engine and the version, and a result after the workload too.
pub proof fn law_files_are_named_after_their_contents(
    cfg: SuiteConfig,
    workload: Workload,
    dataset: DatasetArg,
    version: Option<Seq<char>>,
)
    ensures
        cfg.run_root() == path_join(path_join(cfg.out_root@, "runs"@), cfg.run_id@),
        cfg.data_path(dataset, version) == path_join(cfg.run_root(), "datasets"@) + seq!['/'] + (
        dataset_id(dataset) + seq!['/'] + dataset_id(dataset) + seq!['.'] + engine_words(version)),
        cfg.result_path(kind_of(workload), dataset, version) == path_join(
            cfg.run_root(),
            "json"@,
        ) + seq!['/'] + (kind_of(workload) + seq!['.'] + dataset_id(dataset) + seq!['.']
            + engine_words(version) + ".json"@),
{
    lemma_data_path(cfg, dataset, version);
    lemma_kinds(workload, workload);
    reveal_strlit("/");
    reveal_strlit(".");
    reveal_strlit("json");
    reveal_strlit("ingest");
    reveal_strlit("scan-full");
    reveal_strlit("scan-project");
    reveal_strlit("scan-filter-low");
    reveal_strlit("scan-filter-high");
    reveal_strlit("take");
    reveal_strlit("blob");
    reveal_strlit("evolve");
    reveal_strlit("size");
    let dir = path_join(cfg.run_root(), "json"@);
    assert(dir.last() == 'n');
    let kind = kind_of(workload);
    assert(kind.len() > 0 && kind[0] != '/');
    let name = kind + "."@ + dataset_id(dataset) + "."@ + engine_tag(version) + ".json"@;
    assert(name[0] == kind[0]);
    assert(path_join(dir, name) =~= dir + seq!['/'] + (kind + seq!['.'] + dataset_id(dataset)
        + seq!['.'] + engine_words(version) + ".json"@));
}

/// Where no run is current, or the marker names none, the fallback is read; else a directory below
/// that of the run that it names.
pub proof fn law_without_a_run_the_fallback_is_read(
    text: Seq<char>,
    subdir: Seq<char>,
    fallback: Seq<char>,
)
    ensures
        run_subdir(None, subdir, fallback) == fallback,
        trimmed(text).len() == 0 ==> run_subdir(Some(text), subdir, fallback) == fallback,
        trimmed(text).len() > 0 ==> run_subdir(Some(text), subdir, fallback) == path_join(
            path_join("results/runs"@, trimmed(text)),
            subdir,
        ),
{
}

} // verus!
