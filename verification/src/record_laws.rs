//! What holds of the cases of results and of the results that are shown.
use vstd::prelude::*;
use vstd::utf8::{encode_utf8, encode_utf8_decode_utf8, encode_utf8_valid_utf8};

use crate::args::{dataset_id, dataset_named, DatasetArg};
use crate::records::{
    dataset_of_id, dataset_rank, engine_of_id, engine_rank, file_stem, inferred_key, key_of,
    last_dot, recorded_key, workload_of_id, workload_rank, KeyView, ResultFile,
    RunRecord,
};
use crate::report::{dataset_name, engine_label, report_datasets};
use crate::result::RunMetadata;
use crate::selection::{
    before, chosen, eligible, engine_sort_name, file_key, in_order, is_selection, newer, record_of,
    records_of, workload_place, Listing,
};
use crate::suite_laws::kind_of;
use crate::text::{
    bytes_less, lemma_bytes_less_total, lemma_bytes_less_trans, lemma_split_nonempty,
    lemma_text_less_total, replaced, split_on, text_less,
};
use crate::text_laws::law_the_last_piece_is_behind;
use crate::workload::{DatasetName, EngineName, Workload};

verus! {

// ---------------------------------------------------------------------------
// Names of result files.
// ---------------------------------------------------------------------------

/// The names of datasets and workloads are read back as what they name.
pub proof fn law_names_are_read_back(dataset: DatasetArg, workload: Workload)
    ensures
        dataset_of_id(dataset_id(dataset)) == dataset_named(dataset),
        workload_of_id(kind_of(workload)) == workload,
        engine_of_id("lance"@) == EngineName::Lance,
        engine_of_id("parquet"@) == EngineName::Parquet,
        engine_of_id("lance-fragment"@) == EngineName::LanceFragment,
{
    reveal_strlit("laion10m");
    reveal_strlit("openvid");
    reveal_strlit("fineweb");
    reveal_strlit("lerobot_pusht");
    reveal_strlit("lerobot-pusht");
    reveal_strlit("lerobot_pusht_image");
    reveal_strlit("lerobot-pusht_image");
    assert("laion10m"@.len() == 8 && "openvid"@.len() == 7 && "fineweb"@.len() == 7
        && "lerobot-pusht"@.len() == 13 && "lerobot-pusht_image"@.len() == 19
        && "lerobot_pusht"@.len() == 13 && "lerobot_pusht_image"@.len() == 19);
    assert("openvid"@[0] == 'o' && "fineweb"@[0] == 'f');
    reveal_strlit("ingest");
    reveal_strlit("scan-full");
    reveal_strlit("scan-project");
    reveal_strlit("scan-filter-low");
    reveal_strlit("scan-filter-high");
    reveal_strlit("take");
    reveal_strlit("blob");
    reveal_strlit("evolve");
    reveal_strlit("size");
    assert("ingest"@.len() == 6 && "scan-full"@.len() == 9 && "scan-project"@.len() == 12
        && "scan-filter-low"@.len() == 15 && "scan-filter-high"@.len() == 16 && "take"@.len() == 4
        && "blob"@.len() == 4 && "evolve"@.len() == 6 && "size"@.len() == 4);
    assert("ingest"@[0] == 'i' && "evolve"@[0] == 'e' && "take"@[0] == 't' && "blob"@[0] == 'b'
        && "size"@[0] == 's');
    reveal_strlit("lance");
    reveal_strlit("parquet");
    reveal_strlit("lance_fragment");
    reveal_strlit("lance-fragment");
    assert("lance"@.len() == 5 && "parquet"@.len() == 7 && "lance_fragment"@.len() == 14
        && "lance-fragment"@.len() == 14);
}

pub(crate) proof fn lemma_last_dot(stem: Seq<u8>, ext: Seq<u8>)
    requires
        !ext.contains(46u8),
    ensures
        last_dot(stem + seq![46u8] + ext) == stem.len(),
    decreases ext.len(),
{
    let name = stem + seq![46u8] + ext;
    if ext.len() > 0 {
        let front = ext.drop_last();
        assert(ext[ext.len() - 1] != 46);
        assert(!front.contains(46u8)) by {
            if front.contains(46u8) {
                let k = choose|k: int| 0 <= k < front.len() && front[k] == 46u8;
                assert(ext[k] == 46u8);
            }
        }
        lemma_last_dot(stem, front);
        assert(name.drop_last() =~= stem + seq![46u8] + front);
    }
}

/// The name of a result file tells its case by the last three parts before the extension: the
/// dataset, the workload and the engine.
pub proof fn law_file_names_tell_the_case(
    before: Seq<char>,
    dataset: Seq<char>,
    workload: Seq<char>,
    engine: Seq<char>,
    ext: Seq<u8>,
)
    requires
        !dataset.contains('.'),
        !workload.contains('.'),
        !engine.contains('.'),
        !ext.contains(46u8),
    ensures
        ({
            let stem = before + seq!['.'] + dataset + seq!['.'] + workload + seq!['.'] + engine;
            let name = encode_utf8(stem) + seq![46u8] + ext;
            encode_utf8(stem).len() > 0 ==> {
                &&& file_stem(name) == encode_utf8(stem)
                &&& inferred_key(name) matches Some(key) && key.dataset == dataset_of_id(dataset)
                    && key.workload == workload_of_id(workload) && key.engine == engine_of_id(
                    engine,
                )
            }
        }),
{
    let a = before + seq!['.'] + dataset;
    let b = a + seq!['.'] + workload;
    let stem = b + seq!['.'] + engine;
    let bytes = encode_utf8(stem);
    let name = bytes + seq![46u8] + ext;
    law_the_last_piece_is_behind(before, dataset, '.');
    law_the_last_piece_is_behind(a, workload, '.');
    law_the_last_piece_is_behind(b, engine, '.');
    lemma_last_dot(bytes, ext);
    assert(name.take(bytes.len() as int) =~= bytes);
    encode_utf8_valid_utf8(stem);
    encode_utf8_decode_utf8(stem);
    lemma_split_nonempty(before, '.');
    let parts = split_on(stem, '.');
    assert(parts == split_on(before, '.').push(dataset).push(workload).push(engine));
}

// ---------------------------------------------------------------------------
// Cases of results.
// ---------------------------------------------------------------------------

/// What a result says of itself is its case; the name of its file counts only where the dataset or
/// the engine is unknown. The Lance parameters count for Lance only, and a Lance result without a
/// file version is one of 2.0.
pub proof fn law_results_are_of_their_case(name: Seq<u8>, meta: RunMetadata)
    ensures
        ({
            let key = key_of(name, meta);
            let params = meta.params@;
            &&& key.workload == meta.workload
            &&& meta.dataset != DatasetName::Unknown ==> key.dataset == meta.dataset
            &&& meta.engine != EngineName::Unknown ==> key.engine == meta.engine
            &&& meta.dataset == DatasetName::Unknown ==> key.dataset == match inferred_key(name) {
                Some(told) => told.dataset,
                None => DatasetName::Unknown,
            }
            &&& meta.engine == EngineName::Unknown ==> key.engine == match inferred_key(name) {
                Some(told) => told.engine,
                None => EngineName::Unknown,
            }
            &&& key.engine != EngineName::Lance ==> key.version is None && key.index_columns is None
                && !key.disable_compression
            &&& key.engine == EngineName::Lance ==> {
                &&& params.contains_key("lance_file_version"@) ==> key.version == Some(
                    params["lance_file_version"@],
                )
                &&& !params.contains_key("lance_file_version"@) ==> key.version == Some("2.0"@)
                &&& params.contains_key("lance_index_columns"@) ==> key.index_columns == Some(
                    params["lance_index_columns"@],
                )
                &&& !params.contains_key("lance_index_columns"@) ==> key.index_columns is None
                &&& key.disable_compression <==> params.contains_key("lance_disable_compression"@)
                    && params["lance_disable_compression"@] == "true"@
            }
            &&& meta.dataset != DatasetName::Unknown && meta.engine != EngineName::Unknown ==> key
                == recorded_key(meta)
        }),
{
}

// ---------------------------------------------------------------------------
// Selection and order.
// ---------------------------------------------------------------------------

/// What is shown of a case is its newest result: none of the same case was started later.
pub proof fn law_shown_results_are_the_newest(
    how: Listing,
    files: Seq<ResultFile>,
    picked: Seq<ResultFile>,
    i: int,
    j: int,
)
    requires
        is_selection(how, files, picked),
        0 <= i < picked.len(),
        0 <= j < files.len(),
        file_key(how, files[j]) == file_key(how, picked[i]),
    ensures
        files.contains(picked[i]),
        files[j].result.meta.started_at_unix_ms <= picked[i].result.meta.started_at_unix_ms,
{
    reveal(newer);
    assert(picked.contains(picked[i]));
    assert(chosen(how, files, picked[i]));
    assert(files.contains(files[j]));
    assert(!newer(files[j], picked[i]));
}

proof fn lemma_newest_of(how: Listing, files: Seq<ResultFile>, n: int, key: KeyView) -> (at: int)
    requires
        0 <= n <= files.len(),
        exists|k: int| 0 <= k < n && file_key(how, #[trigger] files[k]) == key,
    ensures
        0 <= at < n,
        file_key(how, files[at]) == key,
        forall|k: int|
            0 <= k < n && file_key(how, #[trigger] files[k]) == key ==> !newer(files[k], files[at]),
    decreases n,
{
    if exists|k: int| 0 <= k < n - 1 && file_key(how, #[trigger] files[k]) == key {
        let best = lemma_newest_of(how, files, n - 1, key);
        let last = files[n - 1];
        if file_key(how, last) == key && newer(last, files[best]) {
            assert forall|k: int|
                0 <= k < n && file_key(how, #[trigger] files[k]) == key implies !newer(
                files[k],
                files[n - 1],
            ) by {
                lemma_newer_order(last, files[best], files[k]);
                if k < n - 1 {
                    assert(!newer(files[k], files[best]));
                }
            }
            n - 1
        } else {
            best
        }
    } else {
        let k = choose|k: int| 0 <= k < n && file_key(how, #[trigger] files[k]) == key;
        assert(k == n - 1);
        lemma_newer_order(files[k], files[k], files[k]);
        k
    }
}

/// What is newer than the newest seen is newer than all seen; nothing is newer than itself.
proof fn lemma_newer_order(a: ResultFile, b: ResultFile, c: ResultFile)
    ensures
        !newer(a, a),
        newer(a, b) && !newer(c, b) ==> !newer(c, a),
{
    reveal(newer);
    lemma_bytes_less_total(a.name@, a.name@);
    lemma_bytes_less_total(a.name@, c.name@);
    lemma_bytes_less_total(b.name@, c.name@);
    lemma_bytes_less_total(a.name@, b.name@);
    if bytes_less(b.name@, a.name@) && bytes_less(a.name@, c.name@) {
        lemma_bytes_less_trans(b.name@, a.name@, c.name@);
    }
}

/// Every case is shown: each result that does not come from reading fragments is of the case of one
/// that is picked.
pub proof fn law_every_case_is_shown(
    how: Listing,
    files: Seq<ResultFile>,
    picked: Seq<ResultFile>,
    j: int,
)
    requires
        is_selection(how, files, picked),
        0 <= j < files.len(),
        file_key(how, files[j]).engine != EngineName::LanceFragment,
    ensures
        exists|i: int|
            0 <= i < picked.len() && file_key(how, #[trigger] picked[i]) == file_key(how, files[j]),
{
    let key = file_key(how, files[j]);
    let at = lemma_newest_of(how, files, files.len() as int, key);
    assert(chosen(how, files, files[at])) by {
        assert(files.contains(files[at]));
        assert forall|g: ResultFile|
            files.contains(g) && file_key(how, g) == file_key(how, files[at]) implies !#[trigger] newer(
            g,
            files[at],
        ) by {
            let k = choose|k: int| 0 <= k < files.len() && files[k] == g;
            assert(file_key(how, files[k]) == key);
        }
    }
    assert(picked.contains(files[at]));
    let i = choose|i: int| 0 <= i < picked.len() && picked[i] == files[at];
    assert(file_key(how, picked[i]) == key);
}

/// Results of reading fragments are not shown.
pub proof fn law_fragments_are_not_shown(
    how: Listing,
    files: Seq<ResultFile>,
    picked: Seq<ResultFile>,
    i: int,
)
    requires
        is_selection(how, files, picked),
        0 <= i < picked.len(),
    ensures
        file_key(how, picked[i]).engine != EngineName::LanceFragment,
{
    assert(picked.contains(picked[i]));
    assert(chosen(how, files, picked[i]));
    assert(eligible(how, picked[i]));
}

/// The datasets stand in the records as in the tables of the report, and of a dataset Parquet stands
/// before Lance.
pub proof fn law_records_are_ordered_as_the_tables(
    picked: Seq<ResultFile>,
    i: int,
    j: int,
    a: int,
    b: int,
)
    requires
        in_order(Listing::Report, picked),
        0 <= i < j < picked.len(),
        0 <= a < report_datasets().len(),
        0 <= b < report_datasets().len(),
        file_key(Listing::Report, picked[i]).dataset == report_datasets()[a],
        file_key(Listing::Report, picked[j]).dataset == report_datasets()[b],
    ensures
        a <= b,
        a == b && file_key(Listing::Report, picked[i]).engine == EngineName::Lance ==> file_key(
            Listing::Report,
            picked[j],
        ).engine != EngineName::Parquet,
{
    reveal(before);
    let all = report_datasets();
    assert(dataset_rank(all[0]) == 0 && dataset_rank(all[1]) == 1 && dataset_rank(all[2]) == 2
        && dataset_rank(all[3]) == 3 && dataset_rank(all[4]) == 4);
    assert(a == 0 || a == 1 || a == 2 || a == 3 || a == 4);
    assert(b == 0 || b == 1 || b == 2 || b == 3 || b == 4);
    let (ka, kb) = (file_key(Listing::Report, picked[i]), file_key(Listing::Report, picked[j]));
    assert(dataset_rank(ka.dataset) <= dataset_rank(kb.dataset));
}

/// The report and the plots take a result for the same case wherever its dataset and engine are
/// known; for the plots the name of a file makes no difference.
pub proof fn law_report_and_plots_agree(a: ResultFile, b: ResultFile)
    requires
        a.result == b.result,
    ensures
        file_key(Listing::Plots, a) == file_key(Listing::Plots, b),
        a.result.meta.dataset != DatasetName::Unknown && a.result.meta.engine != EngineName::Unknown
            ==> file_key(Listing::Report, a) == file_key(Listing::Plots, a),
        file_key(Listing::Report, a) == key_of(a.name@, a.result.meta),
{
    reveal(file_key);
    law_results_are_of_their_case(a.name@, a.result.meta);
}

/// The plots order results by the name of the dataset, then by the label, then by the workload.
pub proof fn law_plots_go_by_dataset_and_label(picked: Seq<ResultFile>, i: int, j: int)
    requires
        in_order(Listing::Plots, picked),
        0 <= i < j < picked.len(),
    ensures
        ({
            let a = file_key(Listing::Plots, picked[i]);
            let b = file_key(Listing::Plots, picked[j]);
            &&& !text_less(dataset_name(b.dataset), dataset_name(a.dataset))
            &&& a.dataset == b.dataset ==> !text_less(engine_sort_name(b), engine_sort_name(a))
            &&& a.dataset == b.dataset && engine_sort_name(a) == engine_sort_name(b)
                ==> workload_rank(a.workload) <= workload_rank(b.workload)
        }),
{
    reveal(before);
    let a = file_key(Listing::Plots, picked[i]);
    let b = file_key(Listing::Plots, picked[j]);
    lemma_text_less_total(dataset_name(a.dataset), dataset_name(b.dataset));
    lemma_text_less_total(engine_sort_name(a), engine_sort_name(b));
    law_workloads_are_in_order(b.workload, a.workload);
}

/// The report and the plots agree on the order of the workloads: ingest first, then the scans,
/// random reads and evolutions, sizes last; no two have the same place.
pub proof fn law_workloads_are_in_order(a: Workload, b: Workload)
    ensures
        workload_rank(a) < workload_rank(b) <==> workload_place(a) < workload_place(b),
        workload_rank(a) == workload_rank(b) <==> a == b,
        workload_rank(Workload::Ingest) < workload_rank(Workload::ScanFull),
        workload_rank(Workload::ScanFull) < workload_rank(Workload::ScanProject),
        workload_rank(Workload::ScanProject) < workload_rank(Workload::ScanFilterLow),
        workload_rank(Workload::ScanFilterLow) < workload_rank(Workload::ScanFilterHigh),
        workload_rank(Workload::ScanFilterHigh) < workload_rank(Workload::RandomTake),
        workload_rank(Workload::RandomTake) < workload_rank(Workload::RandomBlob),
        workload_rank(Workload::RandomBlob) < workload_rank(Workload::EvolutionBackfill),
        workload_rank(Workload::EvolutionBackfill) < workload_rank(Workload::Size),
{
}

/// Known datasets and engines come before unknown ones, each at its own place.
pub proof fn law_unknown_comes_last(a: DatasetName, b: DatasetName, e: EngineName)
    ensures
        dataset_rank(a) == dataset_rank(b) <==> a == b,
        a != DatasetName::Unknown ==> dataset_rank(a) < dataset_rank(DatasetName::Unknown),
        engine_rank(EngineName::Parquet) < engine_rank(EngineName::Lance),
        engine_rank(e) <= engine_rank(EngineName::Unknown),
        engine_rank(EngineName::Lance) < engine_rank(EngineName::Unknown),
{
}

/// The plots sort an engine by the label that the report gives it, wherever the version is known.
pub proof fn law_plots_sort_by_the_label(key: KeyView)
    requires
        key.engine == EngineName::Lance ==> key.version is Some,
    ensures
        engine_sort_name(key) == engine_label(key),
{
}

/// A record has the case, the result and the name of the file that it was made of.
pub proof fn law_records_are_of_their_files(
    how: Listing,
    records: Seq<RunRecord>,
    files: Seq<ResultFile>,
    i: int,
)
    requires
        records_of(how, records, files),
        0 <= i < records.len(),
    ensures
        records.len() == files.len(),
        records[i].key@ == file_key(how, files[i]),
        records[i].result == files[i].result,
        records[i].source@ == files[i].name@,
{
    assert(record_of(how, records[i], files[i]));
}

/// A dataset is known by its short name with hyphens or with underscores.
pub proof fn law_underscores_are_read_as_hyphens(dataset: DatasetArg)
    ensures
        dataset_of_id(replaced(dataset_id(dataset), '-', '_')) == dataset_named(dataset),
{
    reveal_strlit("laion10m");
    reveal_strlit("openvid");
    reveal_strlit("fineweb");
    reveal_strlit("lerobot_pusht");
    reveal_strlit("lerobot-pusht");
    reveal_strlit("lerobot_pusht_image");
    reveal_strlit("lerobot-pusht_image");
    law_names_are_read_back(dataset, Workload::Ingest);
    let id = replaced(dataset_id(dataset), '-', '_');
    assert(dataset == DatasetArg::Laion10m ==> id =~= "laion10m"@);
    assert(dataset == DatasetArg::OpenVid ==> id =~= "openvid"@);
    assert(dataset == DatasetArg::FineWeb ==> id =~= "fineweb"@);
    assert(dataset == DatasetArg::LeRobotPushT ==> id =~= "lerobot_pusht"@);
    assert(dataset == DatasetArg::LeRobotPushTImage ==> id =~= "lerobot_pusht_image"@);
    assert("laion10m"@.len() == 8 && "openvid"@.len() == 7 && "fineweb"@.len() == 7
        && "lerobot_pusht"@.len() == 13 && "lerobot_pusht_image"@.len() == 19
        && "lerobot-pusht"@.len() == 13);
}

} // verus!
