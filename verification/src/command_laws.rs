//! What holds of what commands do.
use vstd::prelude::*;

use crate::args::{
    dataset_id, dataset_named, engine_named, write_mode_word, DatasetArg, EngineArg,
    LanceWriteModeArg, ScanModeArg, WorkloadArg,
};
use crate::commands::{
    dispatched, download_dir_of, download_words, files_of, repository_of, shard_names,
    shards_asked, version_ingests, CommandError, WorkloadView,
};
use crate::numbers::{decimal, is_digit, law_decimal_round_trip, number_of, padded};
use crate::paths::path_join;
use crate::text::replaced;
use crate::text_laws::{law_padding_keeps_the_number, ten_to};

verus! {

/// The workload that a run is of.
pub open spec fn workload_run(run: WorkloadView) -> WorkloadArg {
    match run {
        WorkloadView::Scan(mode) => match mode {
            ScanModeArg::Full => WorkloadArg::ScanFull,
            ScanModeArg::Project => WorkloadArg::ScanProject,
            ScanModeArg::FilterLow => WorkloadArg::ScanFilterLow,
            ScanModeArg::FilterHigh => WorkloadArg::ScanFilterHigh,
        },
        WorkloadView::Take => WorkloadArg::RandomTake,
        WorkloadView::Blob { column } => WorkloadArg::RandomBlob,
        WorkloadView::Evolve { new_column } => WorkloadArg::EvolutionBackfill,
        WorkloadView::Size => WorkloadArg::Size,
    }
}

/// A command runs the workload that it asks for, on the column that it names. It is refused only
/// where the workload needs a column that it does not name, or where an engine that reads fragments
/// is asked for more than a scan.
pub proof fn law_commands_do_as_asked(
    engine: EngineArg,
    workload: WorkloadArg,
    column: Option<Seq<char>>,
    new_column: Option<Seq<char>>,
)
    ensures
        match dispatched(engine, workload, column, new_column) {
            Ok(run) => {
                &&& workload_run(run) == workload
                &&& run matches WorkloadView::Blob { column: c } ==> column == Some(c)
                &&& run matches WorkloadView::Evolve { new_column: c } ==> new_column == Some(c)
                &&& engine == EngineArg::LanceFragment ==> run is Scan
            },
            Err(e) => {
                ||| e == CommandError::NoBlobColumn && workload == WorkloadArg::RandomBlob
                    && column is None && engine != EngineArg::LanceFragment
                ||| e == CommandError::NoNewColumn && workload == WorkloadArg::EvolutionBackfill
                    && new_column is None && engine != EngineArg::LanceFragment
                ||| e == CommandError::FragmentsOnlyScan && engine == EngineArg::LanceFragment && (
                workload == WorkloadArg::RandomTake || workload == WorkloadArg::RandomBlob
                    || workload == WorkloadArg::EvolutionBackfill || workload == WorkloadArg::Size)
            },
        },
{
}

/// Arguments that differ name different engines and different datasets.
pub proof fn law_arguments_name_one_thing(a: DatasetArg, b: DatasetArg, e: EngineArg, f: EngineArg)
    ensures
        dataset_named(a) == dataset_named(b) ==> a == b,
        engine_named(e) == engine_named(f) ==> e == f,
        dataset_id(a) == dataset_id(b) ==> a == b,
        repository_of(a) == repository_of(b) ==> a == b,
{
    reveal_strlit("laion10m");
    reveal_strlit("openvid");
    reveal_strlit("fineweb");
    reveal_strlit("lerobot-pusht");
    reveal_strlit("lerobot-pusht_image");
    assert("laion10m"@.len() == 8 && "openvid"@.len() == 7 && "fineweb"@.len() == 7
        && "lerobot-pusht"@.len() == 13 && "lerobot-pusht_image"@.len() == 19);
    assert("openvid"@[0] == 'o' && "fineweb"@[0] == 'f');
    reveal_strlit("Leonardo6/laion10m");
    reveal_strlit("HuggingFaceFW/fineweb");
    reveal_strlit("lerobot/pusht");
    reveal_strlit("lerobot/pusht_image");
    reveal_strlit("nkp37/OpenVid-1M");
    assert("Leonardo6/laion10m"@.len() == 18 && "HuggingFaceFW/fineweb"@.len() == 21
        && "lerobot/pusht"@.len() == 13 && "lerobot/pusht_image"@.len() == 19
        && "nkp37/OpenVid-1M"@.len() == 16);
}

/// The file name that an ingest of a version has, below its directories.
pub open spec fn is_named_after(
    name: Seq<char>,
    id: Seq<char>,
    version: Seq<char>,
    indexed: bool,
) -> bool {
    name == id + ".lance.v"@ + replaced(version, '.', '_') + if indexed {
        ".index"@
    } else {
        Seq::<char>::empty()
    }
}

/// Every listed version is written once without an index and, where columns to index are given,
/// once more with it, in the order of the list. A dataset goes below the root of the outputs and
/// its result below the results, both under the name of the dataset, version and index.
pub proof fn law_every_version_is_written(
    out_root: Seq<char>,
    results_dir: Seq<char>,
    id: Seq<char>,
    versions: Seq<Seq<char>>,
    index_columns: Option<Seq<char>>,
    k: int,
)
    requires
        0 <= k < versions.len(),
    ensures
        ({
            let all = version_ingests(out_root, results_dir, id, versions, index_columns);
            let step: int = if index_columns is Some {
                2
            } else {
                1
            };
            &&& all.len() == step * versions.len()
            &&& all[step * k].version == versions[k]
            &&& all[step * k].index_columns is None
            &&& exists|name: Seq<char>|
                {
                    &&& #[trigger] is_named_after(name, id, versions[k], false)
                    &&& all[step * k].out == out_root + "/"@ + name
                    &&& all[step * k].result_out == results_dir + "/ingest."@ + name + ".json"@
                }
            &&& index_columns is Some ==> all[2 * k + 1].version == versions[k] && all[2 * k
                + 1].index_columns == index_columns && exists|name: Seq<char>|
                {
                    &&& #[trigger] is_named_after(name, id, versions[k], true)
                    &&& all[2 * k + 1].out == out_root + "/"@ + name
                    &&& all[2 * k + 1].result_out == results_dir + "/ingest."@ + name + ".json"@
                }
        }),
    decreases versions.len(),
{
    let all = version_ingests(out_root, results_dir, id, versions, index_columns);
    let front = versions.drop_last();
    let before = version_ingests(out_root, results_dir, id, front, index_columns);
    let step: int = if index_columns is Some {
        2
    } else {
        1
    };
    if front.len() > 0 {
        law_every_version_is_written(
            out_root,
            results_dir,
            id,
            front,
            index_columns,
            if k < front.len() {
                k
            } else {
                0
            },
        );
    }
    assert(before.len() == step * front.len());
    if k < front.len() {
        assert(versions[k] == front[k]);
        assert(all[step * k] == before[step * k]);
        if index_columns is Some {
            assert(all[2 * k + 1] == before[2 * k + 1]);
        }
    } else {
        reveal_strlit("");
        let version = versions.last();
        let base = id + ".lance.v"@ + replaced(version, '.', '_');
        let plain = base + Seq::<char>::empty();
        let indexed = base + ".index"@;
        assert(is_named_after(plain, id, version, false));
        assert(is_named_after(indexed, id, version, true));
        assert(all[step * k].out =~= out_root + "/"@ + plain);
        assert(all[step * k].result_out =~= results_dir + "/ingest."@ + plain + ".json"@);
        if index_columns is Some {
            assert(all[2 * k + 1].out =~= out_root + "/"@ + indexed);
            assert(all[2 * k + 1].result_out =~= results_dir + "/ingest."@ + indexed + ".json"@);
        }
    }
}

/// Shards are numbered from zero: the name of each is its number in at least five digits, and the
/// first ones stay the same however many there are.
pub proof fn law_shards_are_numbered(n: nat, m: nat, i: int)
    requires
        0 <= i < n <= m,
    ensures
        ({
            let name = shard_names(n)[i];
            &&& shard_names(n).len() == n
            &&& shard_names(m)[i] == name
            &&& name.len() >= 9
            &&& name.skip(name.len() - 4) == ".tar"@
            &&& number_of(name.take(name.len() - 4)) == Some(i as nat)
        }),
{
    reveal_strlit(".tar");
    let name = shard_names(n)[i];
    let digits = name.take(name.len() - 4);
    assert(name.skip(name.len() - 4) =~= ".tar"@);
    reveal_with_fuel(ten_to, 6);
    assert(ten_to(5) == 100_000);
    if i < 100_000 {
        law_padding_keeps_the_number(i as nat, 5);
        assert(digits =~= padded(i as nat, 5));
        assert(digits[0] != '+') by {
            assert(is_digit(digits[0]));
        }
    } else {
        law_decimal_round_trip(i as nat);
        assert(digits =~= decimal(i as nat));
        lemma_decimal_len(i as nat, 5);
    }
}

proof fn lemma_decimal_len(n: nat, k: nat)
    requires
        n >= ten_to(k),
    ensures
        decimal(n).len() > k,
    decreases k,
{
    if k > 0 {
        assert(ten_to(k) == 10 * ten_to((k - 1) as nat));
        lemma_ten_to(k);
        lemma_decimal_len(n / 10, (k - 1) as nat);
    }
}

proof fn lemma_ten_to(k: nat)
    ensures
        ten_to(k) >= 1,
        k > 0 ==> ten_to(k) >= 10,
    decreases k,
{
    if k > 0 {
        lemma_ten_to((k - 1) as nat);
    }
}

/// A download fetches as many shards as it is asked for, and one where it is not told a number.
pub proof fn law_asked_shards_are_fetched(n: u32, text: Seq<char>)
    ensures
        shards_asked(Some(decimal(n as nat))) == n,
        shards_asked(None) == 1,
        number_of(text) is None ==> shards_asked(Some(text)) == 1,
{
    law_decimal_round_trip(n as nat);
}

/// A download names the repository and then the files, and ends with the directory, which is the
/// one asked for or, where the files are converted afterwards, one below it.
pub proof fn law_downloads_name_their_files(dataset: DatasetArg, shards: nat, dir: Seq<char>, i: int)
    requires
        0 <= i < files_of(dataset, shards).len(),
    ensures
        ({
            let words = download_words(dataset, shards, dir);
            &&& words[0] == "download"@
            &&& words[1] == repository_of(dataset)
            &&& words[2 + i] == files_of(dataset, shards)[i]
            &&& words[words.len() - 2] == "--local-dir"@
            &&& words.last() == dir
            &&& words.len() == files_of(dataset, shards).len() + 8
        }),
        dataset != DatasetArg::OpenVid ==> download_dir_of(dataset, dir) == dir,
        dataset == DatasetArg::OpenVid ==> download_dir_of(dataset, dir) == path_join(dir, "_raw"@),
        dataset == DatasetArg::Laion10m ==> files_of(dataset, shards).len() == shards + 1,
        dataset == DatasetArg::Laion10m && i > 0 ==> files_of(dataset, shards)[i] == shard_names(
            shards,
        )[i - 1],
{
}

/// The ways to write a dataset have the names that Lance has for them.
pub proof fn law_write_modes_have_their_names(mode: LanceWriteModeArg)
    ensures
        mode == LanceWriteModeArg::Create <==> write_mode_word(mode) == "create"@,
        mode == LanceWriteModeArg::Append <==> write_mode_word(mode) == "append"@,
        mode == LanceWriteModeArg::Overwrite <==> write_mode_word(mode) == "overwrite"@,
{
    reveal_strlit("create");
    reveal_strlit("append");
    reveal_strlit("overwrite");
    assert("create"@[0] == 'c' && "append"@[0] == 'a' && "overwrite"@[0] == 'o');
}

} // verus!
