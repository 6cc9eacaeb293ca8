//! What a command asks for, and what it may not ask for.
use vstd::prelude::*;

use crate::args::{dataset_id, DatasetArg, EngineArg, ScanModeArg, WorkloadArg};
use crate::numbers::{
    decimal, number_up_to, padded, parse_u32, parse_u64, push_decimal, push_padded,
};
use crate::paths::{join_path, path_join};
use crate::text::{
    join, joined, lemma_views_push, list_items, opt_view, parse_list, replace_char, replaced, views,
};

verus! {

// ---------------------------------------------------------------------------
// Running one workload.
// ---------------------------------------------------------------------------

/// Why a command is refused.
#[derive(Debug, Clone, Copy, PartialEq, Eq, Structural)]
pub enum CommandError {
    /// The engine that reads fragments only scans.
    FragmentsOnlyScan,
    /// A random blob read names no column.
    NoBlobColumn,
    /// An evolution names no column.
    NoNewColumn,
    /// No columns to index are listed.
    NoIndexColumns,
    /// Only Lance datasets have indices.
    IndexNeedsLance,
    /// No format versions are listed.
    NoFileVersions,
    /// No shards are asked for.
    NoShards,
}

impl CommandError {
    /// The words of the error.
    pub open spec fn words(self) -> Seq<char> {
        match self {
            CommandError::FragmentsOnlyScan =>
                "engine lance-fragment supports scan workloads only"@,
            CommandError::NoBlobColumn => "--column is required for random-blob"@,
            CommandError::NoNewColumn => "--new-column is required for evolution-backfill"@,
            CommandError::NoIndexColumns => "--columns must not be empty"@,
            CommandError::IndexNeedsLance => "create-index supports lance datasets only"@,
            CommandError::NoFileVersions => "--lance-file-versions must not be empty"@,
            CommandError::NoShards => "LAION_SHARDS must be >= 1 (got 0)"@,
        }
    }

    /// The words of the error.
    pub fn message(self) -> (words: &'static str)
        ensures
            words@ == self.words(),
    {
        match self {
            CommandError::FragmentsOnlyScan => "engine lance-fragment supports scan workloads only",
            CommandError::NoBlobColumn => "--column is required for random-blob",
            CommandError::NoNewColumn => "--new-column is required for evolution-backfill",
            CommandError::NoIndexColumns => "--columns must not be empty",
            CommandError::IndexNeedsLance => "create-index supports lance datasets only",
            CommandError::NoFileVersions => "--lance-file-versions must not be empty",
            CommandError::NoShards => "LAION_SHARDS must be >= 1 (got 0)",
        }
    }
}

/// The scan that a workload is, where it is one.
pub open spec fn scan_of(workload: WorkloadArg) -> Option<ScanModeArg> {
    match workload {
        WorkloadArg::ScanFull => Some(ScanModeArg::Full),
        WorkloadArg::ScanProject => Some(ScanModeArg::Project),
        WorkloadArg::ScanFilterLow => Some(ScanModeArg::FilterLow),
        WorkloadArg::ScanFilterHigh => Some(ScanModeArg::FilterHigh),
        _ => None,
    }
}

/// What a workload does.
#[derive(Debug, Clone, PartialEq, Eq)]
pub enum WorkloadRun {
    Scan(ScanModeArg),
    Take,
    Blob { column: String },
    Evolve { new_column: String },
    Size,
}

/// What a workload does, with the texts that it needs.
pub enum WorkloadView {
    Scan(ScanModeArg),
    Take,
    Blob { column: Seq<char> },
    Evolve { new_column: Seq<char> },
    Size,
}

impl View for WorkloadRun {
    type V = WorkloadView;

    open spec fn view(&self) -> WorkloadView {
        match *self {
            WorkloadRun::Scan(mode) => WorkloadView::Scan(mode),
            WorkloadRun::Take => WorkloadView::Take,
            WorkloadRun::Blob { column } => WorkloadView::Blob { column: column@ },
            WorkloadRun::Evolve { new_column } => WorkloadView::Evolve { new_column: new_column@ },
            WorkloadRun::Size => WorkloadView::Size,
        }
    }
}

/// What a command does, or why it is refused.
pub open spec fn dispatched(
    engine: EngineArg,
    workload: WorkloadArg,
    column: Option<Seq<char>>,
    new_column: Option<Seq<char>>,
) -> Result<WorkloadView, CommandError> {
    match scan_of(workload) {
        Some(mode) => Ok(WorkloadView::Scan(mode)),
        None => if engine == EngineArg::LanceFragment {
            Err(CommandError::FragmentsOnlyScan)
        } else {
            match workload {
                WorkloadArg::RandomBlob => match column {
                    Some(c) => Ok(WorkloadView::Blob { column: c }),
                    None => Err(CommandError::NoBlobColumn),
                },
                WorkloadArg::EvolutionBackfill => match new_column {
                    Some(c) => Ok(WorkloadView::Evolve { new_column: c }),
                    None => Err(CommandError::NoNewColumn),
                },
                WorkloadArg::Size => Ok(WorkloadView::Size),
                _ => Ok(WorkloadView::Take),
            }
        },
    }
}

/// What a command does, or why it is refused.
pub fn dispatch(
    engine: EngineArg,
    workload: WorkloadArg,
    column: &Option<String>,
    new_column: &Option<String>,
) -> (run: Result<WorkloadRun, CommandError>)
    ensures
        match run {
            Ok(r) => Ok::<WorkloadView, CommandError>(r@),
            Err(e) => Err::<WorkloadView, CommandError>(e),
        } == dispatched(engine, workload, opt_view(*column), opt_view(*new_column)),
{
    let scans = matches!(
        workload,
        WorkloadArg::ScanFull | WorkloadArg::ScanProject | WorkloadArg::ScanFilterLow
            | WorkloadArg::ScanFilterHigh
    );
    if matches!(engine, EngineArg::LanceFragment) && !scans {
        return Err(CommandError::FragmentsOnlyScan);
    }
    match workload {
        WorkloadArg::ScanFull => Ok(WorkloadRun::Scan(ScanModeArg::Full)),
        WorkloadArg::ScanProject => Ok(WorkloadRun::Scan(ScanModeArg::Project)),
        WorkloadArg::ScanFilterLow => Ok(WorkloadRun::Scan(ScanModeArg::FilterLow)),
        WorkloadArg::ScanFilterHigh => Ok(WorkloadRun::Scan(ScanModeArg::FilterHigh)),
        WorkloadArg::RandomTake => Ok(WorkloadRun::Take),
        WorkloadArg::RandomBlob => match column {
            Some(c) => Ok(WorkloadRun::Blob { column: c.clone() }),
            None => Err(CommandError::NoBlobColumn),
        },
        WorkloadArg::EvolutionBackfill => match new_column {
            Some(c) => Ok(WorkloadRun::Evolve { new_column: c.clone() }),
            None => Err(CommandError::NoNewColumn),
        },
        WorkloadArg::Size => Ok(WorkloadRun::Size),
    }
}

/// Checks that an engine works on whole datasets, as every workload but a scan asks.
pub fn check_whole_dataset(engine: EngineArg) -> (checked: Result<(), CommandError>)
    ensures
        checked == if engine == EngineArg::LanceFragment {
            Err::<(), CommandError>(CommandError::FragmentsOnlyScan)
        } else {
            Ok(())
        },
{
    match engine {
        EngineArg::LanceFragment => Err(CommandError::FragmentsOnlyScan),
        _ => Ok(()),
    }
}

/// Every workload that scans is run on every engine, whatever else the command says.
pub proof fn law_scans_run_everywhere(
    engine: EngineArg,
    workload: WorkloadArg,
    column: Option<Seq<char>>,
    new_column: Option<Seq<char>>,
)
    requires
        scan_of(workload) is Some,
    ensures
        dispatched(engine, workload, column, new_column) == Ok::<WorkloadView, CommandError>(
            WorkloadView::Scan(scan_of(workload)->0),
        ),
{
}

// ---------------------------------------------------------------------------
// Creating indices.
// ---------------------------------------------------------------------------

/// The columns to index, or why none are.
pub fn index_request(engine: EngineArg, columns: &str) -> (request: Result<
    Vec<String>,
    CommandError,
>)
    ensures
        if list_items(columns@).len() == 0 {
            request == Err::<Vec<String>, CommandError>(CommandError::NoIndexColumns)
        } else if engine == EngineArg::Parquet {
            request == Err::<Vec<String>, CommandError>(CommandError::IndexNeedsLance)
        } else {
            request matches Ok(listed) && views(listed@) == list_items(columns@)
        },
{
    let listed = parse_list(columns);
    assert(views(listed@).len() == listed@.len());
    if listed.len() == 0 {
        return Err(CommandError::NoIndexColumns);
    }
    match engine {
        EngineArg::Parquet => Err(CommandError::IndexNeedsLance),
        _ => Ok(listed),
    }
}

// ---------------------------------------------------------------------------
// Writing a dataset in several format versions.
// ---------------------------------------------------------------------------

/// A dataset to write in one format version.
#[derive(Debug, Clone, PartialEq, Eq)]
pub struct VersionIngest {
    pub version: String,
    pub out: String,
    pub result_out: String,
    pub index_columns: Option<String>,
}

/// A dataset to write in one format version.
pub struct VersionIngestView {
    pub version: Seq<char>,
    pub out: Seq<char>,
    pub result_out: Seq<char>,
    pub index_columns: Option<Seq<char>>,
}

impl View for VersionIngest {
    type V = VersionIngestView;

    open spec fn view(&self) -> VersionIngestView {
        VersionIngestView {
            version: self.version@,
            out: self.out@,
            result_out: self.result_out@,
            index_columns: opt_view(self.index_columns),
        }
    }
}

/// The ingests of a list.
pub open spec fn ingest_views(ingests: Seq<VersionIngest>) -> Seq<VersionIngestView> {
    Seq::new(ingests.len(), |i: int| ingests[i]@)
}

/// The file name of a Lance dataset in a format version: dots become underscores.
pub open spec fn versioned_name(id: Seq<char>, version: Seq<char>) -> Seq<char> {
    id + ".lance.v"@ + replaced(version, '.', '_')
}

/// The ingest of one format version, with an index or without.
pub open spec fn version_ingest(
    out_root: Seq<char>,
    results_dir: Seq<char>,
    id: Seq<char>,
    version: Seq<char>,
    index_columns: Option<Seq<char>>,
) -> VersionIngestView {
    let name = versioned_name(id, version);
    let suffix = if index_columns is Some {
        ".index"@
    } else {
        ""@
    };
    VersionIngestView {
        version,
        out: out_root + "/"@ + name + suffix,
        result_out: results_dir + "/ingest."@ + name + suffix + ".json"@,
        index_columns,
    }
}

/// The ingests of a list of format versions: for each the plain dataset and then, where asked, the
/// one with an index.
pub open spec fn version_ingests(
    out_root: Seq<char>,
    results_dir: Seq<char>,
    id: Seq<char>,
    versions: Seq<Seq<char>>,
    index_columns: Option<Seq<char>>,
) -> Seq<VersionIngestView>
    decreases versions.len(),
{
    if versions.len() == 0 {
        Seq::empty()
    } else {
        let front = version_ingests(
            out_root,
            results_dir,
            id,
            versions.drop_last(),
            index_columns,
        ).push(version_ingest(out_root, results_dir, id, versions.last(), None));
        if index_columns is Some {
            front.push(version_ingest(out_root, results_dir, id, versions.last(), index_columns))
        } else {
            front
        }
    }
}

fn make_version_ingest(
    out_root: &str,
    results_dir: &str,
    id: &str,
    version: &str,
    index_columns: Option<String>,
) -> (ingest: VersionIngest)
    ensures
        ingest@ == version_ingest(
            out_root@,
            results_dir@,
            id@,
            version@,
            opt_view(index_columns),
        ),
{
    let tag = replace_char(version, '.', '_');
    let suffix = if index_columns.is_some() {
        ".index"
    } else {
        ""
    };
    let mut name = id.to_owned();
    name.append(".lance.v");
    name.append(tag.as_str());
    let mut out = out_root.to_owned();
    out.append("/");
    out.append(name.as_str());
    out.append(suffix);
    let mut result_out = results_dir.to_owned();
    result_out.append("/ingest.");
    result_out.append(name.as_str());
    result_out.append(suffix);
    result_out.append(".json");
    VersionIngest { version: version.to_owned(), out, result_out, index_columns }
}

/// The datasets to write for a list of format versions.
pub fn plan_version_ingests(
    dataset: DatasetArg,
    out_root: &str,
    results_dir: &str,
    lance_file_versions: &str,
    with_index: bool,
    index_columns: &str,
) -> (plan: Result<Vec<VersionIngest>, CommandError>)
    ensures
        if list_items(lance_file_versions@).len() == 0 {
            plan == Err::<Vec<VersionIngest>, CommandError>(CommandError::NoFileVersions)
        } else {
            plan matches Ok(ingests) && ingest_views(ingests@) == version_ingests(
                out_root@,
                results_dir@,
                dataset_id(dataset),
                list_items(lance_file_versions@),
                if with_index {
                    Some(joined(list_items(index_columns@), ","@))
                } else {
                    None
                },
            )
        },
{
    let versions = parse_list(lance_file_versions);
    assert(views(versions@).len() == versions@.len());
    if versions.len() == 0 {
        return Err(CommandError::NoFileVersions);
    }
    let listed = parse_list(index_columns);
    let columns = if with_index {
        Some(join(&listed, ","))
    } else {
        None
    };
    let id = dataset.id();
    let mut ingests: Vec<VersionIngest> = Vec::new();
    let ghost all = views(versions@);
    let ghost index = opt_view(columns);
    let mut i: usize = 0;
    assert(all.take(0) =~= Seq::<Seq<char>>::empty());
    assert(ingest_views(ingests@) =~= Seq::<VersionIngestView>::empty());
    while i < versions.len()
        invariant
            i <= versions.len(),
            all == views(versions@),
            index == opt_view(columns),
            id@ == dataset_id(dataset),
            ingest_views(ingests@) == version_ingests(
                out_root@,
                results_dir@,
                id@,
                all.take(i as int),
                index,
            ),
        decreases versions.len() - i,
    {
        let version = versions[i].as_str();
        let ghost next = all.take(i + 1);
        assert(next.drop_last() =~= all.take(i as int));
        assert(next.last() == version@);
        let ghost before = ingests@;
        let plain = make_version_ingest(out_root, results_dir, id, version, None);
        ingests.push(plain);
        assert(ingest_views(ingests@) =~= ingest_views(before).push(plain@));
        match &columns {
            Some(text) => {
                let ghost before = ingests@;
                let indexed = make_version_ingest(
                    out_root,
                    results_dir,
                    id,
                    version,
                    Some(text.clone()),
                );
                ingests.push(indexed);
                assert(ingest_views(ingests@) =~= ingest_views(before).push(indexed@));
            },
            None => {},
        }
        i += 1;
    }
    assert(all.take(i as int) =~= all);
    Ok(ingests)
}

// ---------------------------------------------------------------------------
// Downloading.
// ---------------------------------------------------------------------------

/// The number of a shard, in at least five digits.
pub open spec fn shard_number(n: nat) -> Seq<char> {
    if n < 100_000 {
        padded(n, 5)
    } else {
        decimal(n)
    }
}

/// The names of the first shards of a dataset.
pub open spec fn shard_names(n: nat) -> Seq<Seq<char>> {
    Seq::new(n, |i: int| shard_number(i as nat) + ".tar"@)
}

/// How many shards are asked for: one, unless a number is given.
pub open spec fn shards_asked(setting: Option<Seq<char>>) -> nat {
    match setting {
        Some(text) => match number_up_to(text, u32::MAX as nat) {
            Some(n) => n,
            None => 1,
        },
        None => 1,
    }
}

/// How many rows of the video dataset are asked for.
pub fn openvid_rows(setting: &Option<String>) -> (rows: u64)
    ensures
        rows == match opt_view(*setting) {
            Some(text) => match number_up_to(text, u64::MAX as nat) {
                Some(n) => n as u64,
                None => 1_000_000,
            },
            None => 1_000_000,
        },
{
    match setting {
        Some(text) => match parse_u64(text.as_str()) {
            Some(n) => n,
            None => 1_000_000,
        },
        None => 1_000_000,
    }
}

/// The file of the video dataset that is downloaded.
pub const OPENVID_CSV: &'static str = "data/train/OpenVid-1M.csv";

/// The repository of a dataset.
pub open spec fn repository_of(dataset: DatasetArg) -> Seq<char> {
    match dataset {
        DatasetArg::Laion10m => "Leonardo6/laion10m"@,
        DatasetArg::FineWeb => "HuggingFaceFW/fineweb"@,
        DatasetArg::LeRobotPushT => "lerobot/pusht"@,
        DatasetArg::LeRobotPushTImage => "lerobot/pusht_image"@,
        DatasetArg::OpenVid => "nkp37/OpenVid-1M"@,
    }
}

/// The files of a dataset that are downloaded; none means all.
pub open spec fn files_of(dataset: DatasetArg, shards: nat) -> Seq<Seq<char>> {
    match dataset {
        DatasetArg::Laion10m => seq![".gitattributes"@] + shard_names(shards),
        DatasetArg::FineWeb => seq!["sample/10BT/000_00000.parquet"@],
        DatasetArg::LeRobotPushT => Seq::empty(),
        DatasetArg::LeRobotPushTImage => Seq::empty(),
        DatasetArg::OpenVid => seq![OPENVID_CSV@],
    }
}

/// Where a download goes.
pub open spec fn download_dir_of(dataset: DatasetArg, out: Seq<char>) -> Seq<char> {
    match dataset {
        DatasetArg::OpenVid => path_join(out, "_raw"@),
        _ => out,
    }
}

/// Where a download goes: the video dataset is converted, so what is downloaded goes apart.
pub fn download_dir(dataset: DatasetArg, out: &str) -> (dir: String)
    ensures
        dir@ == download_dir_of(dataset, out@),
{
    match dataset {
        DatasetArg::OpenVid => join_path(out, "_raw"),
        _ => out.to_owned(),
    }
}

/// The arguments of the download of a dataset.
pub open spec fn download_words(
    dataset: DatasetArg,
    shards: nat,
    dir: Seq<char>,
) -> Seq<Seq<char>> {
    seq!["download"@, repository_of(dataset)] + files_of(dataset, shards) + seq![
        "--repo-type"@,
        "dataset"@,
        "--max-workers"@,
        "1"@,
        "--local-dir"@,
        dir,
    ]
}

fn push_word(words: &mut Vec<String>, word: &str)
    ensures
        views(final(words)@) == views(old(words)@).push(word@),
{
    let item = word.to_owned();
    proof {
        lemma_views_push(words@, item);
    }
    words.push(item);
}

fn repository(dataset: DatasetArg) -> (name: &'static str)
    ensures
        name@ == repository_of(dataset),
{
    match dataset {
        DatasetArg::Laion10m => "Leonardo6/laion10m",
        DatasetArg::FineWeb => "HuggingFaceFW/fineweb",
        DatasetArg::LeRobotPushT => "lerobot/pusht",
        DatasetArg::LeRobotPushTImage => "lerobot/pusht_image",
        DatasetArg::OpenVid => "nkp37/OpenVid-1M",
    }
}

fn push_files(words: &mut Vec<String>, dataset: DatasetArg, shards: u32)
    ensures
        views(final(words)@) == views(old(words)@) + files_of(dataset, shards as nat),
{
    let ghost before = views(words@);
    match dataset {
        DatasetArg::Laion10m => {
            push_word(words, ".gitattributes");
            let mut i: u32 = 0;
            assert(views(words@) =~= before + (seq![".gitattributes"@] + shard_names(0)));
            while i < shards
                invariant
                    i <= shards,
                    views(words@) == before + (seq![".gitattributes"@] + shard_names(i as nat)),
                decreases shards - i,
            {
                let mut name = String::new();
                if i < 100_000 {
                    push_padded(&mut name, i as u128, 5);
                } else {
                    push_decimal(&mut name, i as u128);
                }
                name.append(".tar");
                assert(name@ =~= shard_number(i as nat) + ".tar"@);
                push_word(words, name.as_str());
                assert(shard_names((i + 1) as nat) =~= shard_names(i as nat).push(name@));
                i += 1;
                assert(views(words@) =~= before + (seq![".gitattributes"@] + shard_names(
                    i as nat,
                )));
            }
        },
        DatasetArg::FineWeb => push_word(words, "sample/10BT/000_00000.parquet"),
        DatasetArg::LeRobotPushT => {},
        DatasetArg::LeRobotPushTImage => {},
        DatasetArg::OpenVid => push_word(words, OPENVID_CSV),
    }
    assert(views(words@) =~= before + files_of(dataset, shards as nat));
}

/// The arguments of the download of a dataset; the image dataset needs at least one shard.
pub fn download_args(
    dataset: DatasetArg,
    shards_setting: &Option<String>,
    out: &str,
) -> (args: Result<Vec<String>, CommandError>)
    ensures
        if dataset == DatasetArg::Laion10m && shards_asked(opt_view(*shards_setting)) == 0 {
            args == Err::<Vec<String>, CommandError>(CommandError::NoShards)
        } else {
            args matches Ok(words) && views(words@) == download_words(
                dataset,
                shards_asked(opt_view(*shards_setting)),
                download_dir_of(dataset, out@),
            )
        },
{
    let shards: u32 = match shards_setting {
        Some(text) => match parse_u32(text.as_str()) {
            Some(n) => n,
            None => 1,
        },
        None => 1,
    };
    if matches!(dataset, DatasetArg::Laion10m) && shards < 1 {
        return Err(CommandError::NoShards);
    }
    let dir = download_dir(dataset, out);
    let mut words: Vec<String> = Vec::new();
    push_word(&mut words, "download");
    push_word(&mut words, repository(dataset));
    assert(views(words@) =~= seq!["download"@, repository_of(dataset)]);
    push_files(&mut words, dataset, shards);
    let ghost head = views(words@);
    push_word(&mut words, "--repo-type");
    push_word(&mut words, "dataset");
    push_word(&mut words, "--max-workers");
    push_word(&mut words, "1");
    push_word(&mut words, "--local-dir");
    push_word(&mut words, dir.as_str());
    assert(views(words@) =~= head + seq![
        "--repo-type"@,
        "dataset"@,
        "--max-workers"@,
        "1"@,
        "--local-dir"@,
        dir@,
    ]);
    Ok(words)
}

/// The settings of a download, each for when the user has not set it.
pub fn download_settings() -> (settings: Vec<(&'static str, &'static str)>)
    ensures
        settings@.len() == 3,
        settings@[0].0@ == "HF_HUB_DISABLE_XET"@,
        settings@[0].1@ == "1"@,
        settings@[1].0@ == "HF_HUB_DOWNLOAD_TIMEOUT"@,
        settings@[1].1@ == "600"@,
        settings@[2].0@ == "HF_HUB_ETAG_TIMEOUT"@,
        settings@[2].1@ == "60"@,
{
    vec![
        ("HF_HUB_DISABLE_XET", "1"),
        ("HF_HUB_DOWNLOAD_TIMEOUT", "600"),
        ("HF_HUB_ETAG_TIMEOUT", "60"),
    ]
}

} // verus!
