//! The results that a report is made of: which runs count, and in what order.
use vstd::prelude::*;
use vstd::utf8::{decode_utf8, encode_utf8, encode_utf8_decode_utf8, valid_utf8};

use crate::params::Params;
use crate::result::{RunMetadata, RunResult};
use crate::text::{opt_eq, opt_view, split, split_on, text_eq, views};
use crate::workload::{DatasetName, EngineName, Workload};

verus! {

/// What identifies the case that a run measured.
#[derive(Debug)]
pub struct RunKey {
    pub dataset: DatasetName,
    pub engine: EngineName,
    pub lance_file_version: Option<String>,
    pub lance_disable_compression: bool,
    pub lance_index_columns: Option<String>,
    pub workload: Workload,
}

/// The contents of a [`RunKey`].
#[verifier::ext_equal]
pub struct KeyView {
    pub dataset: DatasetName,
    pub engine: EngineName,
    pub version: Option<Seq<char>>,
    pub disable_compression: bool,
    pub index_columns: Option<Seq<char>>,
    pub workload: Workload,
}

impl View for RunKey {
    type V = KeyView;

    open spec fn view(&self) -> KeyView {
        KeyView {
            dataset: self.dataset,
            engine: self.engine,
            version: opt_view(self.lance_file_version),
            disable_compression: self.lance_disable_compression,
            index_columns: opt_view(self.lance_index_columns),
            workload: self.workload,
        }
    }
}

/// A result file: its name, as the bytes of the file system, and what it holds.
#[derive(Debug)]
pub struct ResultFile {
    pub name: Vec<u8>,
    pub result: RunResult,
}

/// A result that takes part in the report.
#[derive(Debug)]
pub struct RunRecord {
    pub key: RunKey,
    pub result: RunResult,
    pub source: Vec<u8>,
}

// ---------------------------------------------------------------------------
// File names.
// ---------------------------------------------------------------------------

/// `String::from_utf8` returns the text that the bytes encode, and fails exactly where they are
/// not UTF-8.
#[verifier::external_body]
pub(crate) fn text_from_utf8(bytes: Vec<u8>) -> (text: Option<String>)
    ensures
        match text {
            Some(s) => valid_utf8(bytes@) && encode_utf8(s@) == bytes@,
            None => !valid_utf8(bytes@),
        },
{
    String::from_utf8(bytes).ok()
}

/// The position of the last dot of a file name, or -1.
pub open spec fn last_dot(name: Seq<u8>) -> int
    decreases name.len(),
{
    if name.len() == 0 {
        -1
    } else if name.last() == 46 {
        name.len() - 1
    } else {
        last_dot(name.drop_last())
    }
}

/// A file name without its extension; a name that starts with its only dot has none.
pub open spec fn file_stem(name: Seq<u8>) -> Seq<u8> {
    if last_dot(name) > 0 {
        name.take(last_dot(name))
    } else {
        name
    }
}

/// Whether a file name has an extension.
pub open spec fn extension_is(name: Seq<u8>, ext: Seq<char>) -> bool {
    last_dot(name) > 0 && name.skip(last_dot(name) + 1) == encode_utf8(ext)
}

/// The number of bytes before the last dot, and whether there is one.
fn find_last_dot(name: &Vec<u8>) -> (at: Option<usize>)
    ensures
        match at {
            Some(i) => i == last_dot(name@) && i < name.len(),
            None => last_dot(name@) == -1,
        },
{
    let mut i: usize = name.len();
    assert(name@.take(name@.len() as int) =~= name@);
    while i > 0
        invariant
            i <= name.len(),
            last_dot(name@) == last_dot(name@.take(i as int)),
        decreases i,
    {
        assert(name@.take(i as int).drop_last() =~= name@.take(i as int - 1));
        if name[i - 1] == 46 {
            return Some(i - 1);
        }
        i -= 1;
    }
    None
}

/// Whether a file name has an extension.
pub fn has_extension(name: &Vec<u8>, ext: &str) -> (yes: bool)
    ensures
        yes == extension_is(name@, ext@),
{
    match find_last_dot(name) {
        Some(i) => {
            if i == 0 {
                return false;
            }
            let wanted = ext.as_bytes();
            let ghost rest = name@.skip(i + 1);
            let start: usize = i + 1;
            if name.len() - start != wanted.len() {
                return false;
            }
            let mut k: usize = 0;
            while k < wanted.len()
                invariant
                    k <= wanted.len(),
                    start <= name.len(),
                    rest == name@.skip(start as int),
                    rest.len() == wanted.len(),
                    wanted@ == encode_utf8(ext@),
                    i > 0,
                    start == i + 1,
                    i == last_dot(name@),
                    forall|j: int| 0 <= j < k ==> rest[j] == wanted@[j],
                decreases wanted.len() - k,
            {
                assert(rest[k as int] == name@[start + k]);
                if name[start + k] != wanted[k] {
                    return false;
                }
                k += 1;
            }
            assert(rest =~= wanted@);
            true
        },
        None => false,
    }
}

/// Whether a file of a results directory holds a result, by its name.
pub fn is_result_file(name: &Vec<u8>) -> (yes: bool)
    ensures
        yes == extension_is(name@, "json"@),
{
    has_extension(name, "json")
}

fn stem_bytes(name: &Vec<u8>) -> (stem: Vec<u8>)
    ensures
        stem@ == file_stem(name@),
{
    let end: usize = match find_last_dot(name) {
        Some(i) => if i > 0 {
            i
        } else {
            name.len()
        },
        None => name.len(),
    };
    let mut stem: Vec<u8> = Vec::new();
    let mut i: usize = 0;
    while i < end
        invariant
            i <= end <= name.len(),
            stem@ == name@.take(i as int),
        decreases end - i,
    {
        stem.push(name[i]);
        i += 1;
        assert(stem@ =~= name@.take(i as int));
    }
    assert(name@.take(name@.len() as int) =~= name@);
    stem
}

/// The engine that a file name names.
pub open spec fn engine_of_id(id: Seq<char>) -> EngineName {
    if id == "lance"@ {
        EngineName::Lance
    } else if id == "lance_fragment"@ || id == "lance-fragment"@ {
        EngineName::LanceFragment
    } else if id == "parquet"@ {
        EngineName::Parquet
    } else {
        EngineName::Unknown
    }
}

/// The workload that a file name names; an unknown one counts as a size measurement.
pub open spec fn workload_of_id(id: Seq<char>) -> Workload {
    if id == "ingest"@ {
        Workload::Ingest
    } else if id == "scan-full"@ {
        Workload::ScanFull
    } else if id == "scan-project"@ {
        Workload::ScanProject
    } else if id == "scan-filter-low"@ {
        Workload::ScanFilterLow
    } else if id == "scan-filter-high"@ {
        Workload::ScanFilterHigh
    } else if id == "take"@ {
        Workload::RandomTake
    } else if id == "blob"@ {
        Workload::RandomBlob
    } else if id == "evolve"@ {
        Workload::EvolutionBackfill
    } else {
        Workload::Size
    }
}

/// The dataset that a file name names.
pub open spec fn dataset_of_id(id: Seq<char>) -> DatasetName {
    if id == "laion10m"@ {
        DatasetName::Laion10m
    } else if id == "openvid"@ {
        DatasetName::OpenVid
    } else if id == "fineweb"@ {
        DatasetName::FineWeb
    } else if id == "lerobot_pusht"@ || id == "lerobot-pusht"@ {
        DatasetName::LeRobotPushT
    } else if id == "lerobot_pusht_image"@ || id == "lerobot-pusht_image"@ {
        DatasetName::LeRobotPushTImage
    } else {
        DatasetName::Unknown
    }
}

fn engine_from_id(id: &str) -> (engine: EngineName)
    ensures
        engine == engine_of_id(id@),
{
    if text_eq(id, "lance") {
        EngineName::Lance
    } else if text_eq(id, "lance_fragment") || text_eq(id, "lance-fragment") {
        EngineName::LanceFragment
    } else if text_eq(id, "parquet") {
        EngineName::Parquet
    } else {
        EngineName::Unknown
    }
}

fn workload_from_id(id: &str) -> (workload: Workload)
    ensures
        workload == workload_of_id(id@),
{
    if text_eq(id, "ingest") {
        Workload::Ingest
    } else if text_eq(id, "scan-full") {
        Workload::ScanFull
    } else if text_eq(id, "scan-project") {
        Workload::ScanProject
    } else if text_eq(id, "scan-filter-low") {
        Workload::ScanFilterLow
    } else if text_eq(id, "scan-filter-high") {
        Workload::ScanFilterHigh
    } else if text_eq(id, "take") {
        Workload::RandomTake
    } else if text_eq(id, "blob") {
        Workload::RandomBlob
    } else if text_eq(id, "evolve") {
        Workload::EvolutionBackfill
    } else {
        Workload::Size
    }
}

fn dataset_from_id(id: &str) -> (dataset: DatasetName)
    ensures
        dataset == dataset_of_id(id@),
{
    if text_eq(id, "laion10m") {
        DatasetName::Laion10m
    } else if text_eq(id, "openvid") {
        DatasetName::OpenVid
    } else if text_eq(id, "fineweb") {
        DatasetName::FineWeb
    } else if text_eq(id, "lerobot_pusht") || text_eq(id, "lerobot-pusht") {
        DatasetName::LeRobotPushT
    } else if text_eq(id, "lerobot_pusht_image") || text_eq(id, "lerobot-pusht_image") {
        DatasetName::LeRobotPushTImage
    } else {
        DatasetName::Unknown
    }
}

/// The case that a file name tells: its last three dot separated parts are the dataset, the
/// workload and the engine. A name that is not text, or has fewer parts, tells nothing.
pub open spec fn inferred_key(name: Seq<u8>) -> Option<KeyView> {
    let stem = file_stem(name);
    let parts = split_on(decode_utf8(stem), '.');
    let n = parts.len() as int;
    if !valid_utf8(stem) || n < 3 {
        None
    } else {
        Some(
            KeyView {
                dataset: dataset_of_id(parts[n - 3]),
                engine: engine_of_id(parts[n - 1]),
                version: None,
                disable_compression: false,
                index_columns: None,
                workload: workload_of_id(parts[n - 2]),
            },
        )
    }
}

/// Reads the case off a file name.
pub fn infer_key_from_filename(name: &Vec<u8>) -> (key: Option<RunKey>)
    ensures
        match key {
            Some(k) => inferred_key(name@) == Some(k@),
            None => inferred_key(name@) is None,
        },
{
    match text_from_utf8(stem_bytes(name)) {
        Some(stem) => {
            proof {
                encode_utf8_decode_utf8(stem@);
            }
            let parts = split(stem.as_str(), '.');
            let n: usize = parts.len();
            if n < 3 {
                return None;
            }
            assert(views(parts@)[n - 1] == parts@[n - 1]@);
            assert(views(parts@)[n - 2] == parts@[n - 2]@);
            assert(views(parts@)[n - 3] == parts@[n - 3]@);
            Some(
                RunKey {
                    dataset: dataset_from_id(parts[n - 3].as_str()),
                    engine: engine_from_id(parts[n - 1].as_str()),
                    lance_file_version: None,
                    lance_disable_compression: false,
                    lance_index_columns: None,
                    workload: workload_from_id(parts[n - 2].as_str()),
                },
            )
        },
        None => None,
    }
}

// ---------------------------------------------------------------------------
// The case of a result.
// ---------------------------------------------------------------------------

/// The dataset of a result: the recorded one, or where it is unknown the one the name tells.
pub open spec fn dataset_of(name: Seq<u8>, meta: RunMetadata) -> DatasetName {
    match inferred_key(name) {
        Some(k) if meta.dataset == DatasetName::Unknown => k.dataset,
        _ => meta.dataset,
    }
}

/// The engine of a result: the recorded one, or where it is unknown the one the name tells.
pub open spec fn engine_of(name: Seq<u8>, meta: RunMetadata) -> EngineName {
    match inferred_key(name) {
        Some(k) if meta.engine == EngineName::Unknown => k.engine,
        _ => meta.engine,
    }
}

/// The value of a parameter, where it is set.
pub open spec fn param(params: Map<Seq<char>, Seq<char>>, name: Seq<char>) -> Option<Seq<char>> {
    if params.contains_key(name) {
        Some(params[name])
    } else {
        None
    }
}

/// The case of a result of a dataset and engine. The Lance parameters count for Lance only.
pub open spec fn key_with(dataset: DatasetName, engine: EngineName, meta: RunMetadata) -> KeyView {
    let lance = engine == EngineName::Lance;
    KeyView {
        dataset,
        engine,
        version: if !lance {
            None
        } else if meta.params@.contains_key("lance_file_version"@) {
            Some(meta.params@["lance_file_version"@])
        } else {
            Some("2.0"@)
        },
        disable_compression: lance && param(meta.params@, "lance_disable_compression"@) == Some(
            "true"@,
        ),
        index_columns: if lance {
            param(meta.params@, "lance_index_columns"@)
        } else {
            None
        },
        workload: meta.workload,
    }
}

/// The case of a result, with the help of its file name.
pub open spec fn key_of(name: Seq<u8>, meta: RunMetadata) -> KeyView {
    key_with(dataset_of(name, meta), engine_of(name, meta), meta)
}

/// The case of a result as it was recorded.
pub open spec fn recorded_key(meta: RunMetadata) -> KeyView {
    key_with(meta.dataset, meta.engine, meta)
}

/// A copy of a parameter's value.
pub fn param_value(params: &Params, name: &str) -> (value: Option<String>)
    ensures
        opt_view(value) == param(params@, name@),
{
    match params.get(name) {
        Some(v) => Some(v.clone()),
        None => None,
    }
}

fn make_key(dataset: DatasetName, engine: EngineName, meta: &RunMetadata) -> (key: RunKey)
    ensures
        key@ == key_with(dataset, engine, *meta),
{
    let lance = engine == EngineName::Lance;
    let lance_file_version = if lance {
        match param_value(&meta.params, "lance_file_version") {
            Some(v) => Some(v),
            None => Some("2.0".to_owned()),
        }
    } else {
        None
    };
    let lance_disable_compression = lance && match meta.params.get("lance_disable_compression") {
        Some(v) => text_eq(v.as_str(), "true"),
        None => false,
    };
    let lance_index_columns = if lance {
        param_value(&meta.params, "lance_index_columns")
    } else {
        None
    };
    RunKey {
        dataset,
        engine,
        lance_file_version,
        lance_disable_compression,
        lance_index_columns,
        workload: meta.workload,
    }
}

pub(crate) fn key_of_file(name: &Vec<u8>, meta: &RunMetadata) -> (key: RunKey)
    ensures
        key@ == key_of(name@, *meta),
{
    let inferred = infer_key_from_filename(name);
    let dataset = match &inferred {
        Some(k) if meta.dataset == DatasetName::Unknown => k.dataset,
        _ => meta.dataset,
    };
    let engine = match &inferred {
        Some(k) if meta.engine == EngineName::Unknown => k.engine,
        _ => meta.engine,
    };
    make_key(dataset, engine, meta)
}

pub(crate) fn recorded_key_of(meta: &RunMetadata) -> (key: RunKey)
    ensures
        key@ == recorded_key(*meta),
{
    make_key(meta.dataset, meta.engine, meta)
}

pub(crate) fn key_eq(a: &RunKey, b: &RunKey) -> (same: bool)
    ensures
        same == (a@ == b@),
{
    a.dataset == b.dataset && a.engine == b.engine && opt_eq(
        &a.lance_file_version,
        &b.lance_file_version,
    ) && a.lance_disable_compression == b.lance_disable_compression && opt_eq(
        &a.lance_index_columns,
        &b.lance_index_columns,
    ) && a.workload == b.workload
}

// ---------------------------------------------------------------------------
// Order.
// ---------------------------------------------------------------------------

/// Where a dataset stands in the report.
pub open spec fn dataset_rank(dataset: DatasetName) -> u8 {
    match dataset {
        DatasetName::FineWeb => 0,
        DatasetName::OpenVid => 1,
        DatasetName::Laion10m => 2,
        DatasetName::LeRobotPushT => 3,
        DatasetName::LeRobotPushTImage => 4,
        DatasetName::Unknown => 255,
    }
}

/// Where an engine stands in the report.
pub open spec fn engine_rank(engine: EngineName) -> u8 {
    match engine {
        EngineName::Parquet => 0,
        EngineName::Lance => 1,
        EngineName::LanceFragment => 255,
        EngineName::Unknown => 255,
    }
}

/// Where a file version stands: known ones by age, then the unknown ones.
pub open spec fn version_rank(version: Option<Seq<char>>) -> u8 {
    match version {
        None => 0,
        Some(v) => if v == "2.0"@ || v == "0.3"@ || v == "stable"@ {
            0
        } else if v == "2.1"@ {
            1
        } else if v == "2.2"@ {
            2
        } else {
            254
        },
    }
}

/// Runs without an index come first.
pub open spec fn index_rank(cols: Option<Seq<char>>) -> u8 {
    match cols {
        None => 0,
        Some(_) => 1,
    }
}

/// Runs with compression come first.
pub open spec fn compression_rank(disabled: bool) -> u8 {
    if disabled {
        1
    } else {
        0
    }
}

/// Where a workload stands in the report.
pub open spec fn workload_rank(workload: Workload) -> u8 {
    match workload {
        Workload::Ingest => 0,
        Workload::ScanFull => 1,
        Workload::ScanProject => 2,
        Workload::ScanFilterLow => 3,
        Workload::ScanFilterHigh => 4,
        Workload::RandomTake => 5,
        Workload::RandomBlob => 6,
        Workload::EvolutionBackfill => 7,
        Workload::Size => 8,
    }
}

/// Where a dataset stands in the report.
pub fn dataset_order(dataset: DatasetName) -> (rank: u8)
    ensures
        rank == dataset_rank(dataset),
{
    match dataset {
        DatasetName::FineWeb => 0,
        DatasetName::OpenVid => 1,
        DatasetName::Laion10m => 2,
        DatasetName::LeRobotPushT => 3,
        DatasetName::LeRobotPushTImage => 4,
        DatasetName::Unknown => 255,
    }
}

/// Where an engine stands in the report.
pub fn engine_order(engine: EngineName) -> (rank: u8)
    ensures
        rank == engine_rank(engine),
{
    match engine {
        EngineName::Parquet => 0,
        EngineName::Lance => 1,
        EngineName::LanceFragment => 255,
        EngineName::Unknown => 255,
    }
}

/// Where a file version stands in the report.
pub fn lance_file_version_order(version: &Option<String>) -> (rank: u8)
    ensures
        rank == version_rank(opt_view(*version)),
{
    match version {
        None => 0,
        Some(v) => {
            let v = v.as_str();
            if text_eq(v, "2.0") || text_eq(v, "0.3") || text_eq(v, "stable") {
                0
            } else if text_eq(v, "2.1") {
                1
            } else if text_eq(v, "2.2") {
                2
            } else {
                254
            }
        },
    }
}

/// Where a run stands by its index.
pub fn lance_index_columns_order(cols: &Option<String>) -> (rank: u8)
    ensures
        rank == index_rank(opt_view(*cols)),
{
    match cols {
        None => 0,
        Some(_) => 1,
    }
}

/// Where a run stands by its compression.
pub fn lance_disable_compression_order(disabled: bool) -> (rank: u8)
    ensures
        rank == compression_rank(disabled),
{
    if disabled {
        1
    } else {
        0
    }
}

/// Where a workload stands in the report.
pub fn workload_order(workload: Workload) -> (rank: u8)
    ensures
        rank == workload_rank(workload),
{
    match workload {
        Workload::Ingest => 0,
        Workload::ScanFull => 1,
        Workload::ScanProject => 2,
        Workload::ScanFilterLow => 3,
        Workload::ScanFilterHigh => 4,
        Workload::RandomTake => 5,
        Workload::RandomBlob => 6,
        Workload::EvolutionBackfill => 7,
        Workload::Size => 8,
    }
}

} // verus!
